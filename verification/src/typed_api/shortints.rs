//! Encrypted unsigned integers of two bits.
use crate::entities::lwe_ciphertext::LweCiphertext;
use crate::entities::seeded_lwe_ciphertext::SeededLweCiphertext;
use crate::lwe_encryption::{encryption_of, lwe_phase};
use crate::random::{EncryptionRandomGenerator, RandomGenerator, SeedableGenerator, Seeder};
use crate::shortint::{decode, encode};
use crate::typed_api::keys::ClientKey;
use std::marker::PhantomData;
use vstd::prelude::*;

verus! {

/// Why a value cannot be encrypted.
#[derive(Clone, Copy, Debug, PartialEq, Eq, Structural)]
pub enum EncryptionError {
    /// The value does not fit in the bits of the type.
    OutOfRange,
    /// The key of the owner has no key for the type.
    UninitializedKey,
}

/// An encrypted unsigned integer of two bits.
pub struct FheUint2 {
    pub ciphertext: LweCiphertext<u64>,
}

/// An encrypted unsigned integer of two bits in compressed form: it keeps
/// the seed of its mask in place of the mask, for the generator `G` to draw
/// the mask again.
pub struct CompressedFheUint2<G> {
    ciphertext: SeededLweCiphertext<u64>,
    generator: PhantomData<G>,
}

impl FheUint2 {
    /// The largest value of the type.
    pub const MAX: u8 = 3;

    /// Encrypts `value` under the key for the type of `key`, with
    /// randomness drawn from `generator`.
    pub fn try_encrypt<G: RandomGenerator<u64>>(
        value: u8,
        key: &ClientKey,
        generator: &mut EncryptionRandomGenerator<G>,
    ) -> (result: Result<Self, EncryptionError>)
        ensures
            result is Ok <==> value <= 3 && key.uint2_key is Some,
            match result {
                Ok(encrypted) => {
                    let shortint_key = key.uint2_key.unwrap();
                    &&& final(generator).mask_draws() == old(generator).mask_draws()
                        + encrypted.ciphertext@.mask
                    &&& final(generator).noise_draws().len() == old(generator).noise_draws().len()
                        + 1
                    &&& final(generator).noise_draws().drop_last() == old(generator).noise_draws()
                    &&& final(generator).noise_requests() == old(generator).noise_requests().push(
                        shortint_key.spec_parameters().glwe_modular_std_dev,
                    )
                    &&& encrypted.ciphertext@.mask.len() == shortint_key.spec_encryption_key().len()
                    &&& encrypted.ciphertext@ == encryption_of(
                        shortint_key.spec_encryption_key(),
                        encode(
                            (value as nat) % (shortint_key.spec_parameters().message_modulus.0 as nat),
                            shortint_key.spec_encoding_log(),
                        ),
                        encrypted.ciphertext@.mask,
                        final(generator).noise_draws().last(),
                        64,
                    )
                },
                Err(error) => error == (if value > 3 {
                    EncryptionError::OutOfRange
                } else {
                    EncryptionError::UninitializedKey
                }) && final(generator).mask_draws() == old(generator).mask_draws()
                    && final(generator).noise_draws() == old(generator).noise_draws()
                    && final(generator).noise_requests() == old(generator).noise_requests(),
            },
    {
        if value > Self::MAX {
            return Err(EncryptionError::OutOfRange);
        }
        match &key.uint2_key {
            None => Err(EncryptionError::UninitializedKey),
            Some(shortint_key) => Ok(
                FheUint2 { ciphertext: shortint_key.encrypt(value as u64, generator) },
            ),
        }
    }

    /// Decrypts the value with the key for the type of `key`.
    pub fn decrypt(&self, key: &ClientKey) -> (value: u8)
        requires
            key.uint2_key is Some,
            self.ciphertext@.mask.len() == key.uint2_key.unwrap().spec_encryption_key().len(),
            key.uint2_key.unwrap().spec_parameters().message_modulus.0 <= 256,
        ensures
            value == decode(
                lwe_phase(self.ciphertext@, key.uint2_key.unwrap().spec_encryption_key(), 64),
                key.uint2_key.unwrap().spec_encoding_log(),
                key.uint2_key.unwrap().spec_parameters().message_modulus.0 as nat,
            ),
    {
        let shortint_key = key.uint2_key.as_ref().unwrap();
        // The message modulus of a key is at least one: a message is below
        // it, and so fits in a byte.
        let _ = shortint_key.parameters();
        let message = shortint_key.decrypt(&self.ciphertext);
        message as u8
    }
}

impl<G: SeedableGenerator + RandomGenerator<u64>> CompressedFheUint2<G> {
    /// The number of scalars of the mask of the ciphertext.
    pub closed spec fn spec_lwe_dimension(&self) -> nat {
        self.ciphertext.spec_lwe_dimension()
    }

    /// The body of the ciphertext, as a number.
    pub closed spec fn spec_body(&self) -> nat {
        self.ciphertext.spec_body()
    }

    /// Encrypts `value` under the key for the type of `key` into a
    /// compressed ciphertext, with seeds drawn from `seeder`.
    pub fn try_encrypt<S: Seeder>(
        value: u8,
        key: &ClientKey,
        seeder: &mut S,
    ) -> (result: Result<Self, EncryptionError>)
        ensures
            result is Ok <==> value <= 3 && key.uint2_key is Some,
            match result {
                Ok(encrypted) => encrypted.spec_lwe_dimension()
                    == key.uint2_key.unwrap().spec_encryption_key().len(),
                Err(error) => error == (if value > 3 {
                    EncryptionError::OutOfRange
                } else {
                    EncryptionError::UninitializedKey
                }),
            },
    {
        if value > FheUint2::MAX {
            return Err(EncryptionError::OutOfRange);
        }
        match &key.uint2_key {
            None => Err(EncryptionError::UninitializedKey),
            Some(shortint_key) => Ok(
                CompressedFheUint2 {
                    ciphertext: shortint_key.encrypt_compressed::<G, S>(value as u64, seeder),
                    generator: PhantomData,
                },
            ),
        }
    }

    /// The value with its mask drawn again from the seed.
    pub fn decompress(self) -> (value: FheUint2)
        ensures
            value.ciphertext@.body == self.spec_body(),
            value.ciphertext@.mask.len() == self.spec_lwe_dimension(),
    {
        FheUint2 { ciphertext: self.ciphertext.decompress_into_lwe_ciphertext::<G>() }
    }
}

impl<G: SeedableGenerator + RandomGenerator<u64>> From<CompressedFheUint2<G>> for FheUint2 {
    /// The value with its mask drawn again from the seed.
    fn from(value: CompressedFheUint2<G>) -> (decompressed: FheUint2)
        ensures
            decompressed.ciphertext@.body == value.spec_body(),
            decompressed.ciphertext@.mask.len() == value.spec_lwe_dimension(),
    {
        value.decompress()
    }
}

impl<G: SeedableGenerator + RandomGenerator<u64>> vstd::std_specs::convert::FromSpecImpl<CompressedFheUint2<G>> for FheUint2 {
    /// The mask is what the generator hands out, which no function of the
    /// compressed value gives.
    open spec fn obeys_from_spec() -> bool {
        false
    }

    open spec fn from_spec(value: CompressedFheUint2<G>) -> FheUint2 {
        arbitrary()
    }
}

} // verus!
