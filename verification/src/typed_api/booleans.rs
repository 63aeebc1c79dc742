//! The keys of encrypted booleans.
use crate::entities::lwe_ciphertext::LweCiphertextView;
use crate::entities::lwe_ciphertext_list::LweCiphertextList;
use crate::entities::lwe_secret_key::LweSecretKey;
use crate::entities::plaintext_list::PlaintextList;
use crate::lwe_encryption::{encrypt_lwe_ciphertext_list, list_encryption_of};
use crate::parameter_sets::FheBoolParameters;
use crate::parameters::{LweCiphertextCount, LweDimension, PlaintextCount};
use crate::random::{EncryptionRandomGenerator, RandomGenerator};
use std::marker::PhantomData;
use vstd::arithmetic::mul::*;
use vstd::prelude::*;

verus! {

/// The number of bits of the scalars of boolean ciphertexts.
pub const LOG2_Q_32: usize = 32;

/// A set of parameters of encrypted booleans.
pub trait BooleanParameterSet: Copy {
    /// The parameters of the set.
    spec fn spec_parameters(self) -> FheBoolParameters;

    /// The parameters of the set.
    fn into_parameters(self) -> (parameters: FheBoolParameters)
        ensures
            parameters == self.spec_parameters(),
    ;
}

impl BooleanParameterSet for FheBoolParameters {
    open spec fn spec_parameters(self) -> FheBoolParameters {
        self
    }

    fn into_parameters(self) -> (parameters: FheBoolParameters) {
        self
    }
}

/// The number of encryptions of zero of the public key of booleans for a
/// secret key of the given dimension: one for each bit of each scalar of a
/// ciphertext, and 128 more.
pub open spec fn zero_encryption_count(lwe_dimension: nat) -> nat {
    (lwe_dimension + 1) * 32 + 128
}

/// The key of the owner of encrypted booleans of the parameter set `P`.
pub struct GenericBoolClientKey<P: BooleanParameterSet> {
    lwe_secret_key: LweSecretKey<u32>,
    glwe_secret_key: LweSecretKey<u32>,
    parameters: P,
}

impl<P: BooleanParameterSet> GenericBoolClientKey<P> {
    /// The parameters of the key.
    pub closed spec fn spec_parameters(&self) -> FheBoolParameters {
        self.parameters.spec_parameters()
    }

    /// The LWE secret key, under which booleans are encrypted.
    pub closed spec fn spec_lwe_key(&self) -> Seq<nat> {
        self.lwe_secret_key@
    }

    /// The GLWE secret key, as the sequence of the coefficients of its
    /// polynomials.
    pub closed spec fn spec_glwe_key(&self) -> Seq<nat> {
        self.glwe_secret_key@
    }

    /// A new key for `parameters`, with secret keys of zeros and ones drawn
    /// from `generator`. There is no key where the polynomials of the
    /// parameters have more coefficients together than the machine can
    /// count.
    pub fn new<G: RandomGenerator<u32>>(parameters: P, generator: &mut G) -> (key: Option<Self>)
        ensures
            key is Some <==> parameters.spec_parameters().glwe_dimension.0
                * parameters.spec_parameters().polynomial_size.0 <= usize::MAX,
            key is Some ==> {
                let key = key.unwrap();
                &&& key.spec_parameters() == parameters.spec_parameters()
                &&& key.spec_lwe_key().len() == parameters.spec_parameters().lwe_dimension.0
                &&& key.spec_glwe_key().len() == parameters.spec_parameters().glwe_dimension.0
                    * parameters.spec_parameters().polynomial_size.0
                &&& forall|i: int|
                    0 <= i < key.spec_lwe_key().len() ==> #[trigger] key.spec_lwe_key()[i] <= 1
                &&& forall|i: int|
                    0 <= i < key.spec_glwe_key().len() ==> #[trigger] key.spec_glwe_key()[i] <= 1
            },
    {
        let set = parameters.into_parameters();
        let glwe_scalars = match set.glwe_dimension.0.checked_mul(set.polynomial_size.0) {
            Some(count) => count,
            None => {
                return None;
            },
        };
        let lwe_secret_key = LweSecretKey::generate_new_binary(set.lwe_dimension, generator);
        let glwe_secret_key = LweSecretKey::generate_new_binary(
            LweDimension(glwe_scalars),
            generator,
        );
        Some(GenericBoolClientKey { lwe_secret_key, glwe_secret_key, parameters })
    }
}

/// The public key of encrypted booleans of the parameter set `P`: a list of
/// encryptions of zero under the LWE secret key of the owner. Whoever has it
/// can encrypt, by adding some of them to a message.
pub struct GenericBoolPublicKey<P: BooleanParameterSet> {
    key: LweCiphertextList<u32>,
    parameters: P,
    marker: PhantomData<P>,
}

impl<P: BooleanParameterSet> GenericBoolPublicKey<P> {
    /// The encryptions of zero of the key.
    pub closed spec fn zero_encryptions(&self) -> Seq<LweCiphertextView> {
        self.key@
    }

    /// The parameters of the key.
    pub closed spec fn spec_parameters(&self) -> FheBoolParameters {
        self.parameters.spec_parameters()
    }

    /// The public key that goes with `client_key`: as many encryptions of
    /// zero under its LWE secret key as the size of a ciphertext has bits,
    /// and 128 more, each with randomness drawn from `generator` and a noise
    /// asked for with the standard deviation of the LWE noise of the
    /// parameters.
    ///
    /// That many ciphertexts must not have more scalars than the machine
    /// can count.
    pub fn new<G: RandomGenerator<u32>>(
        client_key: &GenericBoolClientKey<P>,
        generator: &mut EncryptionRandomGenerator<G>,
    ) -> (public_key: Self)
        requires
            zero_encryption_count(client_key.spec_lwe_key().len()) * (
            client_key.spec_lwe_key().len() + 1) <= usize::MAX,
        ensures
            ({
                let count = zero_encryption_count(client_key.spec_lwe_key().len());
                let masks = final(generator).mask_draws().skip(
                    old(generator).mask_draws().len() as int,
                );
                let noises = final(generator).noise_draws().skip(
                    old(generator).noise_draws().len() as int,
                );
                &&& public_key.spec_parameters() == client_key.spec_parameters()
                &&& final(generator).mask_draws() == old(generator).mask_draws() + masks
                &&& final(generator).noise_draws() == old(generator).noise_draws() + noises
                &&& final(generator).noise_requests() == old(generator).noise_requests()
                    + Seq::new(count, |i: int| client_key.spec_parameters().lwe_modular_std_dev)
                &&& masks.len() == count * client_key.spec_lwe_key().len()
                &&& noises.len() == count
                &&& public_key.zero_encryptions() == list_encryption_of(
                    client_key.spec_lwe_key(),
                    Seq::new(count, |i: int| 0nat),
                    masks,
                    noises,
                    32,
                )
            }),
    {
        let dimension = client_key.lwe_secret_key.lwe_dimension();
        proof {
            // Each of the factors of a product within the machine's range
            // is within it, as neither is zero.
            let size = dimension.0 + 1;
            let count = zero_encryption_count(dimension.0 as nat) as int;
            lemma_mul_inequality(1, count, size);
            lemma_mul_inequality(1, size, count);
            lemma_mul_is_commutative(size, count);
        }
        let lwe_size = dimension.to_lwe_size();
        // Formula is (n + 1) * log2(q) + 128
        let count = lwe_size.0 * LOG2_Q_32 + 128;
        let zeros = PlaintextList::new(0u32, PlaintextCount(count));
        let mut key = LweCiphertextList::new(0u32, lwe_size, LweCiphertextCount(count));
        encrypt_lwe_ciphertext_list(
            &client_key.lwe_secret_key,
            &mut key,
            &zeros,
            client_key.parameters.into_parameters().lwe_modular_std_dev,
            generator,
        );
        GenericBoolPublicKey { key, parameters: client_key.parameters, marker: PhantomData }
    }

    /// The public key made of the given encryptions of zero, for the given
    /// parameters.
    pub fn from_raw_parts(
        zero_encryptions: LweCiphertextList<u32>,
        parameters: P,
    ) -> (public_key: Self)
        ensures
            public_key.zero_encryptions() == zero_encryptions@,
            public_key.spec_parameters() == parameters.spec_parameters(),
    {
        GenericBoolPublicKey { key: zero_encryptions, parameters, marker: PhantomData }
    }

    /// The encryptions of zero of the key.
    pub fn zero_encryption_list(&self) -> (list: &LweCiphertextList<u32>)
        ensures
            list@ == self.zero_encryptions(),
    {
        &self.key
    }

    /// The parameters of the key.
    pub fn parameters(&self) -> (parameters: P)
        ensures
            parameters.spec_parameters() == self.spec_parameters(),
    {
        self.parameters
    }
}

} // verus!
