//! Short integers: a few bits of message kept in the high bits of one LWE
//! ciphertext of 64-bit scalars, below one bit of padding.
use crate::decomposition::decomposer::{closest_word, SignedDecomposer};
use crate::entities::lwe_ciphertext::LweCiphertext;
use crate::entities::lwe_secret_key::LweSecretKey;
use crate::entities::plaintext_list::Plaintext;
use crate::entities::seeded_lwe_ciphertext::SeededLweCiphertext;
use crate::decomposition::term::signed_value;
use crate::lwe_encryption::{
    decrypt_lwe_ciphertext,
    encrypt_lwe_ciphertext,
    encrypt_seeded_lwe_ciphertext,
    encryption_of,
    lemma_phase_of_encryption,
    lwe_phase,
};
use crate::numeric::UnsignedInteger;
use crate::parameter_sets::ShortintParameters;
use crate::parameters::{DecompositionBaseLog, DecompositionLevelCount, LweDimension};
use crate::random::{EncryptionRandomGenerator, RandomGenerator, SeedableGenerator, Seeder};
use vstd::arithmetic::div_mod::*;
use vstd::arithmetic::mul::*;
use vstd::arithmetic::power2::*;
use vstd::bits::*;
use vstd::prelude::*;

verus! {

/// Whether the messages and carries of `parameters` take `2^log` values
/// together, and leave room for the bit of padding and one bit below them.
pub open spec fn is_encoding_log(parameters: ShortintParameters, log: nat) -> bool {
    &&& log <= 62
    &&& parameters.message_modulus.0 >= 1
    &&& parameters.message_modulus.0 * parameters.carry_modulus.0 == pow2(log)
}

/// The plaintext that encodes `message`: the message in the bits just below
/// the bit of padding, where message and carry take `2^log` values.
pub open spec fn encode(message: nat, log: nat) -> nat {
    message * pow2((63 - log) as nat)
}

/// The message that the phase of a ciphertext decodes to: the phase rounded
/// to the closest encoding, taken out of the high bits and reduced modulo
/// the message modulus.
pub open spec fn decode(phase: nat, log: nat, message_modulus: nat) -> nat {
    (closest_word(phase, (63 - log) as nat, 64) / pow2((63 - log) as nat)) % message_modulus
}

/// A message with a noise under half of what separates two encodings
/// decodes to the message.
pub proof fn lemma_decode_of_noisy_encoding(
    message: nat,
    noise: int,
    log: nat,
    message_modulus: nat,
)
    requires
        log <= 62,
        message < message_modulus <= pow2(log),
        -pow2((62 - log) as nat) <= noise < pow2((62 - log) as nat),
    ensures
        decode(
            ((encode(message, log) + noise) % (pow2(64) as int)) as nat,
            log,
            message_modulus,
        ) == message,
{
    let low_bits = (63 - log) as nat;
    let step = pow2(low_bits) as int;
    let half = pow2((low_bits - 1) as nat) as int;
    let range = pow2(64) as int;
    let exact = encode(message, log) + noise;
    let phase = (exact % range) as nat;
    lemma_pow2_pos(64);
    lemma_pow2_pos(low_bits);
    lemma_pow2_unfold(low_bits);
    lemma_pow2_adds(low_bits, log);
    lemma_pow2_adds(low_bits, (log + 1) as nat);
    lemma_pow2_unfold((log + 1) as nat);
    lemma_mod_bound(exact, range);
    // The encodings lie below the bit of padding.
    assert(message * step <= (pow2(log) - 1) * step) by (nonlinear_arith)
        requires
            message <= pow2(log) - 1,
            step > 0,
    ;
    assert((pow2(log) - 1) * step == pow2(63) - step) by (nonlinear_arith)
        requires
            pow2(63) == step * pow2(log),
    ;
    assert(range == 2 * pow2(63)) by {
        lemma_pow2_unfold(64);
    }
    lemma_mul_is_commutative(message as int, step);
    if noise >= 0 {
        lemma_small_mod(exact as nat, range as nat);
        lemma_fundamental_div_mod_converse_div(phase + half, step, message as int, noise + half);
        lemma_small_mod((message * step) as nat, range as nat);
        lemma_div_by_multiple(message as int, step);
    } else if message >= 1 {
        assert(message * step >= step) by (nonlinear_arith)
            requires
                message >= 1,
                step > 0,
        ;
        lemma_small_mod(exact as nat, range as nat);
        lemma_fundamental_div_mod_converse_div(phase + half, step, message as int, noise + half);
        lemma_small_mod((message * step) as nat, range as nat);
        lemma_div_by_multiple(message as int, step);
    } else {
        lemma_mul_basics(step);
        lemma_mod_add_multiples_vanish(exact, range);
        lemma_small_mod((exact + range) as nat, range as nat);
        let steps = pow2((log + 1) as nat) as int;
        assert(range == step * steps);
        lemma_mul_is_commutative(steps, step);
        lemma_fundamental_div_mod_converse_div(phase + half, step, steps, noise + half);
        lemma_mod_self_0(range);
        lemma_div_basics(step);
    }
    lemma_small_mod(message, message_modulus);
}

/// The encryption of a message decrypts to the message, where the noise of
/// the encryption, read as a signed word, is under half of what separates
/// two encodings.
pub proof fn lemma_decryption_of_encryption(
    key: Seq<nat>,
    message: nat,
    mask: Seq<nat>,
    noise: nat,
    log: nat,
    message_modulus: nat,
)
    requires
        log <= 62,
        message < message_modulus <= pow2(log),
        noise < pow2(64),
        -pow2((62 - log) as nat) <= signed_value(noise, 64) < pow2((62 - log) as nat),
    ensures
        decode(
            lwe_phase(encryption_of(key, encode(message, log), mask, noise, 64), key, 64),
            log,
            message_modulus,
        ) == message,
{
    let range = pow2(64) as int;
    let encoded = encode(message, log) as int;
    lemma_pow2_pos(64);
    lemma_phase_of_encryption(key, encode(message, log), mask, noise, 64);
    if signed_value(noise, 64) != noise {
        lemma_mod_add_multiples_vanish(encoded + noise - range, range);
    }
    lemma_decode_of_noisy_encoding(message, signed_value(noise, 64), log, message_modulus);
}

/// The key of the owner of short integers of one parameter set.
pub struct ShortintClientKey {
    large_lwe_secret_key: LweSecretKey<u64>,
    small_lwe_secret_key: LweSecretKey<u64>,
    parameters: ShortintParameters,
    encoding_log: usize,
}

impl ShortintClientKey {
    #[verifier::type_invariant]
    spec fn well_formed(self) -> bool {
        &&& is_encoding_log(self.parameters, self.encoding_log as nat)
        &&& self.large_lwe_secret_key@.len() < usize::MAX
    }

    /// The parameters of the key.
    pub closed spec fn spec_parameters(&self) -> ShortintParameters {
        self.parameters
    }

    /// The logarithm in base two of the number of values that message and
    /// carry take together.
    pub closed spec fn spec_encoding_log(&self) -> nat {
        self.encoding_log as nat
    }

    /// The secret key that ciphertexts are encrypted under.
    pub closed spec fn spec_encryption_key(&self) -> Seq<nat> {
        self.large_lwe_secret_key@
    }

    /// The secret key that ciphertexts are switched to before a bootstrap.
    pub closed spec fn spec_small_key(&self) -> Seq<nat> {
        self.small_lwe_secret_key@
    }

    /// The logarithm in base two of the number of values that messages and
    /// carries of `parameters` take together, where that number is a power
    /// of two that leaves room for the bit of padding and one bit below.
    pub fn encoding_log_of(parameters: &ShortintParameters) -> (log: Option<usize>)
        ensures
            match log {
                Some(log) => is_encoding_log(*parameters, log as nat),
                None => forall|log: nat| !is_encoding_log(*parameters, log),
            },
    {
        let message_modulus = parameters.message_modulus.0 as u128;
        let carry_modulus = parameters.carry_modulus.0 as u128;
        if message_modulus == 0 {
            return None;
        }
        proof {
            assert(message_modulus * carry_modulus <= u128::MAX) by (nonlinear_arith)
                requires
                    message_modulus <= 0xffff_ffff_ffff_ffff,
                    carry_modulus <= 0xffff_ffff_ffff_ffff,
            ;
            lemma2_to64();
        }
        let total = message_modulus * carry_modulus;
        let mut power: u128 = 1;
        let mut log: usize = 0;
        while power < total && log < 62
            invariant
                log <= 62,
                power == pow2(log as nat),
                forall|smaller: nat| smaller < log ==> pow2(smaller) < total,
            decreases 62 - log,
        {
            proof {
                lemma_pow2_unfold((log + 1) as nat);
                lemma2_to64_rest();
                if log + 1 < 62 {
                    lemma_pow2_strictly_increases((log + 1) as nat, 62);
                }
                assert forall|smaller: nat| smaller < log + 1 implies pow2(smaller) < total by {
                    if smaller < log {
                    }
                }
            }
            power = power * 2;
            log = log + 1;
        }
        if power == total {
            Some(log)
        } else {
            proof {
                assert forall|any: nat| !is_encoding_log(*parameters, any) by {
                    if any <= 62 && any > log {
                        lemma_pow2_strictly_increases(log as nat, any);
                    }
                }
            }
            None
        }
    }

    /// A new key for `parameters`, with secret keys of zeros and ones drawn
    /// from `generator`: the key of encryptions, of as many scalars as the
    /// polynomials of the parameters have coefficients together, and the
    /// small key, of the LWE dimension of the parameters.
    ///
    /// There is no key where messages and carries do not take a power of two
    /// of values together that leaves room for the bit of padding and one
    /// bit below, nor where the dimension of the key of encryptions does not
    /// leave room for the body of a ciphertext.
    pub fn new<G: RandomGenerator<u64>>(
        parameters: ShortintParameters,
        generator: &mut G,
    ) -> (key: Option<Self>)
        ensures
            key is Some <==> (exists|log: nat| is_encoding_log(parameters, log))
                && parameters.glwe_dimension.0 * parameters.polynomial_size.0 < usize::MAX,
            key is Some ==> {
                let key = key.unwrap();
                &&& key.spec_parameters() == parameters
                &&& is_encoding_log(parameters, key.spec_encoding_log())
                &&& key.spec_encryption_key().len() == parameters.glwe_dimension.0
                    * parameters.polynomial_size.0
                &&& key.spec_small_key().len() == parameters.lwe_dimension.0
                &&& forall|i: int|
                    0 <= i < key.spec_encryption_key().len()
                        ==> #[trigger] key.spec_encryption_key()[i] <= 1
                &&& forall|i: int|
                    0 <= i < key.spec_small_key().len() ==> #[trigger] key.spec_small_key()[i] <= 1
            },
    {
        let encoding_log = match Self::encoding_log_of(&parameters) {
            Some(log) => log,
            None => {
                return None;
            },
        };
        let large_dimension = match parameters.glwe_dimension.0.checked_mul(
            parameters.polynomial_size.0,
        ) {
            Some(dimension) => dimension,
            None => {
                return None;
            },
        };
        if large_dimension == usize::MAX {
            return None;
        }
        let large_lwe_secret_key = LweSecretKey::generate_new_binary(
            LweDimension(large_dimension),
            generator,
        );
        let small_lwe_secret_key = LweSecretKey::generate_new_binary(
            parameters.lwe_dimension,
            generator,
        );
        Some(
            ShortintClientKey {
                large_lwe_secret_key,
                small_lwe_secret_key,
                parameters,
                encoding_log,
            },
        )
    }

    /// The parameters of the key.
    pub fn parameters(&self) -> (parameters: ShortintParameters)
        ensures
            parameters == self.spec_parameters(),
            is_encoding_log(parameters, self.spec_encoding_log()),
            self.spec_encryption_key().len() < usize::MAX,
    {
        proof {
            use_type_invariant(self);
        }
        self.parameters
    }

    /// The plaintext that encodes `message` reduced modulo the message
    /// modulus.
    fn encode_message(&self, message: u64) -> (encoded: Plaintext<u64>)
        ensures
            encoded.0 == encode(
                (message as nat) % (self.spec_parameters().message_modulus.0 as nat),
                self.spec_encoding_log(),
            ),
    {
        proof {
            use_type_invariant(self);
        }
        let ghost log = self.encoding_log as nat;
        let ghost step = pow2((63 - log) as nat) as int;
        let modulus = self.parameters.message_modulus.0 as u64;
        let reduced = message % modulus;
        proof {
            // The message is below the message modulus, which is at most what
            // message and carry take together: its encoding is below the bit
            // of padding.
            lemma2_to64_rest();
            lemma_pow2_pos((63 - log) as nat);
            lemma_pow2_adds((63 - log) as nat, log);
            assert(self.parameters.carry_modulus.0 >= 1) by {
                lemma_pow2_pos(log);
                if self.parameters.carry_modulus.0 == 0 {
                    lemma_mul_basics(self.parameters.message_modulus.0 as int);
                }
            }
            lemma_mul_increases(
                self.parameters.carry_modulus.0 as int,
                self.parameters.message_modulus.0 as int,
            );
            lemma_mul_is_commutative(
                self.parameters.carry_modulus.0 as int,
                self.parameters.message_modulus.0 as int,
            );
            assert(reduced * step <= (pow2(log) - 1) * step) by (nonlinear_arith)
                requires
                    reduced <= pow2(log) - 1,
                    step > 0,
            ;
            assert((pow2(log) - 1) * step == pow2(63) - step) by (nonlinear_arith)
                requires
                    pow2(63) == step * pow2(log),
            ;
            lemma_small_mod((reduced * step) as nat, pow2(64));
        }
        Plaintext(reduced.shl(63 - self.encoding_log))
    }

    /// Encrypts `message`, reduced modulo the message modulus, with
    /// randomness drawn from `generator` and a noise asked for with the
    /// standard deviation of the GLWE noise of the parameters.
    pub fn encrypt<G: RandomGenerator<u64>>(
        &self,
        message: u64,
        generator: &mut EncryptionRandomGenerator<G>,
    ) -> (ciphertext: LweCiphertext<u64>)
        ensures
            final(generator).mask_draws() == old(generator).mask_draws() + ciphertext@.mask,
            final(generator).noise_draws().len() == old(generator).noise_draws().len() + 1,
            final(generator).noise_draws().drop_last() == old(generator).noise_draws(),
            final(generator).noise_requests() == old(generator).noise_requests().push(
                self.spec_parameters().glwe_modular_std_dev,
            ),
            ciphertext@.mask.len() == self.spec_encryption_key().len(),
            ciphertext@ == encryption_of(
                self.spec_encryption_key(),
                encode(
                    (message as nat) % (self.spec_parameters().message_modulus.0 as nat),
                    self.spec_encoding_log(),
                ),
                ciphertext@.mask,
                final(generator).noise_draws().last(),
                64,
            ),
    {
        proof {
            use_type_invariant(self);
        }
        let encoded = self.encode_message(message);
        let mut ciphertext = LweCiphertext::new(
            0u64,
            self.large_lwe_secret_key.lwe_dimension().to_lwe_size(),
        );
        encrypt_lwe_ciphertext(
            &self.large_lwe_secret_key,
            &mut ciphertext,
            encoded,
            self.parameters.glwe_modular_std_dev,
            generator,
        );
        ciphertext
    }

    /// Encrypts `message`, reduced modulo the message modulus, into a
    /// compressed ciphertext: the mask comes from the generator that starts
    /// from a fresh seed of `seeder`, which the ciphertext keeps, and the
    /// noise from a generator that starts from another.
    pub fn encrypt_compressed<G: SeedableGenerator + RandomGenerator<u64>, S: Seeder>(
        &self,
        message: u64,
        seeder: &mut S,
    ) -> (ciphertext: SeededLweCiphertext<u64>)
        ensures
            ciphertext.spec_lwe_dimension() == self.spec_encryption_key().len(),
    {
        proof {
            use_type_invariant(self);
        }
        let encoded = self.encode_message(message);
        let compression_seed = seeder.seed();
        let mut ciphertext = SeededLweCiphertext::new(
            0u64,
            self.large_lwe_secret_key.lwe_dimension().to_lwe_size(),
            compression_seed,
        );
        // What was drawn is not needed once the body is set.
        let _ = encrypt_seeded_lwe_ciphertext::<u64, G, S>(
            &self.large_lwe_secret_key,
            &mut ciphertext,
            encoded,
            self.parameters.glwe_modular_std_dev,
            seeder,
        );
        ciphertext
    }

    /// Decrypts `ciphertext`: its phase under the key of encryptions,
    /// rounded to the closest encoding and reduced modulo the message
    /// modulus.
    pub fn decrypt(&self, ciphertext: &LweCiphertext<u64>) -> (message: u64)
        requires
            ciphertext@.mask.len() == self.spec_encryption_key().len(),
        ensures
            message == decode(
                lwe_phase(ciphertext@, self.spec_encryption_key(), 64),
                self.spec_encoding_log(),
                self.spec_parameters().message_modulus.0 as nat,
            ),
    {
        proof {
            use_type_invariant(self);
        }
        let phase = decrypt_lwe_ciphertext(&self.large_lwe_secret_key, ciphertext).0;
        // The message, the carry and the bit of padding are the high bits
        // that a decomposition of one level keeps.
        let kept_bits = self.encoding_log + 1;
        proof {
            lemma_mul_basics(kept_bits as int);
        }
        let decomposer = SignedDecomposer::<u64>::new(
            DecompositionBaseLog(kept_bits),
            DecompositionLevelCount(1),
        );
        let rounded = decomposer.closest_representable(phase);
        proof {
            lemma2_to64_rest();
            lemma_u64_shr_is_div(rounded, (63 - self.encoding_log) as u64);
        }
        let modulus = self.parameters.message_modulus.0 as u64;
        (rounded >> (63 - self.encoding_log)) % modulus
    }
}

} // verus!
