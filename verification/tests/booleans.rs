use std::cell::Cell;
use std::rc::Rc;
use tfhe::config::ConfigBuilder;
use tfhe::lwe_encryption::decrypt_lwe_ciphertext;
use tfhe::parameter_sets::{FheBoolParameters, ShortintParameters};
use tfhe::parameters::{
    CarryModulus, DecompositionBaseLog, DecompositionLevelCount, GlweDimension, LweDimension,
    MessageModulus, PolynomialSize, StandardDev,
};
use tfhe::random::{EncryptionRandomGenerator, RandomGenerator};
use tfhe::shortint::ShortintClientKey;
use tfhe::typed_api::booleans::{
    BooleanParameterSet, GenericBoolClientKey, GenericBoolPublicKey, LOG2_Q_32,
};
use tfhe::typed_api::keys::ClientKey;

/// Hands out one, two, three and so on.
struct Counting {
    last: u64,
    seen_std_dev: Rc<Cell<u64>>,
}

impl RandomGenerator<u32> for Counting {
    fn next_uniform_scalar(&mut self) -> u32 {
        self.last += 1;
        self.last as u32
    }

    fn next_gaussian_scalar(&mut self, std_dev: StandardDev) -> u32 {
        self.seen_std_dev.set(std_dev.0);
        self.last += 1;
        self.last as u32
    }
}

impl RandomGenerator<u64> for Counting {
    fn next_uniform_scalar(&mut self) -> u64 {
        self.last += 1;
        self.last
    }

    fn next_gaussian_scalar(&mut self, std_dev: StandardDev) -> u64 {
        self.seen_std_dev.set(std_dev.0);
        self.last += 1;
        self.last
    }
}

fn counting() -> Counting {
    Counting { last: 0, seen_std_dev: Rc::new(Cell::new(0)) }
}

fn small_parameters() -> FheBoolParameters {
    FheBoolParameters {
        lwe_dimension: LweDimension(5),
        glwe_dimension: GlweDimension(2),
        polynomial_size: PolynomialSize(4),
        lwe_modular_std_dev: StandardDev(77),
        glwe_modular_std_dev: StandardDev(78),
        pbs_base_log: DecompositionBaseLog(6),
        pbs_level: DecompositionLevelCount(3),
        ks_base_log: DecompositionBaseLog(3),
        ks_level: DecompositionLevelCount(4),
    }
}

#[test]
fn the_public_key_is_a_list_of_encryptions_of_zero() {
    assert_eq!(LOG2_Q_32, 32);
    assert_eq!(small_parameters().into_parameters(), small_parameters());
    let mut secret = counting();
    let client_key = GenericBoolClientKey::new(small_parameters(), &mut secret).unwrap();
    let noise = counting();
    let seen_std_dev = noise.seen_std_dev.clone();
    let mut generator = EncryptionRandomGenerator::from_generators(counting(), noise);
    let public_key = GenericBoolPublicKey::new(&client_key, &mut generator);
    // The noise is asked for with the standard deviation of the LWE noise.
    assert_eq!(seen_std_dev.get(), 77);
    let list = public_key.zero_encryption_list();
    assert_eq!(list.lwe_ciphertext_count().0, 6 * 32 + 128);
    assert_eq!(list.lwe_size().0, 6);
    // The secret key holds the low bits of one to five: 1, 0, 1, 0, 1.
    for index in 0..list.lwe_ciphertext_count().0 {
        let ciphertext = list.get(index);
        let first = (5 * index + 1) as u32;
        assert_eq!(ciphertext.mask, vec![first, first + 1, first + 2, first + 3, first + 4]);
        assert_eq!(ciphertext.body, first + (first + 2) + (first + 4) + index as u32 + 1);
    }
}

#[test]
fn a_public_key_is_put_together_from_its_parts() {
    let list = tfhe::entities::lwe_ciphertext_list::LweCiphertextList::from_container(
        vec![1u32, 2, 3, 4, 5, 6],
        tfhe::parameters::LweSize(3),
    );
    let public_key = GenericBoolPublicKey::from_raw_parts(list, small_parameters());
    assert_eq!(public_key.parameters(), small_parameters());
    assert_eq!(public_key.zero_encryption_list().as_ref(), &vec![1, 2, 3, 4, 5, 6]);
}

#[test]
fn the_client_key_has_keys_for_what_is_enabled() {
    let mut secret = counting();
    let keys = ClientKey::generate(ConfigBuilder::all_enabled().build(), &mut secret);
    assert!(keys.bool_key.is_some());
    assert!(keys.uint2_key.is_some());
    assert!(keys.uint3_key.is_some());
    assert!(keys.uint4_key.is_some());
    assert_eq!(keys.uint8_key.as_ref().unwrap().num_block, 4);
    assert_eq!(keys.uint12_key.as_ref().unwrap().num_block, 6);
    assert_eq!(keys.uint16_key.as_ref().unwrap().num_block, 8);
    assert_eq!(keys.uint256_key.as_ref().unwrap().num_block, 128);
    assert_eq!(
        keys.uint3_key.as_ref().unwrap().parameters(),
        ShortintParameters::message_3_carry_3()
    );
    assert_eq!(
        keys.uint16_key.as_ref().unwrap().key.parameters(),
        ShortintParameters::message_2_carry_2()
    );
    let keys = ClientKey::generate(
        ConfigBuilder::all_disabled().enable_default_uint4().enable_default_uint12().build(),
        &mut secret,
    );
    assert!(keys.bool_key.is_none());
    assert!(keys.uint2_key.is_none());
    assert!(keys.uint3_key.is_none());
    assert!(keys.uint4_key.is_some());
    assert!(keys.uint8_key.is_none());
    assert!(keys.uint12_key.is_some());
    assert!(keys.uint16_key.is_none());
    assert!(keys.uint256_key.is_none());
}

fn shortint_parameters(message_modulus: usize, carry_modulus: usize) -> ShortintParameters {
    ShortintParameters {
        lwe_dimension: LweDimension(3),
        glwe_dimension: GlweDimension(2),
        polynomial_size: PolynomialSize(4),
        message_modulus: MessageModulus(message_modulus),
        carry_modulus: CarryModulus(carry_modulus),
        ..ShortintParameters::message_2_carry_2()
    }
}

#[test]
fn the_encoding_needs_a_power_of_two_of_values() {
    let log = |m, c| ShortintClientKey::encoding_log_of(&shortint_parameters(m, c));
    assert_eq!(log(4, 4), Some(4));
    assert_eq!(log(8, 8), Some(6));
    assert_eq!(log(16, 16), Some(8));
    assert_eq!(log(1, 1), Some(0));
    assert_eq!(log(2, 1), Some(1));
    assert_eq!(log(1 << 31, 1 << 31), Some(62));
    assert_eq!(log(1 << 32, 1 << 31), None);
    assert_eq!(log(usize::MAX, usize::MAX), None);
    assert_eq!(log(3, 4), None);
    assert_eq!(log(4, 3), None);
    assert_eq!(log(0, 4), None);
    assert_eq!(log(4, 0), None);
    let mut secret = counting();
    assert!(ShortintClientKey::new(shortint_parameters(3, 4), &mut secret).is_none());
    assert!(ShortintClientKey::new(shortint_parameters(4, 4), &mut secret).is_some());
    let huge = ShortintParameters {
        glwe_dimension: GlweDimension(usize::MAX),
        polynomial_size: PolynomialSize(2),
        ..shortint_parameters(4, 4)
    };
    assert!(ShortintClientKey::new(huge, &mut secret).is_none());
}

#[test]
fn a_short_integer_decrypts_to_its_message_under_small_noise() {
    let mut secret = counting();
    let key = ShortintClientKey::new(shortint_parameters(4, 4), &mut secret).unwrap();
    // Noise from one upwards, far below half of what separates two encodings.
    let mut generator = EncryptionRandomGenerator::from_generators(counting(), counting());
    for message in 0..12u64 {
        let ciphertext = key.encrypt(message, &mut generator);
        assert_eq!(ciphertext.mask.len(), 8);
        assert_eq!(key.decrypt(&ciphertext), message % 4);
    }
    // The plaintext sits just below the bit of padding: three is 3 * 2^59.
    let noise = counting();
    let seen_std_dev = noise.seen_std_dev.clone();
    let mut generator = EncryptionRandomGenerator::from_generators(counting(), noise);
    let ciphertext = key.encrypt(3, &mut generator);
    // The noise is asked for with the standard deviation of the GLWE noise.
    assert_eq!(seen_std_dev.get(), key.parameters().glwe_modular_std_dev.0);
    assert_eq!(f64::from_bits(seen_std_dev.get()), 0.00000000000000029403601535432533);
    // The key of encryptions holds the low bits of one to eight.
    let dot: u64 = 1 + 3 + 5 + 7;
    assert_eq!(ciphertext.body, dot + 1 + 3 * (1 << 59));
    let probe = tfhe::entities::lwe_secret_key::LweSecretKey::from_container(vec![
        1u64, 0, 1, 0, 1, 0, 1, 0,
    ]);
    assert_eq!(decrypt_lwe_ciphertext(&probe, &ciphertext).0, 3 * (1 << 59) + 1);
}

#[test]
fn a_noise_of_half_the_gap_or_more_changes_the_message() {
    let mut secret = counting();
    let key = ShortintClientKey::new(shortint_parameters(4, 4), &mut secret).unwrap();
    let mut body_for = |message: u64, noise: u64| {
        let mut ciphertext = tfhe::entities::lwe_ciphertext::LweCiphertext::new(
            0u64,
            tfhe::parameters::LweSize(9),
        );
        ciphertext.body = (message << 59).wrapping_add(noise);
        key.decrypt(&ciphertext)
    };
    assert_eq!(body_for(2, (1 << 58) - 1), 2);
    assert_eq!(body_for(2, 1 << 58), 3);
    assert_eq!(body_for(2, (1u64 << 58).wrapping_neg()), 2);
    assert_eq!(body_for(2, ((1u64 << 58) + 1).wrapping_neg()), 1);
    assert_eq!(body_for(0, 1u64.wrapping_neg()), 0);
    // Message and carry together: the carry is dropped.
    assert_eq!(body_for(7, 0), 3);
    assert_eq!(body_for(15, 1 << 58), 0);
}
