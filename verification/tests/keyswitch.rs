use std::cell::Cell;
use std::rc::Rc;
use tfhe::entities::lwe_keyswitch_key::LweKeyswitchKey;
use tfhe::entities::lwe_secret_key::LweSecretKey;
use tfhe::lwe_encryption::decrypt_lwe_ciphertext;
use tfhe::lwe_keyswitch_key_generation::{
    allocate_and_generate_new_binary_binary_lwe_keyswitch_key,
    generate_binary_binary_lwe_keyswitch_key,
};
use tfhe::parameters::{
    DecompositionBaseLog, DecompositionLevel, DecompositionLevelCount, LweDimension, StandardDev,
};
use tfhe::random::{EncryptionRandomGenerator, RandomGenerator};

/// Hands out multiples of a step, and counts the draws.
struct Counting {
    last: u64,
    step: u64,
    draws: Rc<Cell<usize>>,
    seen_std_dev: Rc<Cell<u64>>,
}

impl Counting {
    fn new(step: u64) -> (Self, Rc<Cell<usize>>, Rc<Cell<u64>>) {
        let draws = Rc::new(Cell::new(0));
        let seen = Rc::new(Cell::new(0));
        (
            Counting { last: 0, step, draws: draws.clone(), seen_std_dev: seen.clone() },
            draws,
            seen,
        )
    }

    fn advance(&mut self) -> u64 {
        self.draws.set(self.draws.get() + 1);
        self.last = self.last.wrapping_add(self.step);
        self.last
    }
}

impl RandomGenerator<u32> for Counting {
    fn next_uniform_scalar(&mut self) -> u32 {
        self.advance() as u32
    }

    fn next_gaussian_scalar(&mut self, std_dev: StandardDev) -> u32 {
        self.seen_std_dev.set(std_dev.0);
        self.advance() as u32
    }
}

impl RandomGenerator<u64> for Counting {
    fn next_uniform_scalar(&mut self) -> u64 {
        self.advance()
    }

    fn next_gaussian_scalar(&mut self, std_dev: StandardDev) -> u64 {
        self.seen_std_dev.set(std_dev.0);
        self.advance()
    }
}

/// What a caller looks at before it asks for a key to be generated.
fn dimensions_match<T: tfhe::numeric::UnsignedInteger>(
    input: &LweSecretKey<T>,
    output: &LweSecretKey<T>,
    key: &LweKeyswitchKey<T>,
) -> bool {
    key.input_key_lwe_dimension() == input.lwe_dimension()
        && key.output_key_lwe_dimension() == output.lwe_dimension()
}

const MASK_STEP: u64 = 0x0123_4567_89ab_cdef;
const NOISE_STEP: u64 = 3;

fn expected_buffer_u32(input: &[u32], output: &[u32], base_log: usize, levels: usize) -> Vec<u32> {
    let mut mask_value: u64 = 0;
    let mut noise_value: u64 = 0;
    let mut buffer = Vec::new();
    for element in input {
        for level in 1..=levels {
            let mut body: u32 = 0;
            for key_scalar in output {
                mask_value = mask_value.wrapping_add(MASK_STEP);
                buffer.push(mask_value as u32);
                body = body.wrapping_add((mask_value as u32).wrapping_mul(*key_scalar));
            }
            noise_value = noise_value.wrapping_add(NOISE_STEP);
            let summand = element.wrapping_shl((32 - base_log * level) as u32);
            buffer.push(body.wrapping_add(noise_value as u32).wrapping_add(summand));
        }
    }
    buffer
}

#[test]
fn the_key_holds_the_encryptions_of_the_summands() {
    let input = LweSecretKey::from_container(vec![1u32, 0, 1]);
    let output = LweSecretKey::from_container(vec![1u32, 1, 0, 1]);
    let (masks, mask_draws, _) = Counting::new(MASK_STEP);
    let (noises, noise_draws, seen) = Counting::new(NOISE_STEP);
    let mut generator = EncryptionRandomGenerator::from_generators(masks, noises);
    let mut key = LweKeyswitchKey::new(
        0u32,
        DecompositionBaseLog(4),
        DecompositionLevelCount(3),
        LweDimension(3),
        LweDimension(4),
    );
    assert!(dimensions_match(&input, &output, &key));
    generate_binary_binary_lwe_keyswitch_key(
        &input,
        &output,
        &mut key,
        StandardDev(0x3eeb_6973_759c_0bfb),
        &mut generator,
    );
    assert_eq!(mask_draws.get(), 3 * 3 * 4);
    assert_eq!(noise_draws.get(), 3 * 3);
    assert_eq!(seen.get(), 0x3eeb_6973_759c_0bfb);
    assert_eq!(key.as_ref(), &expected_buffer_u32(&[1, 0, 1], &[1, 1, 0, 1], 4, 3));

    // Each ciphertext decrypts to the summand of its scalar and level, with
    // the noise of its encryption on it.
    let mut noise: u32 = 0;
    for (index, element) in [1u32, 0, 1].iter().enumerate() {
        for level in 1..=3usize {
            let ciphertext = key.get_ciphertext(index, DecompositionLevel(level));
            assert_eq!(ciphertext.mask.len(), 4);
            noise += NOISE_STEP as u32;
            let phase = decrypt_lwe_ciphertext(&output, &ciphertext).0;
            assert_eq!(phase, (element << (32 - 4 * level)) + noise);
        }
    }
}

#[test]
fn the_key_has_one_block_for_each_scalar_of_the_input_key() {
    let input = LweSecretKey::from_container(vec![1u64, 1, 0, 1, 0]);
    let output = LweSecretKey::from_container(vec![0u64, 1, 1]);
    let (masks, _, _) = Counting::new(MASK_STEP);
    let (noises, _, _) = Counting::new(NOISE_STEP);
    let mut generator = EncryptionRandomGenerator::from_generators(masks, noises);
    let key = allocate_and_generate_new_binary_binary_lwe_keyswitch_key(
        &input,
        &output,
        DecompositionBaseLog(3),
        DecompositionLevelCount(7),
        StandardDev(0),
        &mut generator,
    );
    assert_eq!(key.input_key_lwe_dimension(), LweDimension(5));
    assert_eq!(key.output_key_lwe_dimension(), LweDimension(3));
    assert_eq!(key.output_lwe_size().0, 4);
    assert_eq!(key.decomposition_base_log(), DecompositionBaseLog(3));
    assert_eq!(key.decomposition_levels_count(), DecompositionLevelCount(7));
    assert_eq!(key.as_ref().len(), 5 * 7 * 4);
    let mut noise: u64 = 0;
    for (index, element) in [1u64, 1, 0, 1, 0].iter().enumerate() {
        for level in 1..=7usize {
            let ciphertext = key.get_ciphertext(index, DecompositionLevel(level));
            assert_eq!(ciphertext.mask.len(), 3);
            noise += NOISE_STEP;
            let phase = decrypt_lwe_ciphertext(&output, &ciphertext).0;
            assert_eq!(phase, (element << (64 - 3 * level)) + noise);
        }
    }
}

#[test]
fn a_wrong_input_dimension_shows_before_anything_is_drawn() {
    let input = LweSecretKey::from_container(vec![1u32, 0]);
    let output = LweSecretKey::from_container(vec![1u32, 1, 0, 1]);
    let (masks, mask_draws, _) = Counting::new(MASK_STEP);
    let (noises, noise_draws, _) = Counting::new(NOISE_STEP);
    let _generator = EncryptionRandomGenerator::from_generators(masks, noises);
    let key = LweKeyswitchKey::new(
        0u32,
        DecompositionBaseLog(4),
        DecompositionLevelCount(3),
        LweDimension(3),
        LweDimension(4),
    );
    assert_ne!(key.input_key_lwe_dimension(), input.lwe_dimension());
    assert_eq!(key.output_key_lwe_dimension(), output.lwe_dimension());
    assert!(!dimensions_match(&input, &output, &key));
    assert_eq!(mask_draws.get(), 0);
    assert_eq!(noise_draws.get(), 0);
    assert!(key.as_ref().iter().all(|scalar| *scalar == 0));
    assert_eq!(key.as_ref().len(), 3 * 3 * 5);
}

#[test]
fn a_wrong_output_dimension_shows_before_anything_is_drawn() {
    let input = LweSecretKey::from_container(vec![1u64, 0, 1]);
    let output = LweSecretKey::from_container(vec![1u64]);
    let key = LweKeyswitchKey::new(
        0u64,
        DecompositionBaseLog(4),
        DecompositionLevelCount(1),
        LweDimension(3),
        LweDimension(3),
    );
    assert_eq!(key.input_key_lwe_dimension(), input.lwe_dimension());
    assert_ne!(key.output_key_lwe_dimension(), output.lwe_dimension());
    assert!(!dimensions_match(&input, &output, &key));
    assert_eq!(key.as_ref(), &vec![0u64; 12]);
    // With the output key that the destination declares, the dimensions match.
    let fitting = LweSecretKey::from_container(vec![1u64, 1, 0]);
    assert!(dimensions_match(&input, &fitting, &key));
}

#[test]
fn generating_twice_from_the_same_randomness_gives_the_same_key() {
    let input = LweSecretKey::from_container(vec![1u64, 0, 1, 1]);
    let output = LweSecretKey::from_container(vec![1u64, 1, 0]);
    let mut keys = Vec::new();
    for _ in 0..2 {
        let (masks, _, _) = Counting::new(MASK_STEP);
        let (noises, _, _) = Counting::new(NOISE_STEP);
        let mut generator = EncryptionRandomGenerator::from_generators(masks, noises);
        keys.push(allocate_and_generate_new_binary_binary_lwe_keyswitch_key(
            &input,
            &output,
            DecompositionBaseLog(8),
            DecompositionLevelCount(8),
            StandardDev(1),
            &mut generator,
        ));
    }
    assert_eq!(keys[0].as_ref(), keys[1].as_ref());
}

#[test]
fn empty_keys_and_decompositions_make_empty_key_switching_keys() {
    let (masks, mask_draws, _) = Counting::new(MASK_STEP);
    let (noises, _, _) = Counting::new(NOISE_STEP);
    let mut generator = EncryptionRandomGenerator::from_generators(masks, noises);
    let nothing = LweSecretKey::from_container(Vec::<u32>::new());
    let output = LweSecretKey::from_container(vec![1u32, 1]);
    let key = allocate_and_generate_new_binary_binary_lwe_keyswitch_key(
        &nothing,
        &output,
        DecompositionBaseLog(4),
        DecompositionLevelCount(3),
        StandardDev(0),
        &mut generator,
    );
    assert!(key.as_ref().is_empty());
    assert_eq!(key.input_key_lwe_dimension(), LweDimension(0));
    let input = LweSecretKey::from_container(vec![1u32, 0]);
    let key = allocate_and_generate_new_binary_binary_lwe_keyswitch_key(
        &input,
        &output,
        DecompositionBaseLog(4),
        DecompositionLevelCount(0),
        StandardDev(0),
        &mut generator,
    );
    assert!(key.as_ref().is_empty());
    assert_eq!(mask_draws.get(), 0);
    // A key without scalars gives ciphertexts that are a body alone.
    let key = allocate_and_generate_new_binary_binary_lwe_keyswitch_key(
        &input,
        &nothing,
        DecompositionBaseLog(4),
        DecompositionLevelCount(2),
        StandardDev(0),
        &mut generator,
    );
    assert_eq!(mask_draws.get(), 0);
    assert_eq!(
        key.as_ref(),
        &vec![(1u32 << 28) + 3, (1 << 24) + 6, 9, 12]
    );
}
