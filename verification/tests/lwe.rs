use tfhe::entities::lwe_ciphertext::LweCiphertext;
use tfhe::entities::lwe_ciphertext_list::LweCiphertextList;
use tfhe::entities::lwe_keyswitch_key::LweKeyswitchKey;
use tfhe::entities::lwe_secret_key::LweSecretKey;
use tfhe::entities::plaintext_list::{Plaintext, PlaintextList};
use tfhe::entities::seeded_lwe_ciphertext::SeededLweCiphertext;
use tfhe::lwe_encryption::{
    decrypt_lwe_ciphertext, encrypt_lwe_ciphertext, encrypt_lwe_ciphertext_list,
    encrypt_seeded_lwe_ciphertext, encrypt_seeded_lwe_ciphertext_with_existing_generator,
    slice_wrapping_dot_product,
};
use tfhe::parameters::{
    DecompositionBaseLog, DecompositionLevel, DecompositionLevelCount, LweCiphertextCount,
    LweDimension, LweSize, PlaintextCount, StandardDev,
};
use tfhe::random::{
    EncryptionRandomGenerator, RandomGenerator, Seed, SeedableGenerator, Seeder,
};

/// Hands out the seed plus one, plus two, and so on.
struct FromSeed {
    last: u64,
}

impl SeedableGenerator for FromSeed {
    fn new(seed: Seed) -> Self {
        FromSeed { last: seed.0 as u64 }
    }
}

impl RandomGenerator<u64> for FromSeed {
    fn next_uniform_scalar(&mut self) -> u64 {
        self.last = self.last.wrapping_add(1);
        self.last
    }

    fn next_gaussian_scalar(&mut self, _std_dev: StandardDev) -> u64 {
        self.last = self.last.wrapping_add(1);
        self.last
    }
}

struct FixedSeeder {
    seeds: Vec<u128>,
}

impl Seeder for FixedSeeder {
    fn seed(&mut self) -> Seed {
        Seed(self.seeds.remove(0))
    }
}

fn generator(mask_seed: u128, noise_seed: u128) -> EncryptionRandomGenerator<FromSeed> {
    EncryptionRandomGenerator::from_generators(
        FromSeed::new(Seed(mask_seed)),
        FromSeed::new(Seed(noise_seed)),
    )
}

#[test]
fn the_dot_product_wraps() {
    assert_eq!(slice_wrapping_dot_product(&vec![1u32, 2, 3], &vec![4u32, 5, 6]), 32);
    assert_eq!(slice_wrapping_dot_product(&Vec::<u32>::new(), &Vec::<u32>::new()), 0);
    assert_eq!(
        slice_wrapping_dot_product(&vec![u32::MAX, 0x8000_0000], &vec![2u32, 2]),
        u32::MAX - 1
    );
    assert_eq!(slice_wrapping_dot_product(&vec![u64::MAX, 3], &vec![u64::MAX, 1]), 4);
}

#[test]
fn an_encryption_adds_the_dot_product_the_noise_and_the_plaintext() {
    let key = LweSecretKey::from_container(vec![1u64, 0, 1, 1]);
    assert_eq!(key.lwe_dimension(), LweDimension(4));
    assert_eq!(key.as_ref(), &vec![1u64, 0, 1, 1]);
    let mut output = LweCiphertext::new(0u64, LweSize(5));
    assert_eq!(output.lwe_size(), LweSize(5));
    let mut generator = generator(100, 7);
    encrypt_lwe_ciphertext(&key, &mut output, Plaintext(1 << 60), StandardDev(0), &mut generator);
    assert_eq!(output.mask, vec![101, 102, 103, 104]);
    assert_eq!(output.body, 101 + 103 + 104 + 8 + (1 << 60));
    assert_eq!(decrypt_lwe_ciphertext(&key, &output).0, (1 << 60) + 8);
    // The next encryption goes on where this one stopped.
    encrypt_lwe_ciphertext(&key, &mut output, Plaintext(5), StandardDev(0), &mut generator);
    assert_eq!(output.mask, vec![105, 106, 107, 108]);
    assert_eq!(decrypt_lwe_ciphertext(&key, &output).0, 5 + 9);
}

#[test]
fn an_encryption_wraps_at_the_top_of_the_range() {
    let key = LweSecretKey::from_container(vec![1u64, 1]);
    let mut output = LweCiphertext::new(0u64, LweSize(3));
    let mut generator = generator((u64::MAX - 1) as u128, (u64::MAX - 3) as u128);
    encrypt_lwe_ciphertext(&key, &mut output, Plaintext(10), StandardDev(0), &mut generator);
    assert_eq!(output.mask, vec![u64::MAX, 0]);
    assert_eq!(output.body, 6);
    assert_eq!(decrypt_lwe_ciphertext(&key, &output).0, 7);
}

#[test]
fn a_list_is_encrypted_in_order() {
    let key = LweSecretKey::from_container(vec![1u64, 1, 0]);
    let mut plaintexts = PlaintextList::new(0u64, PlaintextCount(3));
    assert_eq!(plaintexts.plaintext_count(), PlaintextCount(3));
    plaintexts.set(0, Plaintext(1000));
    plaintexts.set(2, Plaintext(3000));
    assert_eq!(plaintexts.get(0).0, 1000);
    assert_eq!(plaintexts.get(1).0, 0);
    let mut list = LweCiphertextList::new(9u64, LweSize(4), LweCiphertextCount(3));
    assert_eq!(list.as_ref(), &vec![9u64; 12]);
    assert_eq!(list.lwe_size(), LweSize(4));
    assert_eq!(list.lwe_ciphertext_count(), LweCiphertextCount(3));
    let mut generator = generator(0, 50);
    encrypt_lwe_ciphertext_list(&key, &mut list, &plaintexts, StandardDev(0), &mut generator);
    assert_eq!(
        list.as_ref(),
        &vec![1, 2, 3, 1 + 2 + 51 + 1000, 4, 5, 6, 4 + 5 + 52, 7, 8, 9, 7 + 8 + 53 + 3000]
    );
    let second = list.get(1);
    assert_eq!(second.mask, vec![4, 5, 6]);
    assert_eq!(second.body, 61);
    assert_eq!(decrypt_lwe_ciphertext(&key, &list.get(2)).0, 3053);
}

#[test]
fn a_list_keeps_the_other_ciphertexts_when_one_is_set() {
    let mut list = LweCiphertextList::new(0u32, LweSize(3), LweCiphertextCount(3));
    list.set(1, &LweCiphertext { mask: vec![7, 8], body: 9 });
    assert_eq!(list.as_ref(), &vec![0, 0, 0, 7, 8, 9, 0, 0, 0]);
    list.set(0, &LweCiphertext { mask: vec![1, 2], body: 3 });
    list.set(2, &LweCiphertext { mask: vec![4, 5], body: 6 });
    assert_eq!(list.as_ref(), &vec![1, 2, 3, 7, 8, 9, 4, 5, 6]);
    assert_eq!(list.get(2).body, 6);
    let bodies = LweCiphertextList::new(5u32, LweSize(1), LweCiphertextCount(2));
    assert_eq!(bodies.as_ref(), &vec![5, 5]);
    assert!(bodies.get(1).mask.is_empty());
}

#[test]
fn a_binary_key_holds_the_low_bits_of_the_draws() {
    let mut source = FromSeed::new(Seed(10));
    let key: LweSecretKey<u64> = LweSecretKey::generate_new_binary(LweDimension(6), &mut source);
    assert_eq!(key.as_ref(), &vec![1, 0, 1, 0, 1, 0]);
    let empty: LweSecretKey<u64> = LweSecretKey::generate_new_binary(LweDimension(0), &mut source);
    assert!(empty.as_ref().is_empty());
}

#[test]
fn a_seeded_ciphertext_gets_its_mask_back_from_its_seed() {
    let key = LweSecretKey::from_container(vec![1u64, 0, 1]);
    let mut seeded = SeededLweCiphertext::new(0u64, LweSize(4), Seed(500));
    assert_eq!(seeded.lwe_size(), LweSize(4));
    assert_eq!(seeded.compression_seed(), Seed(500));
    let mut seeder = FixedSeeder { seeds: vec![40] };
    let _ = encrypt_seeded_lwe_ciphertext::<u64, FromSeed, FixedSeeder>(
        &key,
        &mut seeded,
        Plaintext(1 << 50),
        StandardDev(0),
        &mut seeder,
    );
    assert!(seeder.seeds.is_empty());
    assert_eq!(seeded.get_body(), 501 + 503 + 41 + (1 << 50));
    assert_eq!(seeded.compression_seed(), Seed(500));
    let full = seeded.decompress_into_lwe_ciphertext::<FromSeed>();
    assert_eq!(full.mask, vec![501, 502, 503]);
    assert_eq!(decrypt_lwe_ciphertext(&key, &full).0, (1 << 50) + 41);
}

#[test]
fn a_seeded_encryption_draws_from_the_generator_it_is_given() {
    let key = LweSecretKey::from_container(vec![1u64, 1]);
    let mut seeded = SeededLweCiphertext::new(0u64, LweSize(3), Seed(9));
    let mut generator = generator(9, 20);
    encrypt_seeded_lwe_ciphertext_with_existing_generator(
        &key,
        &mut seeded,
        Plaintext(100),
        StandardDev(0),
        &mut generator,
    );
    assert_eq!(seeded.get_body(), 10 + 11 + 21 + 100);
    seeded.set_body(1);
    assert_eq!(seeded.get_body(), 1);
    assert_eq!(seeded.lwe_size(), LweSize(3));
}

#[test]
fn a_list_is_made_of_the_scalars_of_a_container() {
    let list = LweCiphertextList::from_container(vec![1u32, 2, 3, 4, 5, 6], LweSize(3));
    assert_eq!(list.lwe_ciphertext_count(), LweCiphertextCount(2));
    assert_eq!(list.lwe_size(), LweSize(3));
    assert_eq!(list.get(0).mask, vec![1, 2]);
    assert_eq!(list.get(1).body, 6);
    assert_eq!(list.into_container(), vec![1, 2, 3, 4, 5, 6]);
    let empty = LweCiphertextList::from_container(Vec::<u64>::new(), LweSize(7));
    assert_eq!(empty.lwe_ciphertext_count(), LweCiphertextCount(0));
}

#[test]
fn a_key_switching_key_is_made_of_a_container_of_its_shape() {
    let scalars: Vec<u64> = (1..=24).collect();
    let key = LweKeyswitchKey::from_container(
        scalars.clone(),
        DecompositionBaseLog(4),
        DecompositionLevelCount(3),
        LweDimension(2),
        LweDimension(3),
    )
    .unwrap();
    assert_eq!(key.as_ref(), &scalars);
    assert_eq!(key.input_key_lwe_dimension(), LweDimension(2));
    assert_eq!(key.output_key_lwe_dimension(), LweDimension(3));
    let ciphertext = key.get_ciphertext(1, DecompositionLevel(2));
    assert_eq!(ciphertext.mask, vec![17, 18, 19]);
    assert_eq!(ciphertext.body, 20);
    let first = key.get_ciphertext(0, DecompositionLevel(1));
    assert_eq!((first.mask, first.body), (vec![1, 2, 3], 4));
    // Another shape does not fit the container.
    for (input, levels, output) in [(3usize, 3usize, 3usize), (2, 3, 2), (2, 2, 3), (0, 3, 3)] {
        assert!(LweKeyswitchKey::from_container(
            scalars.clone(),
            DecompositionBaseLog(4),
            DecompositionLevelCount(levels),
            LweDimension(input),
            LweDimension(output),
        )
        .is_none());
    }
    assert!(LweKeyswitchKey::from_container(
        scalars.clone(),
        DecompositionBaseLog(1),
        DecompositionLevelCount(usize::MAX),
        LweDimension(usize::MAX),
        LweDimension(3),
    )
    .is_none());
    assert!(LweKeyswitchKey::from_container(
        Vec::<u64>::new(),
        DecompositionBaseLog(4),
        DecompositionLevelCount(0),
        LweDimension(9),
        LweDimension(3),
    )
    .is_some());
}

#[test]
fn a_block_is_set_where_it_belongs() {
    let mut key = LweKeyswitchKey::new(
        0u32,
        DecompositionBaseLog(4),
        DecompositionLevelCount(2),
        LweDimension(3),
        LweDimension(1),
    );
    let block = LweCiphertextList::from_container(vec![1u32, 2, 3, 4], LweSize(2));
    key.set_block(1, &block);
    assert_eq!(key.as_ref(), &vec![0, 0, 0, 0, 1, 2, 3, 4, 0, 0, 0, 0]);
    key.set_block(2, &block);
    key.set_block(0, &LweCiphertextList::from_container(vec![9u32, 8, 7, 6], LweSize(2)));
    assert_eq!(key.as_ref(), &vec![9, 8, 7, 6, 1, 2, 3, 4, 1, 2, 3, 4]);
}
