//! The keys, plaintexts and ciphertexts of the scheme.
pub mod lwe_ciphertext;
pub mod lwe_ciphertext_list;
pub mod lwe_keyswitch_key;
pub mod lwe_secret_key;
pub mod plaintext_list;
pub mod seeded_lwe_ciphertext;
