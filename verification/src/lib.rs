//! Gadget decomposition and generation of key-switching keys for homomorphic
//! encryption over LWE, with what the keys of typed encrypted values need of
//! them.
//!
//! Scalars are machine words with wrapping arithmetic ([`numeric`]). A
//! scalar is decomposed into balanced digits in a base that is a power of two
//! ([`decomposition`]). Secret keys, ciphertexts and key-switching keys are
//! buffers of scalars ([`entities`]); encryption draws its randomness from a
//! generator that records what it hands out ([`random`],
//! [`lwe_encryption`]), so that a key-switching key is stated exactly over
//! the two secret keys and the randomness used
//! ([`lwe_keyswitch_key_generation`]).
//!
//! On top of these stand the configuration of the typed encrypted values
//! ([`config`], [`parameter_sets`]), the keys of their owner and the short
//! integers ([`typed_api`], [`shortint`]), and the registers of the Trivium
//! stream cipher on encrypted bits ([`trivium`]).
pub mod ciphertext_modulus;
pub mod config;
pub mod decomposition;
pub mod entities;
pub mod lwe_encryption;
pub mod lwe_keyswitch_key_generation;
pub mod numeric;
pub mod parameter_sets;
pub mod parameters;
pub mod random;
pub mod shortint;
pub mod trivium;
pub mod typed_api;
