//! The keys of the owner of the encrypted values.
use crate::config::Config;
use crate::parameter_sets::{FheBoolParameters, RadixParameters, ShortintParameters};
use crate::random::RandomGenerator;
use crate::shortint::{is_encoding_log, ShortintClientKey};
use crate::typed_api::booleans::GenericBoolClientKey;
use vstd::prelude::*;

verus! {

/// The key of the owner of encrypted integers in radix form: the key of the
/// short integers that are their blocks, and how many blocks they have.
pub struct RadixClientKey {
    pub key: ShortintClientKey,
    pub num_block: usize,
}

/// The keys of the owner of the encrypted values: for each data type with a
/// key, the key of that type.
pub struct ClientKey {
    pub bool_key: Option<GenericBoolClientKey<FheBoolParameters>>,
    pub uint2_key: Option<ShortintClientKey>,
    pub uint3_key: Option<ShortintClientKey>,
    pub uint4_key: Option<ShortintClientKey>,
    pub uint8_key: Option<RadixClientKey>,
    pub uint12_key: Option<RadixClientKey>,
    pub uint16_key: Option<RadixClientKey>,
    pub uint256_key: Option<RadixClientKey>,
}

/// Whether a short integer key can be made for a type of `bits` bits of
/// message with `parameters`: the message modulus is `2^bits`, messages and
/// carries take a power of two of values together that leaves room for the
/// bit of padding and one bit below, and the key of encryptions leaves room
/// for the body of a ciphertext.
pub open spec fn key_can_be_made(parameters: ShortintParameters, message_modulus: nat) -> bool {
    &&& parameters.message_modulus.0 == message_modulus
    &&& exists|log: nat| is_encoding_log(parameters, log)
    &&& parameters.glwe_dimension.0 * parameters.polynomial_size.0 < usize::MAX
}

/// What holds of the key of a type of short integers made from the
/// parameters that a configuration has for it.
pub open spec fn is_key_for(
    key: Option<ShortintClientKey>,
    parameters: Option<ShortintParameters>,
    message_modulus: nat,
) -> bool {
    &&& key is Some <==> parameters is Some && key_can_be_made(
        parameters.unwrap(),
        message_modulus,
    )
    &&& key is Some ==> key.unwrap().spec_parameters() == parameters.unwrap()
        && key.unwrap().spec_encryption_key().len() == parameters.unwrap().glwe_dimension.0
        * parameters.unwrap().polynomial_size.0
}

/// What holds of the key of a type of integers in radix form made from the
/// parameters that a configuration has for it.
pub open spec fn is_radix_key_for(
    key: Option<RadixClientKey>,
    parameters: Option<RadixParameters>,
) -> bool {
    &&& key is Some <==> parameters is Some && key_can_be_made(
        parameters.unwrap().block_parameters,
        4,
    )
    &&& key is Some ==> key.unwrap().key.spec_parameters() == parameters.unwrap().block_parameters
        && key.unwrap().num_block == parameters.unwrap().num_block
}

/// The key for a type of short integers of the given message modulus, if
/// the type is enabled and a key can be made for its parameters.
fn shortint_key<G: RandomGenerator<u64>>(
    parameters: Option<ShortintParameters>,
    message_modulus: usize,
    generator: &mut G,
) -> (key: Option<ShortintClientKey>)
    ensures
        is_key_for(key, parameters, message_modulus as nat),
{
    match parameters {
        None => None,
        Some(parameters) => {
            if parameters.message_modulus.0 != message_modulus {
                None
            } else {
                ShortintClientKey::new(parameters, generator)
            }
        },
    }
}

/// The key for a type of integers in radix form, if the type is enabled and
/// a key can be made for its blocks.
fn radix_key<G: RandomGenerator<u64>>(
    parameters: Option<RadixParameters>,
    generator: &mut G,
) -> (key: Option<RadixClientKey>)
    ensures
        is_radix_key_for(key, parameters),
{
    match parameters {
        None => None,
        Some(parameters) => {
            match shortint_key(Some(parameters.block_parameters), 4, generator) {
                None => None,
                Some(key) => Some(RadixClientKey { key, num_block: parameters.num_block }),
            }
        },
    }
}

impl ClientKey {
    /// New keys for each data type that `config` enables and for which a
    /// key can be made, with secret keys drawn from `generator`.
    pub fn generate<G: RandomGenerator<u64> + RandomGenerator<u32>>(
        config: Config,
        generator: &mut G,
    ) -> (keys: Self)
        ensures
            keys.bool_key is Some <==> config.boolean_config.bool_params is Some
                && config.boolean_config.bool_params.unwrap().glwe_dimension.0
                * config.boolean_config.bool_params.unwrap().polynomial_size.0 <= usize::MAX,
            keys.bool_key is Some ==> keys.bool_key.unwrap().spec_parameters()
                == config.boolean_config.bool_params.unwrap(),
            is_key_for(
                keys.uint2_key,
                match config.shortint_config.uint2_params {
                    Some(parameters) => Some(parameters.0),
                    None => None,
                },
                4,
            ),
            is_key_for(
                keys.uint3_key,
                match config.shortint_config.uint3_params {
                    Some(parameters) => Some(parameters.0),
                    None => None,
                },
                8,
            ),
            is_key_for(
                keys.uint4_key,
                match config.shortint_config.uint4_params {
                    Some(parameters) => Some(parameters.0),
                    None => None,
                },
                16,
            ),
            is_radix_key_for(
                keys.uint8_key,
                match config.integer_config.uint8_params {
                    Some(parameters) => Some(parameters.0),
                    None => None,
                },
            ),
            is_radix_key_for(
                keys.uint12_key,
                match config.integer_config.uint12_params {
                    Some(parameters) => Some(parameters.0),
                    None => None,
                },
            ),
            is_radix_key_for(
                keys.uint16_key,
                match config.integer_config.uint16_params {
                    Some(parameters) => Some(parameters.0),
                    None => None,
                },
            ),
            is_radix_key_for(
                keys.uint256_key,
                match config.integer_config.uint256_params {
                    Some(parameters) => Some(parameters.0),
                    None => None,
                },
            ),
    {
        let bool_key = match config.boolean_config.bool_params {
            None => None,
            Some(parameters) => GenericBoolClientKey::new(parameters, generator),
        };
        let uint2_key = shortint_key(
            match config.shortint_config.uint2_params {
                Some(parameters) => Some(parameters.0),
                None => None,
            },
            4,
            generator,
        );
        let uint3_key = shortint_key(
            match config.shortint_config.uint3_params {
                Some(parameters) => Some(parameters.0),
                None => None,
            },
            8,
            generator,
        );
        let uint4_key = shortint_key(
            match config.shortint_config.uint4_params {
                Some(parameters) => Some(parameters.0),
                None => None,
            },
            16,
            generator,
        );
        let uint8_key = radix_key(
            match config.integer_config.uint8_params {
                Some(parameters) => Some(parameters.0),
                None => None,
            },
            generator,
        );
        let uint12_key = radix_key(
            match config.integer_config.uint12_params {
                Some(parameters) => Some(parameters.0),
                None => None,
            },
            generator,
        );
        let uint16_key = radix_key(
            match config.integer_config.uint16_params {
                Some(parameters) => Some(parameters.0),
                None => None,
            },
            generator,
        );
        let uint256_key = radix_key(
            match config.integer_config.uint256_params {
                Some(parameters) => Some(parameters.0),
                None => None,
            },
            generator,
        );
        ClientKey {
            bool_key,
            uint2_key,
            uint3_key,
            uint4_key,
            uint8_key,
            uint12_key,
            uint16_key,
            uint256_key,
        }
    }
}

} // verus!
