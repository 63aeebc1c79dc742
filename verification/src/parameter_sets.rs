//! The parameter sets of the encrypted data types.
use crate::parameters::{
    CarryModulus,
    DecompositionBaseLog,
    DecompositionLevelCount,
    GlweDimension,
    LweDimension,
    MessageModulus,
    PolynomialSize,
    StandardDev,
};
use vstd::prelude::*;

verus! {

/// The parameters of encrypted booleans.
#[derive(Clone, Copy, Debug, PartialEq, Eq, Structural)]
pub struct FheBoolParameters {
    pub lwe_dimension: LweDimension,
    pub glwe_dimension: GlweDimension,
    pub polynomial_size: PolynomialSize,
    pub lwe_modular_std_dev: StandardDev,
    pub glwe_modular_std_dev: StandardDev,
    pub pbs_base_log: DecompositionBaseLog,
    pub pbs_level: DecompositionLevelCount,
    pub ks_base_log: DecompositionBaseLog,
    pub ks_level: DecompositionLevelCount,
}

/// The parameters of encrypted short integers: a message and a carry kept
/// in one ciphertext.
#[derive(Clone, Copy, Debug, PartialEq, Eq, Structural)]
pub struct ShortintParameters {
    pub lwe_dimension: LweDimension,
    pub glwe_dimension: GlweDimension,
    pub polynomial_size: PolynomialSize,
    pub lwe_modular_std_dev: StandardDev,
    pub glwe_modular_std_dev: StandardDev,
    pub pbs_base_log: DecompositionBaseLog,
    pub pbs_level: DecompositionLevelCount,
    pub ks_level: DecompositionLevelCount,
    pub ks_base_log: DecompositionBaseLog,
    pub pfks_level: DecompositionLevelCount,
    pub pfks_base_log: DecompositionBaseLog,
    pub pfks_modular_std_dev: StandardDev,
    pub cbs_level: DecompositionLevelCount,
    pub cbs_base_log: DecompositionBaseLog,
    pub message_modulus: MessageModulus,
    pub carry_modulus: CarryModulus,
}

/// The parameters of encrypted integers in radix form: a number of blocks,
/// each a short integer.
#[derive(Clone, Copy, Debug, PartialEq, Eq, Structural)]
pub struct RadixParameters {
    pub block_parameters: ShortintParameters,
    pub num_block: usize,
}

/// The default parameters of encrypted booleans.
pub open spec fn default_bool_parameters() -> FheBoolParameters {
    FheBoolParameters {
        lwe_dimension: LweDimension(722),
        glwe_dimension: GlweDimension(2),
        polynomial_size: PolynomialSize(512),
        lwe_modular_std_dev: StandardDev(0x3eeb6973759c0bfb),
        glwe_modular_std_dev: StandardDev(0x3e6aca93ee2836bc),
        pbs_base_log: DecompositionBaseLog(6),
        pbs_level: DecompositionLevelCount(3),
        ks_base_log: DecompositionBaseLog(3),
        ks_level: DecompositionLevelCount(4),
    }
}

/// The parameters of short integers with a message of two bits and a carry
/// of two bits.
pub open spec fn param_message_2_carry_2() -> ShortintParameters {
    ShortintParameters {
        lwe_dimension: LweDimension(742),
        glwe_dimension: GlweDimension(1),
        polynomial_size: PolynomialSize(2048),
        lwe_modular_std_dev: StandardDev(0x3edda7316ba72dfc),
        glwe_modular_std_dev: StandardDev(0x3cb53001d2dbc336),
        pbs_base_log: DecompositionBaseLog(23),
        pbs_level: DecompositionLevelCount(1),
        ks_level: DecompositionLevelCount(5),
        ks_base_log: DecompositionBaseLog(3),
        pfks_level: DecompositionLevelCount(1),
        pfks_base_log: DecompositionBaseLog(23),
        pfks_modular_std_dev: StandardDev(0x3cb53001d2dbc336),
        cbs_level: DecompositionLevelCount(0),
        cbs_base_log: DecompositionBaseLog(0),
        message_modulus: MessageModulus(4),
        carry_modulus: CarryModulus(4),
    }
}

/// The parameters of short integers with a message of three bits and a
/// carry of three bits.
pub open spec fn param_message_3_carry_3() -> ShortintParameters {
    ShortintParameters {
        lwe_dimension: LweDimension(864),
        glwe_dimension: GlweDimension(1),
        polynomial_size: PolynomialSize(8192),
        lwe_modular_std_dev: StandardDev(0x3ea96f2746231ba0),
        glwe_modular_std_dev: StandardDev(0x3c10000000000000),
        pbs_base_log: DecompositionBaseLog(15),
        pbs_level: DecompositionLevelCount(2),
        ks_level: DecompositionLevelCount(6),
        ks_base_log: DecompositionBaseLog(3),
        pfks_level: DecompositionLevelCount(2),
        pfks_base_log: DecompositionBaseLog(15),
        pfks_modular_std_dev: StandardDev(0x3c10000000000000),
        cbs_level: DecompositionLevelCount(0),
        cbs_base_log: DecompositionBaseLog(0),
        message_modulus: MessageModulus(8),
        carry_modulus: CarryModulus(8),
    }
}

/// The parameters of short integers with a message of four bits and a carry
/// of four bits.
pub open spec fn param_message_4_carry_4() -> ShortintParameters {
    ShortintParameters {
        lwe_dimension: LweDimension(953),
        glwe_dimension: GlweDimension(1),
        polynomial_size: PolynomialSize(32768),
        lwe_modular_std_dev: StandardDev(0x3e83f46107882d7b),
        glwe_modular_std_dev: StandardDev(0x3c10000000000000),
        pbs_base_log: DecompositionBaseLog(15),
        pbs_level: DecompositionLevelCount(2),
        ks_level: DecompositionLevelCount(11),
        ks_base_log: DecompositionBaseLog(2),
        pfks_level: DecompositionLevelCount(2),
        pfks_base_log: DecompositionBaseLog(15),
        pfks_modular_std_dev: StandardDev(0x3c10000000000000),
        cbs_level: DecompositionLevelCount(0),
        cbs_base_log: DecompositionBaseLog(0),
        message_modulus: MessageModulus(16),
        carry_modulus: CarryModulus(16),
    }
}

/// The radix parameters of `num_block` blocks with a message of two bits
/// and a carry of two bits.
pub open spec fn radix_message_2_carry_2(num_block: usize) -> RadixParameters {
    RadixParameters { block_parameters: param_message_2_carry_2(), num_block }
}

impl Default for FheBoolParameters {
    fn default() -> (parameters: Self)
        ensures
            parameters == default_bool_parameters(),
    {
        FheBoolParameters {
        lwe_dimension: LweDimension(722),
        glwe_dimension: GlweDimension(2),
        polynomial_size: PolynomialSize(512),
        lwe_modular_std_dev: StandardDev(0x3eeb6973759c0bfb),
        glwe_modular_std_dev: StandardDev(0x3e6aca93ee2836bc),
        pbs_base_log: DecompositionBaseLog(6),
        pbs_level: DecompositionLevelCount(3),
        ks_base_log: DecompositionBaseLog(3),
        ks_level: DecompositionLevelCount(4),
    }
    }
}

impl ShortintParameters {
    /// The parameters for a message of two bits and a carry of two bits.
    pub fn message_2_carry_2() -> (parameters: Self)
        ensures
            parameters == param_message_2_carry_2(),
    {
        ShortintParameters {
            lwe_dimension: LweDimension(742),
            glwe_dimension: GlweDimension(1),
            polynomial_size: PolynomialSize(2048),
            lwe_modular_std_dev: StandardDev(0x3edda7316ba72dfc),
            glwe_modular_std_dev: StandardDev(0x3cb53001d2dbc336),
            pbs_base_log: DecompositionBaseLog(23),
            pbs_level: DecompositionLevelCount(1),
            ks_level: DecompositionLevelCount(5),
            ks_base_log: DecompositionBaseLog(3),
            pfks_level: DecompositionLevelCount(1),
            pfks_base_log: DecompositionBaseLog(23),
            pfks_modular_std_dev: StandardDev(0x3cb53001d2dbc336),
            cbs_level: DecompositionLevelCount(0),
            cbs_base_log: DecompositionBaseLog(0),
            message_modulus: MessageModulus(4),
            carry_modulus: CarryModulus(4),
        }
    }

    /// The parameters for a message of three bits and a carry of three bits.
    pub fn message_3_carry_3() -> (parameters: Self)
        ensures
            parameters == param_message_3_carry_3(),
    {
        ShortintParameters {
            lwe_dimension: LweDimension(864),
            glwe_dimension: GlweDimension(1),
            polynomial_size: PolynomialSize(8192),
            lwe_modular_std_dev: StandardDev(0x3ea96f2746231ba0),
            glwe_modular_std_dev: StandardDev(0x3c10000000000000),
            pbs_base_log: DecompositionBaseLog(15),
            pbs_level: DecompositionLevelCount(2),
            ks_level: DecompositionLevelCount(6),
            ks_base_log: DecompositionBaseLog(3),
            pfks_level: DecompositionLevelCount(2),
            pfks_base_log: DecompositionBaseLog(15),
            pfks_modular_std_dev: StandardDev(0x3c10000000000000),
            cbs_level: DecompositionLevelCount(0),
            cbs_base_log: DecompositionBaseLog(0),
            message_modulus: MessageModulus(8),
            carry_modulus: CarryModulus(8),
        }
    }

    /// The parameters for a message of four bits and a carry of four bits.
    pub fn message_4_carry_4() -> (parameters: Self)
        ensures
            parameters == param_message_4_carry_4(),
    {
        ShortintParameters {
            lwe_dimension: LweDimension(953),
            glwe_dimension: GlweDimension(1),
            polynomial_size: PolynomialSize(32768),
            lwe_modular_std_dev: StandardDev(0x3e83f46107882d7b),
            glwe_modular_std_dev: StandardDev(0x3c10000000000000),
            pbs_base_log: DecompositionBaseLog(15),
            pbs_level: DecompositionLevelCount(2),
            ks_level: DecompositionLevelCount(11),
            ks_base_log: DecompositionBaseLog(2),
            pfks_level: DecompositionLevelCount(2),
            pfks_base_log: DecompositionBaseLog(15),
            pfks_modular_std_dev: StandardDev(0x3c10000000000000),
            cbs_level: DecompositionLevelCount(0),
            cbs_base_log: DecompositionBaseLog(0),
            message_modulus: MessageModulus(16),
            carry_modulus: CarryModulus(16),
        }
    }
}

/// The parameters of encrypted unsigned integers of 2 bits.
#[derive(Clone, Copy, Debug, PartialEq, Eq, Structural)]
pub struct FheUint2Parameters(pub ShortintParameters);

impl Default for FheUint2Parameters {
    fn default() -> (parameters: Self)
        ensures
            parameters == FheUint2Parameters(param_message_2_carry_2()),
    {
        FheUint2Parameters(ShortintParameters::message_2_carry_2())
    }
}

/// The parameters of encrypted unsigned integers of 3 bits.
#[derive(Clone, Copy, Debug, PartialEq, Eq, Structural)]
pub struct FheUint3Parameters(pub ShortintParameters);

impl Default for FheUint3Parameters {
    fn default() -> (parameters: Self)
        ensures
            parameters == FheUint3Parameters(param_message_3_carry_3()),
    {
        FheUint3Parameters(ShortintParameters::message_3_carry_3())
    }
}

/// The parameters of encrypted unsigned integers of 4 bits.
#[derive(Clone, Copy, Debug, PartialEq, Eq, Structural)]
pub struct FheUint4Parameters(pub ShortintParameters);

impl Default for FheUint4Parameters {
    fn default() -> (parameters: Self)
        ensures
            parameters == FheUint4Parameters(param_message_4_carry_4()),
    {
        FheUint4Parameters(ShortintParameters::message_4_carry_4())
    }
}

/// The parameters of encrypted unsigned integers of 8 bits.
#[derive(Clone, Copy, Debug, PartialEq, Eq, Structural)]
pub struct FheUint8Parameters(pub RadixParameters);

impl Default for FheUint8Parameters {
    fn default() -> (parameters: Self)
        ensures
            parameters == FheUint8Parameters(radix_message_2_carry_2(4)),
    {
        FheUint8Parameters(
            RadixParameters {
                block_parameters: ShortintParameters::message_2_carry_2(),
                num_block: 4,
            },
        )
    }
}

/// The parameters of encrypted unsigned integers of 12 bits.
#[derive(Clone, Copy, Debug, PartialEq, Eq, Structural)]
pub struct FheUint12Parameters(pub RadixParameters);

impl Default for FheUint12Parameters {
    fn default() -> (parameters: Self)
        ensures
            parameters == FheUint12Parameters(radix_message_2_carry_2(6)),
    {
        FheUint12Parameters(
            RadixParameters {
                block_parameters: ShortintParameters::message_2_carry_2(),
                num_block: 6,
            },
        )
    }
}

/// The parameters of encrypted unsigned integers of 16 bits.
#[derive(Clone, Copy, Debug, PartialEq, Eq, Structural)]
pub struct FheUint16Parameters(pub RadixParameters);

impl Default for FheUint16Parameters {
    fn default() -> (parameters: Self)
        ensures
            parameters == FheUint16Parameters(radix_message_2_carry_2(8)),
    {
        FheUint16Parameters(
            RadixParameters {
                block_parameters: ShortintParameters::message_2_carry_2(),
                num_block: 8,
            },
        )
    }
}

/// The parameters of encrypted unsigned integers of 256 bits.
#[derive(Clone, Copy, Debug, PartialEq, Eq, Structural)]
pub struct FheUint256Parameters(pub RadixParameters);

impl Default for FheUint256Parameters {
    fn default() -> (parameters: Self)
        ensures
            parameters == FheUint256Parameters(radix_message_2_carry_2(128)),
    {
        FheUint256Parameters(
            RadixParameters {
                block_parameters: ShortintParameters::message_2_carry_2(),
                num_block: 128,
            },
        )
    }
}

} // verus!
