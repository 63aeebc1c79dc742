//! The configuration of the encrypted data types that a key set serves.
use crate::parameter_sets::{
    default_bool_parameters,
    param_message_2_carry_2,
    param_message_3_carry_3,
    param_message_4_carry_4,
    radix_message_2_carry_2,
    FheBoolParameters,
    FheUint12Parameters,
    FheUint16Parameters,
    FheUint256Parameters,
    FheUint2Parameters,
    FheUint3Parameters,
    FheUint4Parameters,
    FheUint8Parameters,
};
use vstd::prelude::*;

verus! {

/// Which parameters encrypted booleans use, if they are enabled.
#[derive(Clone, Copy, Debug, PartialEq, Eq)]
pub struct BooleanConfig {
    pub bool_params: Option<FheBoolParameters>,
}

/// Which parameters each type of encrypted short integer uses, if it is
/// enabled.
#[derive(Clone, Copy, Debug, PartialEq, Eq)]
pub struct ShortIntConfig {
    pub uint2_params: Option<FheUint2Parameters>,
    pub uint3_params: Option<FheUint3Parameters>,
    pub uint4_params: Option<FheUint4Parameters>,
}

/// Which parameters each type of encrypted integer uses, if it is enabled.
#[derive(Clone, Copy, Debug, PartialEq, Eq)]
pub struct IntegerConfig {
    pub uint8_params: Option<FheUint8Parameters>,
    pub uint12_params: Option<FheUint12Parameters>,
    pub uint16_params: Option<FheUint16Parameters>,
    pub uint256_params: Option<FheUint256Parameters>,
}

/// The configuration: for each encrypted data type, whether it is enabled
/// and with which parameters.
#[derive(Clone, Copy, Debug, PartialEq, Eq)]
pub struct Config {
    pub boolean_config: BooleanConfig,
    pub integer_config: IntegerConfig,
    pub shortint_config: ShortIntConfig,
}

/// The configuration in which every data type is enabled with its default
/// parameters.
pub open spec fn all_default_config() -> Config {
    Config {
        boolean_config: BooleanConfig { bool_params: Some(default_bool_parameters()) },
        integer_config: IntegerConfig {
            uint8_params: Some(FheUint8Parameters(radix_message_2_carry_2(4))),
            uint12_params: Some(FheUint12Parameters(radix_message_2_carry_2(6))),
            uint16_params: Some(FheUint16Parameters(radix_message_2_carry_2(8))),
            uint256_params: Some(FheUint256Parameters(radix_message_2_carry_2(128))),
        },
        shortint_config: ShortIntConfig {
            uint2_params: Some(FheUint2Parameters(param_message_2_carry_2())),
            uint3_params: Some(FheUint3Parameters(param_message_3_carry_3())),
            uint4_params: Some(FheUint4Parameters(param_message_4_carry_4())),
        },
    }
}

/// The configuration in which no data type is enabled.
pub open spec fn all_none_config() -> Config {
    Config {
        boolean_config: BooleanConfig { bool_params: None },
        integer_config: IntegerConfig {
            uint8_params: None,
            uint12_params: None,
            uint16_params: None,
            uint256_params: None,
        },
        shortint_config: ShortIntConfig { uint2_params: None, uint3_params: None, uint4_params: None },
    }
}

impl BooleanConfig {
    /// Booleans enabled with their default parameters.
    pub fn all_default() -> (config: Self)
        ensures
            config == all_default_config().boolean_config,
    {
        BooleanConfig { bool_params: Some(FheBoolParameters::default()) }
    }

    /// Booleans disabled.
    pub fn all_none() -> (config: Self)
        ensures
            config == all_none_config().boolean_config,
    {
        BooleanConfig { bool_params: None }
    }
}

impl ShortIntConfig {
    /// Every type of short integer enabled with its default parameters.
    pub fn all_default() -> (config: Self)
        ensures
            config == all_default_config().shortint_config,
    {
        ShortIntConfig {
            uint2_params: Some(FheUint2Parameters::default()),
            uint3_params: Some(FheUint3Parameters::default()),
            uint4_params: Some(FheUint4Parameters::default()),
        }
    }

    /// Every type of short integer disabled.
    pub fn all_none() -> (config: Self)
        ensures
            config == all_none_config().shortint_config,
    {
        ShortIntConfig { uint2_params: None, uint3_params: None, uint4_params: None }
    }
}

impl IntegerConfig {
    /// Every type of integer enabled with its default parameters.
    pub fn all_default() -> (config: Self)
        ensures
            config == all_default_config().integer_config,
    {
        IntegerConfig {
            uint8_params: Some(FheUint8Parameters::default()),
            uint12_params: Some(FheUint12Parameters::default()),
            uint16_params: Some(FheUint16Parameters::default()),
            uint256_params: Some(FheUint256Parameters::default()),
        }
    }

    /// Every type of integer disabled.
    pub fn all_none() -> (config: Self)
        ensures
            config == all_none_config().integer_config,
    {
        IntegerConfig {
            uint8_params: None,
            uint12_params: None,
            uint16_params: None,
            uint256_params: None,
        }
    }
}

/// The builder of a configuration.
///
/// The configuration selects which data types are going to be used and with
/// which parameters, the default ones or custom ones. Keys are generated
/// only for the types that it enables.
#[derive(Clone, Copy)]
pub struct ConfigBuilder {
    config: Config,
}

impl View for ConfigBuilder {
    type V = Config;

    closed spec fn view(&self) -> Config {
        self.config
    }
}

impl ConfigBuilder {
    /// A builder with all the data types enabled with their default
    /// parameters.
    pub fn all_enabled() -> (builder: Self)
        ensures
            builder@ == all_default_config(),
    {
        ConfigBuilder {
            config: Config {
                boolean_config: BooleanConfig::all_default(),
                integer_config: IntegerConfig::all_default(),
                shortint_config: ShortIntConfig::all_default(),
            },
        }
    }

    /// A builder with all the data types disabled.
    pub fn all_disabled() -> (builder: Self)
        ensures
            builder@ == all_none_config(),
    {
        ConfigBuilder {
            config: Config {
                boolean_config: BooleanConfig::all_none(),
                integer_config: IntegerConfig::all_none(),
                shortint_config: ShortIntConfig::all_none(),
            },
        }
    }

    /// Enables booleans with their default parameters.
    pub fn enable_default_bool(self) -> (builder: Self)
        ensures
            builder@ == (Config {
                boolean_config: BooleanConfig { bool_params: Some(default_bool_parameters()) },
                ..self@
            }),
    {
        let mut builder = self;
        builder.config.boolean_config.bool_params = Some(FheBoolParameters::default());
        builder
    }

    /// Enables booleans with the given parameters.
    pub fn enable_custom_bool(self, params: FheBoolParameters) -> (builder: Self)
        ensures
            builder@ == (Config {
                boolean_config: BooleanConfig { bool_params: Some(params) },
                ..self@
            }),
    {
        let mut builder = self;
        builder.config.boolean_config.bool_params = Some(params);
        builder
    }

    /// Disables booleans.
    pub fn disable_bool(self) -> (builder: Self)
        ensures
            builder@ == (Config { boolean_config: BooleanConfig { bool_params: None }, ..self@ }),
    {
        let mut builder = self;
        builder.config.boolean_config.bool_params = None;
        builder
    }

    /// Enables unsigned integers of 2 bits with their default parameters.
    pub fn enable_default_uint2(self) -> (builder: Self)
        ensures
            builder@ == (Config {
                shortint_config: ShortIntConfig {
                    uint2_params: Some(FheUint2Parameters(param_message_2_carry_2())),
                    ..self@.shortint_config
                },
                ..self@
            }),
    {
        let mut builder = self;
        builder.config.shortint_config.uint2_params = Some(FheUint2Parameters::default());
        builder
    }

    /// Enables unsigned integers of 3 bits with their default parameters.
    pub fn enable_default_uint3(self) -> (builder: Self)
        ensures
            builder@ == (Config {
                shortint_config: ShortIntConfig {
                    uint3_params: Some(FheUint3Parameters(param_message_3_carry_3())),
                    ..self@.shortint_config
                },
                ..self@
            }),
    {
        let mut builder = self;
        builder.config.shortint_config.uint3_params = Some(FheUint3Parameters::default());
        builder
    }

    /// Enables unsigned integers of 4 bits with their default parameters.
    pub fn enable_default_uint4(self) -> (builder: Self)
        ensures
            builder@ == (Config {
                shortint_config: ShortIntConfig {
                    uint4_params: Some(FheUint4Parameters(param_message_4_carry_4())),
                    ..self@.shortint_config
                },
                ..self@
            }),
    {
        let mut builder = self;
        builder.config.shortint_config.uint4_params = Some(FheUint4Parameters::default());
        builder
    }

    /// Enables unsigned integers of 8 bits with their default parameters.
    pub fn enable_default_uint8(self) -> (builder: Self)
        ensures
            builder@ == (Config {
                integer_config: IntegerConfig {
                    uint8_params: Some(FheUint8Parameters(radix_message_2_carry_2(4))),
                    ..self@.integer_config
                },
                ..self@
            }),
    {
        let mut builder = self;
        builder.config.integer_config.uint8_params = Some(FheUint8Parameters::default());
        builder
    }

    /// Disables unsigned integers of 8 bits.
    pub fn disable_uint8(self) -> (builder: Self)
        ensures
            builder@ == (Config {
                integer_config: IntegerConfig { uint8_params: None, ..self@.integer_config },
                ..self@
            }),
    {
        let mut builder = self;
        builder.config.integer_config.uint8_params = None;
        builder
    }

    /// Enables unsigned integers of 12 bits with their default parameters.
    pub fn enable_default_uint12(self) -> (builder: Self)
        ensures
            builder@ == (Config {
                integer_config: IntegerConfig {
                    uint12_params: Some(FheUint12Parameters(radix_message_2_carry_2(6))),
                    ..self@.integer_config
                },
                ..self@
            }),
    {
        let mut builder = self;
        builder.config.integer_config.uint12_params = Some(FheUint12Parameters::default());
        builder
    }

    /// Disables unsigned integers of 12 bits.
    pub fn disable_uint12(self) -> (builder: Self)
        ensures
            builder@ == (Config {
                integer_config: IntegerConfig { uint12_params: None, ..self@.integer_config },
                ..self@
            }),
    {
        let mut builder = self;
        builder.config.integer_config.uint12_params = None;
        builder
    }

    /// Enables unsigned integers of 16 bits with their default parameters.
    pub fn enable_default_uint16(self) -> (builder: Self)
        ensures
            builder@ == (Config {
                integer_config: IntegerConfig {
                    uint16_params: Some(FheUint16Parameters(radix_message_2_carry_2(8))),
                    ..self@.integer_config
                },
                ..self@
            }),
    {
        let mut builder = self;
        builder.config.integer_config.uint16_params = Some(FheUint16Parameters::default());
        builder
    }

    /// Disables unsigned integers of 16 bits.
    pub fn disable_uint16(self) -> (builder: Self)
        ensures
            builder@ == (Config {
                integer_config: IntegerConfig { uint16_params: None, ..self@.integer_config },
                ..self@
            }),
    {
        let mut builder = self;
        builder.config.integer_config.uint16_params = None;
        builder
    }

    /// Enables unsigned integers of 256 bits with their default parameters.
    pub fn enable_default_uint256(self) -> (builder: Self)
        ensures
            builder@ == (Config {
                integer_config: IntegerConfig {
                    uint256_params: Some(FheUint256Parameters(radix_message_2_carry_2(128))),
                    ..self@.integer_config
                },
                ..self@
            }),
    {
        let mut builder = self;
        builder.config.integer_config.uint256_params = Some(FheUint256Parameters::default());
        builder
    }

    /// Disables unsigned integers of 256 bits.
    pub fn disable_uint256(self) -> (builder: Self)
        ensures
            builder@ == (Config {
                integer_config: IntegerConfig { uint256_params: None, ..self@.integer_config },
                ..self@
            }),
    {
        let mut builder = self;
        builder.config.integer_config.uint256_params = None;
        builder
    }

    /// The configuration that was built.
    pub fn build(self) -> (config: Config)
        ensures
            config == self@,
    {
        self.config
    }
}

impl From<ConfigBuilder> for Config {
    fn from(builder: ConfigBuilder) -> (config: Config) {
        builder.build()
    }
}

impl vstd::std_specs::convert::FromSpecImpl<ConfigBuilder> for Config {
    open spec fn obeys_from_spec() -> bool {
        true
    }

    open spec fn from_spec(builder: ConfigBuilder) -> Config {
        builder@
    }
}

} // verus!
