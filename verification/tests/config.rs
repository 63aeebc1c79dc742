use tfhe::config::{BooleanConfig, Config, ConfigBuilder, IntegerConfig, ShortIntConfig};
use tfhe::parameter_sets::{
    FheBoolParameters, FheUint12Parameters, FheUint16Parameters, FheUint256Parameters,
    FheUint2Parameters, FheUint3Parameters, FheUint4Parameters, FheUint8Parameters,
    ShortintParameters,
};
use tfhe::parameters::{
    DecompositionBaseLog, DecompositionLevelCount, GlweDimension, LweDimension, PolynomialSize,
    StandardDev,
};

#[test]
fn all_enabled_enables_every_type_with_its_default() {
    let config = ConfigBuilder::all_enabled().build();
    assert_eq!(config.boolean_config, BooleanConfig::all_default());
    assert_eq!(config.shortint_config, ShortIntConfig::all_default());
    assert_eq!(config.integer_config, IntegerConfig::all_default());
    assert_eq!(config.boolean_config.bool_params, Some(FheBoolParameters::default()));
    assert_eq!(config.shortint_config.uint2_params, Some(FheUint2Parameters::default()));
    assert_eq!(config.shortint_config.uint3_params, Some(FheUint3Parameters::default()));
    assert_eq!(config.shortint_config.uint4_params, Some(FheUint4Parameters::default()));
    assert_eq!(config.integer_config.uint8_params, Some(FheUint8Parameters::default()));
    assert_eq!(config.integer_config.uint12_params, Some(FheUint12Parameters::default()));
    assert_eq!(config.integer_config.uint16_params, Some(FheUint16Parameters::default()));
    assert_eq!(config.integer_config.uint256_params, Some(FheUint256Parameters::default()));
}

#[test]
fn all_disabled_enables_nothing() {
    let config = ConfigBuilder::all_disabled().build();
    assert_eq!(config.boolean_config, BooleanConfig::all_none());
    assert_eq!(config.shortint_config, ShortIntConfig::all_none());
    assert_eq!(config.integer_config, IntegerConfig::all_none());
    assert_eq!(config.boolean_config.bool_params, None);
    assert_eq!(config.shortint_config.uint2_params, None);
    assert_eq!(config.shortint_config.uint3_params, None);
    assert_eq!(config.shortint_config.uint4_params, None);
    assert_eq!(config.integer_config.uint8_params, None);
    assert_eq!(config.integer_config.uint12_params, None);
    assert_eq!(config.integer_config.uint16_params, None);
    assert_eq!(config.integer_config.uint256_params, None);
}

#[test]
fn each_switch_changes_its_own_type_alone() {
    let none = ConfigBuilder::all_disabled().build();
    let all = ConfigBuilder::all_enabled().build();

    let config = ConfigBuilder::all_disabled().enable_default_bool().build();
    assert_eq!(config.boolean_config, all.boolean_config);
    assert_eq!(config.shortint_config, none.shortint_config);
    assert_eq!(config.integer_config, none.integer_config);
    assert_eq!(ConfigBuilder::all_enabled().disable_bool().build().boolean_config, none.boolean_config);
    assert_eq!(ConfigBuilder::all_enabled().disable_bool().build().integer_config, all.integer_config);

    let config = ConfigBuilder::all_disabled().enable_default_uint2().build();
    assert_eq!(config.shortint_config.uint2_params, all.shortint_config.uint2_params);
    assert_eq!(config.shortint_config.uint3_params, None);
    assert_eq!(config.shortint_config.uint4_params, None);
    assert_eq!(config.boolean_config, none.boolean_config);
    let config = ConfigBuilder::all_disabled().enable_default_uint3().build();
    assert_eq!(config.shortint_config.uint3_params, all.shortint_config.uint3_params);
    assert_eq!(config.shortint_config.uint2_params, None);
    let config = ConfigBuilder::all_disabled().enable_default_uint4().build();
    assert_eq!(config.shortint_config.uint4_params, all.shortint_config.uint4_params);
    assert_eq!(config.shortint_config.uint3_params, None);

    let config = ConfigBuilder::all_disabled().enable_default_uint8().build();
    assert_eq!(config.integer_config.uint8_params, all.integer_config.uint8_params);
    assert_eq!(config.integer_config.uint12_params, None);
    let config = ConfigBuilder::all_disabled().enable_default_uint12().build();
    assert_eq!(config.integer_config.uint12_params, all.integer_config.uint12_params);
    assert_eq!(config.integer_config.uint8_params, None);
    let config = ConfigBuilder::all_disabled().enable_default_uint16().build();
    assert_eq!(config.integer_config.uint16_params, all.integer_config.uint16_params);
    assert_eq!(config.integer_config.uint256_params, None);
    let config = ConfigBuilder::all_disabled().enable_default_uint256().build();
    assert_eq!(config.integer_config.uint256_params, all.integer_config.uint256_params);
    assert_eq!(config.integer_config.uint16_params, None);
    assert_eq!(config.shortint_config, none.shortint_config);

    let config = ConfigBuilder::all_enabled()
        .disable_uint8()
        .disable_uint12()
        .disable_uint16()
        .disable_uint256()
        .build();
    assert_eq!(config.integer_config, none.integer_config);
    assert_eq!(config.shortint_config, all.shortint_config);
    let config = ConfigBuilder::all_enabled().disable_uint12().build();
    assert_eq!(config.integer_config.uint12_params, None);
    assert_eq!(config.integer_config.uint8_params, all.integer_config.uint8_params);
    assert_eq!(config.integer_config.uint16_params, all.integer_config.uint16_params);
    assert_eq!(config.integer_config.uint256_params, all.integer_config.uint256_params);
}

#[test]
fn custom_boolean_parameters_are_kept() {
    let custom = FheBoolParameters {
        lwe_dimension: LweDimension(10),
        glwe_dimension: GlweDimension(1),
        polynomial_size: PolynomialSize(16),
        lwe_modular_std_dev: StandardDev(1),
        glwe_modular_std_dev: StandardDev(2),
        pbs_base_log: DecompositionBaseLog(3),
        pbs_level: DecompositionLevelCount(4),
        ks_base_log: DecompositionBaseLog(5),
        ks_level: DecompositionLevelCount(6),
    };
    let config = ConfigBuilder::all_enabled().enable_custom_bool(custom).build();
    assert_eq!(config.boolean_config.bool_params, Some(custom));
    assert_eq!(config.shortint_config, ConfigBuilder::all_enabled().build().shortint_config);
    let config = ConfigBuilder::all_disabled().enable_custom_bool(custom).enable_default_bool();
    assert_eq!(config.build().boolean_config.bool_params, Some(FheBoolParameters::default()));
}

#[test]
fn a_builder_converts_into_its_configuration() {
    let builder = ConfigBuilder::all_disabled().enable_default_uint3();
    let config: Config = builder.into();
    assert_eq!(config, builder.build());
    assert_eq!(Config::from(builder.clone()), builder.build());
    assert_ne!(config, ConfigBuilder::all_disabled().build());
}

#[test]
fn the_default_parameters_have_their_values() {
    let boolean = FheBoolParameters::default();
    assert_eq!(boolean.lwe_dimension, LweDimension(722));
    assert_eq!(boolean.glwe_dimension, GlweDimension(2));
    assert_eq!(boolean.polynomial_size, PolynomialSize(512));
    assert_eq!(f64::from_bits(boolean.lwe_modular_std_dev.0), 0.000013071021089943935);
    assert_eq!(f64::from_bits(boolean.glwe_modular_std_dev.0), 0.00000004990272175010415);
    assert_eq!(boolean.pbs_base_log, DecompositionBaseLog(6));
    assert_eq!(boolean.pbs_level, DecompositionLevelCount(3));
    assert_eq!(boolean.ks_base_log, DecompositionBaseLog(3));
    assert_eq!(boolean.ks_level, DecompositionLevelCount(4));

    let two = ShortintParameters::message_2_carry_2();
    assert_eq!(FheUint2Parameters::default().0, two);
    assert_eq!(two.lwe_dimension, LweDimension(742));
    assert_eq!(two.polynomial_size, PolynomialSize(2048));
    assert_eq!(f64::from_bits(two.lwe_modular_std_dev.0), 0.000007069849454709433);
    assert_eq!(f64::from_bits(two.glwe_modular_std_dev.0), 0.00000000000000029403601535432533);
    assert_eq!(two.ks_level, DecompositionLevelCount(5));
    assert_eq!(two.ks_base_log, DecompositionBaseLog(3));
    assert_eq!((two.message_modulus.0, two.carry_modulus.0), (4, 4));

    let three = ShortintParameters::message_3_carry_3();
    assert_eq!(FheUint3Parameters::default().0, three);
    assert_eq!(three.lwe_dimension, LweDimension(864));
    assert_eq!(three.polynomial_size, PolynomialSize(8192));
    assert_eq!(f64::from_bits(three.lwe_modular_std_dev.0), 0.000000757998020150446);
    assert_eq!(f64::from_bits(three.glwe_modular_std_dev.0), 0.0000000000000000002168404344971009);
    assert_eq!((three.message_modulus.0, three.carry_modulus.0), (8, 8));

    let four = ShortintParameters::message_4_carry_4();
    assert_eq!(FheUint4Parameters::default().0, four);
    assert_eq!(four.lwe_dimension, LweDimension(953));
    assert_eq!(four.polynomial_size, PolynomialSize(32768));
    assert_eq!(f64::from_bits(four.lwe_modular_std_dev.0), 0.0000001486733969411098);
    assert_eq!(four.ks_level, DecompositionLevelCount(11));
    assert_eq!((four.message_modulus.0, four.carry_modulus.0), (16, 16));

    assert_eq!(FheUint8Parameters::default().0.num_block, 4);
    assert_eq!(FheUint12Parameters::default().0.num_block, 6);
    assert_eq!(FheUint16Parameters::default().0.num_block, 8);
    assert_eq!(FheUint256Parameters::default().0.num_block, 128);
    assert_eq!(FheUint256Parameters::default().0.block_parameters, two);
}
