use tfhe::numeric::UnsignedInteger;
use tfhe::parameters::{LweDimension, LweSize};

fn check_width<T: UnsignedInteger + PartialEq + std::fmt::Debug>(bits: usize, max: T) {
    assert_eq!(T::bits(), bits);
    assert!(T::zero().is_zero());
    assert!(!T::one().is_zero());
    assert!(T::zero().is_at_most(T::one()));
    assert!(!T::one().is_at_most(T::zero()));
    assert!(max.is_at_most(max));
    // Arithmetic wraps.
    assert_eq!(UnsignedInteger::wrapping_add(max, T::one()), T::zero());
    assert_eq!(UnsignedInteger::wrapping_sub(T::zero(), T::one()), max);
    assert_eq!(UnsignedInteger::wrapping_mul(max, max), T::one());
    // A shift by the width or more leaves nothing.
    assert_eq!(UnsignedInteger::shr(max, bits), T::zero());
    assert_eq!(UnsignedInteger::shr(max, bits + 9), T::zero());
    assert_eq!(UnsignedInteger::shl(max, bits), T::zero());
    assert_eq!(UnsignedInteger::shl(T::one(), bits + 1), T::zero());
    assert_eq!(UnsignedInteger::shr(max, 0), max);
    assert_eq!(UnsignedInteger::shl(max, 0), max);
    assert_eq!(UnsignedInteger::shr(max, bits - 1), T::one());
    assert_eq!(
        UnsignedInteger::shr(UnsignedInteger::shl(T::one(), bits - 1), bits - 1),
        T::one()
    );
    assert_eq!(UnsignedInteger::bitand(max, T::one()), T::one());
    assert_eq!(UnsignedInteger::bitor(T::zero(), T::one()), T::one());
}

#[test]
fn words_of_32_bits() {
    check_width::<u32>(32, u32::MAX);
    assert_eq!(UnsignedInteger::shl(0x8000_0001u32, 1), 2);
    assert_eq!(UnsignedInteger::shr(0x8000_0001u32, 1), 0x4000_0000);
    assert_eq!(UnsignedInteger::bitand(0b1100u32, 0b1010), 0b1000);
    assert_eq!(UnsignedInteger::bitor(0b1100u32, 0b1010), 0b1110);
    assert_eq!(UnsignedInteger::wrapping_mul(0x1_0001u32, 0x1_0001), 0x2_0001);
}

#[test]
fn words_of_64_bits() {
    check_width::<u64>(64, u64::MAX);
    assert_eq!(UnsignedInteger::shl(0x8000_0000_0000_0001u64, 4), 16);
    assert_eq!(UnsignedInteger::shr(0xf000_0000_0000_0000u64, 60), 15);
    assert_eq!(UnsignedInteger::wrapping_sub(5u64, 7), u64::MAX - 1);
    assert_eq!(UnsignedInteger::wrapping_add(u64::MAX - 1, 5), 3);
}

#[test]
fn a_ciphertext_is_one_scalar_larger_than_its_key() {
    assert_eq!(LweDimension(742).to_lwe_size(), LweSize(743));
    assert_eq!(LweSize(743).to_lwe_dimension(), LweDimension(742));
    assert_eq!(LweDimension(0).to_lwe_size(), LweSize(1));
    assert_eq!(LweSize(1).to_lwe_dimension(), LweDimension(0));
}
