//! Fixed-width unsigned scalars with wrapping arithmetic.
use vstd::arithmetic::div_mod::*;
use vstd::arithmetic::power2::*;
use vstd::bits::*;
use vstd::prelude::*;

verus! {

/// Bitwise conjunction of two naturals that fit in 64 bits.
pub open spec fn bit_and(a: nat, b: nat) -> nat {
    ((a as u64) & (b as u64)) as nat
}

/// Bitwise disjunction of two naturals that fit in 64 bits.
pub open spec fn bit_or(a: nat, b: nat) -> nat {
    ((a as u64) | (b as u64)) as nat
}

/// An unsigned machine word of `spec_bits()` bits, at most 64, whose
/// arithmetic wraps modulo `2^spec_bits()`.
///
/// Every operation is specified through `as_nat`, the number the word stands
/// for.
pub trait UnsignedInteger: Copy + Sized {
    /// The width of the word in bits.
    spec fn spec_bits() -> nat;

    /// The natural number the word stands for.
    spec fn as_nat(self) -> nat;

    /// The width is between 1 and 64.
    proof fn lemma_bits_range()
        ensures
            1 <= Self::spec_bits() <= 64,
    ;

    /// A word stands for a number below `2^spec_bits()`.
    proof fn lemma_as_nat_bound(self)
        ensures
            self.as_nat() < pow2(Self::spec_bits()),
    ;

    /// Two words that stand for the same number are the same word.
    proof fn lemma_as_nat_injective(self, other: Self)
        requires
            self.as_nat() == other.as_nat(),
        ensures
            self == other,
    ;

    /// The width of the word in bits.
    fn bits() -> (r: usize)
        ensures
            r == Self::spec_bits(),
    ;

    /// The word that stands for zero.
    fn zero() -> (r: Self)
        ensures
            r.as_nat() == 0,
    ;

    /// The word that stands for one.
    fn one() -> (r: Self)
        ensures
            r.as_nat() == 1,
    ;

    /// Addition modulo `2^spec_bits()`.
    fn wrapping_add(self, rhs: Self) -> (r: Self)
        ensures
            r.as_nat() == (self.as_nat() + rhs.as_nat()) % pow2(Self::spec_bits()),
    ;

    /// Subtraction modulo `2^spec_bits()`.
    fn wrapping_sub(self, rhs: Self) -> (r: Self)
        ensures
            r.as_nat() == (self.as_nat() - rhs.as_nat()) % (pow2(Self::spec_bits()) as int),
    ;

    /// Multiplication modulo `2^spec_bits()`.
    fn wrapping_mul(self, rhs: Self) -> (r: Self)
        ensures
            r.as_nat() == (self.as_nat() * rhs.as_nat()) % pow2(Self::spec_bits()),
    ;

    /// Logical shift to the right: the quotient by `2^n`, which is zero once
    /// `n` reaches the width.
    fn shr(self, n: usize) -> (r: Self)
        ensures
            r.as_nat() == self.as_nat() / pow2(n as nat),
    ;

    /// Shift to the left: the product with `2^n` modulo `2^spec_bits()`,
    /// which is zero once `n` reaches the width.
    fn shl(self, n: usize) -> (r: Self)
        ensures
            r.as_nat() == (self.as_nat() * pow2(n as nat)) % pow2(Self::spec_bits()),
    ;

    /// Whether the word stands for zero.
    fn is_zero(self) -> (r: bool)
        ensures
            r == (self.as_nat() == 0),
    ;

    /// Whether the word stands for a number that is at most that of `rhs`.
    fn is_at_most(self, rhs: Self) -> (r: bool)
        ensures
            r == (self.as_nat() <= rhs.as_nat()),
    ;

    /// Bitwise conjunction.
    fn bitand(self, rhs: Self) -> (r: Self)
        ensures
            r.as_nat() == bit_and(self.as_nat(), rhs.as_nat()),
    ;

    /// Bitwise disjunction.
    fn bitor(self, rhs: Self) -> (r: Self)
        ensures
            r.as_nat() == bit_or(self.as_nat(), rhs.as_nat()),
    ;
}

/// Shifting a 64-bit word to the left multiplies it by a power of two
/// modulo `2^64`.
proof fn lemma_u64_shl_wraps(x: u64, n: u64)
    requires
        n < 64,
    ensures
        (x << n) as nat == (x as nat * pow2(n as nat)) % pow2(64),
{
    lemma2_to64();
    lemma2_to64_rest();
    lemma_u64_pow2_no_overflow(n as nat);
    lemma_u64_shl_is_mul(1u64, n);
    let p: u64 = 1u64 << n;
    assert(p == pow2(n as nat));
    assert((x << n) == (x * p) % 0x1_0000_0000_0000_0000) by (bit_vector)
        requires
            n < 64,
            p == 1u64 << n,
    ;
}

/// Shifting a 32-bit word to the left multiplies it by a power of two
/// modulo `2^32`.
proof fn lemma_u32_shl_wraps(x: u32, n: u32)
    requires
        n < 32,
    ensures
        (x << n) as nat == (x as nat * pow2(n as nat)) % pow2(32),
{
    lemma2_to64();
    lemma_u32_pow2_no_overflow(n as nat);
    lemma_u32_shl_is_mul(1u32, n);
    let p: u32 = 1u32 << n;
    assert(p == pow2(n as nat));
    assert((x << n) == (x * p) % 0x1_0000_0000) by (bit_vector)
        requires
            n < 32,
            p == 1u32 << n,
    ;
}

/// Disjunction with zero keeps a 64-bit word, and conjunction with one is
/// its parity.
proof fn lemma_u64_bit_identities(x: u64)
    by (bit_vector)
    ensures
        x | 0 == x,
        0 | x == x,
        x & 1 == x % 2,
{
}

/// Disjunction with zero keeps a word, and conjunction with one is its
/// parity.
pub proof fn lemma_bit_identities(x: nat)
    requires
        x < pow2(64),
    ensures
        bit_or(x, 0) == x,
        bit_or(0, x) == x,
        bit_and(x, 1) == x % 2,
{
    lemma2_to64_rest();
    lemma_u64_bit_identities(x as u64);
}

/// A number below `2^w` has quotient zero by `2^n` when `n` is at least `w`.
pub proof fn lemma_shift_past_width(x: nat, w: nat, n: nat)
    requires
        x < pow2(w),
        w <= n,
    ensures
        x / pow2(n) == 0,
{
    if w < n {
        lemma_pow2_strictly_increases(w, n);
    }
    lemma_basic_div(x as int, pow2(n) as int);
}

impl UnsignedInteger for u64 {
    open spec fn spec_bits() -> nat {
        64
    }

    open spec fn as_nat(self) -> nat {
        self as nat
    }

    proof fn lemma_bits_range() {
    }

    proof fn lemma_as_nat_bound(self) {
        lemma2_to64_rest();
    }

    proof fn lemma_as_nat_injective(self, other: Self) {
    }

    fn bits() -> (r: usize) {
        64
    }

    fn zero() -> (r: Self) {
        0
    }

    fn one() -> (r: Self) {
        1
    }

    fn wrapping_add(self, rhs: Self) -> (r: Self) {
        let r = u64::wrapping_add(self, rhs);
        proof {
            lemma2_to64_rest();
            assert(r == (self + rhs) % 0x1_0000_0000_0000_0000);
        }
        r
    }

    fn wrapping_sub(self, rhs: Self) -> (r: Self) {
        let r = u64::wrapping_sub(self, rhs);
        proof {
            lemma2_to64_rest();
            assert(r == (self - rhs) % 0x1_0000_0000_0000_0000);
        }
        r
    }

    fn wrapping_mul(self, rhs: Self) -> (r: Self) {
        proof {
            lemma2_to64_rest();
        }
        u64::wrapping_mul(self, rhs)
    }

    fn shr(self, n: usize) -> (r: Self) {
        if n >= 64 {
            proof {
                lemma2_to64_rest();
                lemma_shift_past_width(self as nat, 64, n as nat);
            }
            0
        } else {
            proof {
                lemma_u64_shr_is_div(self, n as u64);
            }
            self >> n
        }
    }

    fn shl(self, n: usize) -> (r: Self) {
        if n >= 64 {
            proof {
                lemma_pow2_pos(64);
                lemma_pow2_adds(64, (n - 64) as nat);
                lemma_mod_multiples_basic(
                    (self as nat * pow2((n - 64) as nat)) as int,
                    pow2(64) as int,
                );
                assert(self as nat * pow2(n as nat) == (self as nat * pow2((n - 64) as nat))
                    * pow2(64)) by (nonlinear_arith)
                    requires
                        pow2(n as nat) == pow2(64) * pow2((n - 64) as nat),
                ;
            }
            0
        } else {
            proof {
                lemma_u64_shl_wraps(self, n as u64);
            }
            self << n
        }
    }

    fn is_zero(self) -> (r: bool) {
        self == 0
    }

    fn is_at_most(self, rhs: Self) -> (r: bool) {
        self <= rhs
    }

    fn bitand(self, rhs: Self) -> (r: Self) {
        self & rhs
    }

    fn bitor(self, rhs: Self) -> (r: Self) {
        self | rhs
    }
}

impl UnsignedInteger for u32 {
    open spec fn spec_bits() -> nat {
        32
    }

    open spec fn as_nat(self) -> nat {
        self as nat
    }

    proof fn lemma_bits_range() {
    }

    proof fn lemma_as_nat_bound(self) {
        lemma2_to64();
    }

    proof fn lemma_as_nat_injective(self, other: Self) {
    }

    fn bits() -> (r: usize) {
        32
    }

    fn zero() -> (r: Self) {
        0
    }

    fn one() -> (r: Self) {
        1
    }

    fn wrapping_add(self, rhs: Self) -> (r: Self) {
        let r = u32::wrapping_add(self, rhs);
        proof {
            lemma2_to64();
            assert(r == (self + rhs) % 0x1_0000_0000);
        }
        r
    }

    fn wrapping_sub(self, rhs: Self) -> (r: Self) {
        let r = u32::wrapping_sub(self, rhs);
        proof {
            lemma2_to64();
            assert(r == (self - rhs) % 0x1_0000_0000);
        }
        r
    }

    fn wrapping_mul(self, rhs: Self) -> (r: Self) {
        proof {
            lemma2_to64();
        }
        u32::wrapping_mul(self, rhs)
    }

    fn shr(self, n: usize) -> (r: Self) {
        if n >= 32 {
            proof {
                lemma2_to64();
                lemma_shift_past_width(self as nat, 32, n as nat);
            }
            0
        } else {
            proof {
                lemma_u32_shr_is_div(self, n as u32);
            }
            self >> n
        }
    }

    fn shl(self, n: usize) -> (r: Self) {
        if n >= 32 {
            proof {
                lemma_pow2_pos(32);
                lemma_pow2_adds(32, (n - 32) as nat);
                lemma_mod_multiples_basic(
                    (self as nat * pow2((n - 32) as nat)) as int,
                    pow2(32) as int,
                );
                assert(self as nat * pow2(n as nat) == (self as nat * pow2((n - 32) as nat))
                    * pow2(32)) by (nonlinear_arith)
                    requires
                        pow2(n as nat) == pow2(32) * pow2((n - 32) as nat),
                ;
            }
            0
        } else {
            proof {
                lemma_u32_shl_wraps(self, n as u32);
            }
            self << n
        }
    }

    fn is_zero(self) -> (r: bool) {
        self == 0
    }

    fn is_at_most(self, rhs: Self) -> (r: bool) {
        self <= rhs
    }

    fn bitand(self, rhs: Self) -> (r: Self) {
        self & rhs
    }

    fn bitor(self, rhs: Self) -> (r: Self) {
        self | rhs
    }
}


} // verus!
