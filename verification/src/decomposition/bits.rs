//! The rounding rule of the decomposition in its bitwise form.
use crate::decomposition::digits::carry_of;
use crate::numeric::{bit_and, bit_or, lemma_shift_past_width};
use vstd::arithmetic::div_mod::*;
use vstd::arithmetic::power2::*;
use vstd::bits::*;
use vstd::prelude::*;

verus! {

/// The word of `width` bits whose `base_log` low bits are set, all of them
/// once `base_log` reaches the width: `2^base_log - 1` modulo `2^width`.
pub open spec fn mask_value(base_log: nat, width: nat) -> nat {
    ((pow2(base_log) - 1) % (pow2(width) as int)) as nat
}

/// Below the width the mask is `2^base_log - 1`; from the width on it is
/// `2^width - 1`.
pub proof fn lemma_mask_value(base_log: nat, width: nat)
    ensures
        base_log < width ==> mask_value(base_log, width) == pow2(base_log) - 1,
        base_log >= width ==> mask_value(base_log, width) == pow2(width) - 1,
{
    let modulus = pow2(width) as int;
    lemma_pow2_pos(base_log);
    lemma_pow2_pos(width);
    if base_log < width {
        lemma_pow2_strictly_increases(base_log, width);
        lemma_small_mod((pow2(base_log) - 1) as nat, pow2(width));
    } else {
        let factor = pow2((base_log - width) as nat) as int;
        lemma_pow2_pos((base_log - width) as nat);
        lemma_pow2_adds(width, (base_log - width) as nat);
        assert(pow2(base_log) - 1 == modulus * (factor - 1) + (modulus - 1)) by (nonlinear_arith)
            requires
                pow2(base_log) == modulus * factor,
        ;
        lemma_mod_multiples_vanish(factor - 1, modulus - 1, modulus);
        lemma_small_mod((modulus - 1) as nat, modulus as nat);
    }
}

/// Conjunction with the all-ones word keeps a 64-bit word.
proof fn lemma_and_all_ones(x: u64)
    by (bit_vector)
    ensures
        x & 0xffff_ffff_ffff_ffff == x,
{
}

/// Conjunction with the mask of `base_log` bits is the residue modulo
/// `2^base_log`.
pub proof fn lemma_mask_is_residue(x: nat, base_log: nat, width: nat)
    requires
        1 <= width <= 64,
        x < pow2(width),
    ensures
        bit_and(x, mask_value(base_log, width)) == x % pow2(base_log),
{
    lemma2_to64_rest();
    lemma_mask_value(base_log, width);
    lemma_pow2_pos(base_log);
    if width < 64 {
        lemma_pow2_strictly_increases(width, 64);
    }
    let bits = if base_log < width {
        base_log
    } else {
        width
    };
    if bits < 64 {
        lemma_u64_pow2_no_overflow(bits);
        lemma_u64_low_bits_mask_is_mod(x as u64, bits);
    } else {
        lemma_and_all_ones(x as u64);
    }
    if base_log >= width {
        if base_log > width {
            lemma_pow2_strictly_increases(width, base_log);
        }
        lemma_small_mod(x, pow2(width));
        lemma_small_mod(x, pow2(base_log));
    }
}

/// The bitwise rounding rule on 64-bit words: with `half_log` the position
/// of the top bit of a digit, the result is 1 exactly when the residue is
/// over half the base, or is half the base while the same bit of the rest is
/// set.
proof fn lemma_carry_bits(residue: u64, rest: u64, lowered: u64, half_log: u64)
    by (bit_vector)
    requires
        half_log < 64,
        residue >> half_log <= 1,
        residue >= 1 ==> lowered == residue - 1,
    ensures
        ((lowered | rest) & residue) >> half_log == (if residue > (1u64 << half_log) || (residue
            == (1u64 << half_log) && (rest >> half_log) & 1 == 1) {
            1u64
        } else {
            0u64
        }),
{
}

/// The lowest bit of a 64-bit word is its residue modulo two.
proof fn lemma_low_bit(x: u64)
    by (bit_vector)
    ensures
        x & 1 == x % 2,
{
}

/// The bitwise formula `(((residue - 1) | rest) & residue) >> (base_log - 1)`
/// computes the rounding carry.
pub proof fn lemma_carry_formula(
    residue: nat,
    rest: nat,
    lowered: nat,
    base_log: nat,
    width: nat,
)
    requires
        1 <= width <= 64,
        1 <= base_log,
        residue < pow2(width),
        rest < pow2(width),
        lowered < pow2(width),
        residue < pow2(base_log),
        lowered == (residue - 1) % (pow2(width) as int),
    ensures
        bit_and(bit_or(lowered, rest), residue) / pow2((base_log - 1) as nat) == carry_of(
            residue,
            rest,
            base_log,
        ),
{
    let half_log = (base_log - 1) as nat;
    let half = pow2(half_log);
    let mixed = bit_and(bit_or(lowered, rest), residue);
    lemma2_to64_rest();
    lemma_pow2_pos(half_log);
    if width < 64 {
        lemma_pow2_strictly_increases(width, 64);
    }
    if half_log >= 64 {
        lemma_shift_past_width(mixed, 64, half_log);
        if half_log > 64 {
            lemma_pow2_strictly_increases(64, half_log);
        }
    } else {
        let r = residue as u64;
        let s = rest as u64;
        let d = lowered as u64;
        let h = half_log as u64;
        lemma_u64_pow2_no_overflow(half_log);
        lemma_u64_shl_is_mul(1u64, h);
        lemma_u64_shr_is_div(r, h);
        lemma_u64_shr_is_div(s, h);
        lemma_u64_shr_is_div(((d | s) & r), h);
        lemma_low_bit(s >> h);
        lemma_pow2_unfold(base_log);
        lemma_multiply_divide_lt(residue as int, half as int, 2);
        if residue >= 1 {
            lemma_small_mod((residue - 1) as nat, pow2(width));
        }
        lemma_carry_bits(r, s, d, h);
    }
}

} // verus!
