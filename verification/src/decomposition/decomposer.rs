//! The decomposer: rounds a scalar to what a decomposition can represent,
//! decomposes it, and recomposes the terms.
use crate::decomposition::digits::{
    digit_at,
    lemma_weighted_sum,
    state_after,
    weighted_sum,
};
use crate::decomposition::iter::{DecompositionState, SignedDecompositionIter};
use crate::decomposition::term::word_of;
use crate::numeric::{bit_and, UnsignedInteger};
use crate::parameters::{DecompositionBaseLog, DecompositionLevelCount};
use std::marker::PhantomData;
use vstd::arithmetic::div_mod::*;
use vstd::arithmetic::mul::*;
use vstd::arithmetic::power2::*;
use vstd::bits::*;
use vstd::prelude::*;

verus! {

/// The multiple of `2^low_bits` that is closest to `x`, the upper one of two
/// that are equally close.
pub open spec fn round_to_multiple(x: nat, low_bits: nat) -> nat {
    if low_bits == 0 {
        x
    } else {
        ((x + pow2((low_bits - 1) as nat)) / pow2(low_bits)) * pow2(low_bits)
    }
}

/// The word of `width` bits closest to `x` among those whose `low_bits` low
/// bits are zero. Rounding up from the top of the range wraps to zero.
pub open spec fn closest_word(x: nat, low_bits: nat, width: nat) -> nat {
    round_to_multiple(x, low_bits) % pow2(width)
}

/// The bit of a 64-bit word at a given position, isolated by a mask and
/// shifted down, is the parity of the word shifted down.
proof fn lemma_isolated_bit(x: u64, position: u64)
    by (bit_vector)
    requires
        position < 64,
    ensures
        (x & (1u64 << position)) >> position == (x >> position) % 2,
{
}

/// Conjunction with `2^position`, divided by `2^position`, is the bit of
/// `x` at that position.
proof fn lemma_bit_at(x: nat, position: nat)
    requires
        x < pow2(64),
        position < 64,
    ensures
        bit_and(x, pow2(position)) / pow2(position) == (x / pow2(position)) % 2,
{
    lemma2_to64_rest();
    let word = x as u64;
    let p = position as u64;
    lemma_u64_pow2_no_overflow(position);
    lemma_u64_shl_is_mul(1u64, p);
    lemma_u64_shr_is_div(word, p);
    lemma_u64_shr_is_div(word & (1u64 << p), p);
    lemma_isolated_bit(word, p);
}

/// Adding the bit just below the kept part to the kept part rounds to the
/// closest multiple.
proof fn lemma_rounding(x: nat, low_bits: nat)
    requires
        low_bits >= 1,
    ensures
        (x / pow2(low_bits) + (x / pow2((low_bits - 1) as nat)) % 2) * pow2(low_bits)
            == round_to_multiple(x, low_bits),
{
    let half = pow2((low_bits - 1) as nat) as int;
    let upper = x as int / half;
    lemma_pow2_pos((low_bits - 1) as nat);
    lemma_pow2_unfold(low_bits);
    lemma_div_denominator(x as int, half, 2);
    lemma_div_denominator(x + half, half, 2);
    lemma_div_plus_one(x as int, half);
    assert(pow2(low_bits) == half * 2);
    assert(x as int / (half * 2) == upper / 2);
    assert((x + half) / (half * 2) == (upper + 1) / 2);
}

/// Adding the summand of one more term to the recomposition of the first
/// `count` digits gives the recomposition of the first `count + 1` digits.
proof fn lemma_recompose_step(
    state: nat,
    base_log: nat,
    low_bits: nat,
    count: nat,
    width: nat,
    summand: nat,
)
    requires
        summand == (word_of(digit_at(state, base_log, count), width) * pow2(
            low_bits + base_log * count,
        )) % pow2(width),
    ensures
        (word_of(pow2(low_bits) * weighted_sum(state, base_log, count), width) + summand) % pow2(
            width,
        ) == word_of(pow2(low_bits) * weighted_sum(state, base_log, count + 1), width),
{
    let modulus = pow2(width) as int;
    let digit = digit_at(state, base_log, count);
    let scale = pow2(low_bits) as int;
    let weight = pow2(base_log * count) as int;
    let sum = weighted_sum(state, base_log, count);
    lemma_pow2_pos(width);
    lemma_pow2_adds(low_bits, base_log * count);
    lemma_mul_mod_noop_left(digit, scale * weight, modulus);
    lemma_add_mod_noop(scale * sum, digit * (scale * weight), modulus);
    assert(scale * sum + digit * (scale * weight) == scale * (sum + digit * weight))
        by (nonlinear_arith);
}

/// The recomposition of all the digits of a state is the state moved up by
/// the low bits, modulo the range of the word.
pub proof fn lemma_recompose_all(state: nat, base_log: nat, level_count: nat, width: nat)
    requires
        base_log >= 1,
        base_log * level_count <= width,
        state <= pow2(base_log * level_count),
    ensures
        word_of(
            pow2((width - base_log * level_count) as nat) * weighted_sum(
                state,
                base_log,
                level_count,
            ),
            width,
        ) == (state * pow2((width - base_log * level_count) as nat)) % pow2(width),
{
    let low_bits = (width - base_log * level_count) as nat;
    let scale = pow2(low_bits) as int;
    let top = pow2(base_log * level_count) as int;
    let left = state_after(state, base_log, level_count) as int;
    let sum = weighted_sum(state, base_log, level_count);
    lemma_pow2_pos(width);
    lemma_weighted_sum(state, base_log, level_count);
    lemma_pow2_adds(low_bits, base_log * level_count);
    assert(scale * sum == state * scale + pow2(width) * (-left)) by (nonlinear_arith)
        requires
            state == sum + top * left,
            pow2(width) == scale * top,
    ;
    lemma_mod_multiples_vanish(-left, state * scale, pow2(width) as int);
}

/// How far apart two words of `width` bits are on the circle of residues
/// modulo `2^width`.
pub open spec fn wrapping_distance(a: nat, b: nat, width: nat) -> nat {
    let forward = ((a - b) % (pow2(width) as int)) as nat;
    let backward = ((b - a) % (pow2(width) as int)) as nat;
    if forward <= backward {
        forward
    } else {
        backward
    }
}

/// The closest word is a multiple of `2^low_bits`, and it lies within half
/// of `2^low_bits` of `x` on the circle of residues: strictly within, unless
/// `x` is half-way between two multiples.
pub proof fn lemma_closest_word(x: nat, low_bits: nat, width: nat)
    requires
        x < pow2(width),
        low_bits <= width,
    ensures
        closest_word(x, low_bits, width) < pow2(width),
        closest_word(x, low_bits, width) % pow2(low_bits) == 0,
        2 * wrapping_distance(x, closest_word(x, low_bits, width), width) <= pow2(low_bits),
        low_bits == 0 || x % pow2(low_bits) != pow2((low_bits - 1) as nat) ==> 2
            * wrapping_distance(x, closest_word(x, low_bits, width), width) < pow2(low_bits),
{
    let range = pow2(width) as int;
    let step = pow2(low_bits) as int;
    let closest = closest_word(x, low_bits, width);
    lemma_pow2_pos(width);
    lemma_pow2_pos(low_bits);
    lemma_mod_bound(round_to_multiple(x, low_bits) as int, range);
    if low_bits == 0 {
        lemma2_to64();
        lemma_small_mod(x, range as nat);
        lemma_small_mod(0, range as nat);
    } else {
        let half = pow2((low_bits - 1) as nat) as int;
        let kept = x as int / step;
        let low = x as int % step;
        let steps = pow2((width - low_bits) as nat) as int;
        lemma_pow2_pos((low_bits - 1) as nat);
        lemma_pow2_unfold(low_bits);
        lemma_pow2_adds(low_bits, (width - low_bits) as nat);
        lemma_fundamental_div_mod(x as int, step);
        lemma_mod_bound(x as int, step);
        lemma_multiply_divide_lt(x as int, step, steps);
        assert(range == step * steps);
        assert(kept < steps);
        assert(step * kept <= step * (steps - 1)) by (nonlinear_arith)
            requires
                kept <= steps - 1,
                step > 0,
        ;
        assert(step * (steps - 1) == range - step) by (nonlinear_arith)
            requires
                range == step * steps,
        ;
        if low < half {
            lemma_fundamental_div_mod_converse_div(x + half, step, kept, low + half);
            assert(round_to_multiple(x, low_bits) == kept * step);
            lemma_mul_is_commutative(kept, step);
            lemma_small_mod((step * kept) as nat, range as nat);
            assert(closest == step * kept);
            lemma_mod_multiples_basic(kept, step);
            lemma_small_mod(low as nat, range as nat);
            assert(x - closest == low);
        } else {
            assert((kept + 1) * step == step * kept + step) by (nonlinear_arith);
            lemma_fundamental_div_mod_converse_div(x + half, step, kept + 1, low - half);
            assert(round_to_multiple(x, low_bits) == (kept + 1) * step);
            lemma_mod_multiples_basic(kept + 1, step);
            if step * kept + step == range {
                lemma_mod_self_0(range);
                assert(closest == 0);
                lemma_mod_self_0(step);
                lemma_small_mod(0, step as nat);
                lemma_mod_add_multiples_vanish(0 - x, range);
                lemma_small_mod((range - x) as nat, range as nat);
                assert(closest - x + range == step - low);
            } else {
                lemma_small_mod((step * kept + step) as nat, range as nat);
                assert(closest == step * kept + step);
                lemma_small_mod((step - low) as nat, range as nat);
                assert(closest - x == step - low);
            }
        }
    }
}

/// Decomposing a scalar with the decomposer and weighing each digit by its
/// level gives back the closest representable scalar, which lies within half
/// the weight of the last level of the scalar: strictly within, unless the
/// scalar is half-way between two representable ones.
///
/// The digits are those of the closest representable scalar with its low
/// bits dropped, lowest first; the digit at position `i` weighs
/// `2^(base_log * i)`, and the sum is moved up by the low bits.
pub proof fn lemma_round_trip(x: nat, base_log: nat, level_count: nat, width: nat)
    requires
        x < pow2(width),
        base_log >= 1,
        base_log * level_count <= width,
    ensures
        ({
            let low_bits = (width - base_log * level_count) as nat;
            let closest = closest_word(x, low_bits, width);
            let recomposed = word_of(
                pow2(low_bits) * weighted_sum(closest / pow2(low_bits), base_log, level_count),
                width,
            );
            &&& recomposed == closest
            &&& 2 * wrapping_distance(x, recomposed, width) <= pow2(low_bits)
            &&& low_bits == 0 || x % pow2(low_bits) != pow2((low_bits - 1) as nat) ==> 2
                * wrapping_distance(x, recomposed, width) < pow2(low_bits)
        }),
{
    let low_bits = (width - base_log * level_count) as nat;
    let closest = closest_word(x, low_bits, width);
    let state = closest / pow2(low_bits);
    lemma_closest_word(x, low_bits, width);
    lemma_pow2_pos(low_bits);
    lemma_pow2_adds(low_bits, base_log * level_count);
    lemma_multiply_divide_lt(
        closest as int,
        pow2(low_bits) as int,
        pow2(base_log * level_count) as int,
    );
    lemma_recompose_all(state, base_log, level_count, width);
    lemma_fundamental_div_mod(closest as int, pow2(low_bits) as int);
    lemma_mul_is_commutative(state as int, pow2(low_bits) as int);
    lemma_small_mod(closest, pow2(width));
}

/// Decomposing a scalar as it is, without rounding it first, and weighing
/// each digit by its level gives back the scalar with its low bits cleared.
pub proof fn lemma_truncated_round_trip(x: nat, base_log: nat, level_count: nat, width: nat)
    requires
        x < pow2(width),
        base_log >= 1,
        base_log * level_count <= width,
    ensures
        ({
            let low_bits = (width - base_log * level_count) as nat;
            word_of(
                pow2(low_bits) * weighted_sum(x / pow2(low_bits), base_log, level_count),
                width,
            ) == x - x % pow2(low_bits)
        }),
{
    let low_bits = (width - base_log * level_count) as nat;
    let state = x / pow2(low_bits);
    lemma_pow2_pos(low_bits);
    lemma_pow2_adds(low_bits, base_log * level_count);
    lemma_multiply_divide_lt(x as int, pow2(low_bits) as int, pow2(base_log * level_count) as int);
    lemma_recompose_all(state, base_log, level_count, width);
    lemma_fundamental_div_mod(x as int, pow2(low_bits) as int);
    lemma_mod_bound(x as int, pow2(low_bits) as int);
    lemma_mul_is_commutative(state as int, pow2(low_bits) as int);
    lemma_small_mod((x - x % pow2(low_bits)) as nat, pow2(width));
}

/// Rounds scalars to what a decomposition in base `2^base_log` with
/// `level_count` levels can represent, decomposes them and recomposes them.
pub struct SignedDecomposer<T: UnsignedInteger> {
    base_log: usize,
    level_count: usize,
    integer_type: PhantomData<T>,
}

impl<T: UnsignedInteger> SignedDecomposer<T> {
    #[verifier::type_invariant]
    spec fn well_formed(self) -> bool {
        &&& self.base_log >= 1
        &&& self.base_log * self.level_count <= T::spec_bits()
    }

    /// The logarithm in base two of the base.
    pub closed spec fn spec_base_log(&self) -> nat {
        self.base_log as nat
    }

    /// The number of levels.
    pub closed spec fn spec_level_count(&self) -> nat {
        self.level_count as nat
    }

    /// The number of low bits of a scalar that the decomposition cannot
    /// represent.
    pub open spec fn spec_low_bits(&self) -> nat {
        (T::spec_bits() - self.spec_base_log() * self.spec_level_count()) as nat
    }

    /// Makes the decomposer for the base `2^base_log` and `level_count`
    /// levels.
    pub fn new(
        base_log: DecompositionBaseLog,
        level_count: DecompositionLevelCount,
    ) -> (decomposer: Self)
        requires
            base_log.0 >= 1,
            base_log.0 * level_count.0 <= T::spec_bits(),
        ensures
            decomposer.spec_base_log() == base_log.0,
            decomposer.spec_level_count() == level_count.0,
    {
        SignedDecomposer {
            base_log: base_log.0,
            level_count: level_count.0,
            integer_type: PhantomData,
        }
    }

    /// The logarithm in base two of the base of this decomposer.
    pub fn base_log(&self) -> (base_log: DecompositionBaseLog)
        ensures
            base_log.0 == self.spec_base_log(),
            base_log.0 >= 1,
            base_log.0 * self.spec_level_count() <= T::spec_bits(),
    {
        proof {
            use_type_invariant(self);
        }
        DecompositionBaseLog(self.base_log)
    }

    /// The number of levels of this decomposer.
    pub fn level_count(&self) -> (level_count: DecompositionLevelCount)
        ensures
            level_count.0 == self.spec_level_count(),
            self.spec_base_log() >= 1,
            self.spec_base_log() * level_count.0 <= T::spec_bits(),
    {
        proof {
            use_type_invariant(self);
        }
        DecompositionLevelCount(self.level_count)
    }

    /// The scalar closest to `input` among those that the decomposition
    /// represents exactly: those whose low bits below the last level are
    /// zero. Of two that are equally close it is the upper one, and rounding
    /// up from the top of the range wraps to zero.
    pub fn closest_representable(&self, input: T) -> (closest: T)
        ensures
            closest.as_nat() == closest_word(input.as_nat(), self.spec_low_bits(), T::spec_bits()),
    {
        let ghost width = T::spec_bits();
        let ghost x = input.as_nat();
        proof {
            use_type_invariant(self);
            T::lemma_bits_range();
            input.lemma_as_nat_bound();
            lemma_pow2_pos(width);
        }
        // The number of low bits that the decomposition cannot represent
        let non_rep_bit_count: usize = T::bits() - self.base_log * self.level_count;
        if non_rep_bit_count == 0 {
            proof {
                lemma_small_mod(x, pow2(width));
            }
            return input;
        }
        let ghost half_log = (non_rep_bit_count - 1) as nat;
        proof {
            lemma2_to64_rest();
            lemma_pow2_pos(half_log);
            lemma_pow2_pos(non_rep_bit_count as nat);
            if width < 64 {
                lemma_pow2_strictly_increases(width, 64);
            }
            lemma_pow2_strictly_increases(half_log, width);
            lemma_mul_basics(pow2(half_log) as int);
            lemma_small_mod(pow2(half_log), pow2(width));
            lemma_bit_at(x, half_log);
            lemma_rounding(x, non_rep_bit_count as nat);
        }
        // The mask of the highest of them
        let non_rep_mask = T::one().shl(non_rep_bit_count - 1);
        let non_rep_bits = input.bitand(non_rep_mask);
        // That bit decides the rounding
        let non_rep_msb = non_rep_bits.shr(non_rep_bit_count - 1);
        // We remove the low bits and round
        let res = input.shr(non_rep_bit_count);
        proof {
            // The kept part is under half the range, so adding one bit fits.
            lemma_pow2_unfold(width);
            lemma_pow2_unfold(non_rep_bit_count as nat);
            lemma_div_is_ordered_by_denominator(x as int, 2, pow2(non_rep_bit_count as nat) as int);
            lemma_small_mod((res.as_nat() + non_rep_msb.as_nat()) as nat, pow2(width));
        }
        let res = res.wrapping_add(non_rep_msb);
        res.shl(non_rep_bit_count)
    }

    /// Puts the terms of a decomposition back together: the sum, modulo the
    /// range of the word, of what each term contributes. Only a fresh
    /// iterator still holds all its terms, so any other gives `None`.
    pub fn recompose(&self, decomp: SignedDecompositionIter<T>) -> (recomposed: Option<T>)
        ensures
            recomposed is Some <==> decomp@.fresh,
            recomposed is Some ==> recomposed.unwrap().as_nat() == word_of(
                pow2((T::spec_bits() - decomp@.base_log * decomp@.level_count) as nat)
                    * weighted_sum(decomp@.state, decomp@.base_log, decomp@.level_count),
                T::spec_bits(),
            ),
            recomposed is Some ==> recomposed.unwrap().as_nat() == (decomp@.state * pow2(
                (T::spec_bits() - decomp@.base_log * decomp@.level_count) as nat,
            )) % pow2(T::spec_bits()),
    {
        let mut decomp = decomp;
        if !decomp.is_fresh() {
            return None;
        }
        let ghost start = decomp@;
        let ghost width = T::spec_bits();
        let ghost low_bits = (width - start.base_log * start.level_count) as nat;
        let ghost count: nat = 0;
        let mut acc = T::zero();
        proof {
            lemma_pow2_pos(width);
            lemma_mul_basics(pow2(low_bits) as int);
            lemma_small_mod(0, pow2(width));
        }
        loop
            invariant
                start.valid(width),
                width == T::spec_bits(),
                low_bits == width - start.base_log * start.level_count,
                count <= start.level_count,
                decomp@ == (DecompositionState {
                    current_level: (start.level_count - count) as nat,
                    state: state_after(start.state, start.base_log, count),
                    fresh: decomp@.fresh,
                    ..start
                }),
                acc.as_nat() == word_of(
                    pow2(low_bits) * weighted_sum(start.state, start.base_log, count),
                    width,
                ),
            ensures
                count == start.level_count,
            decreases start.level_count - count,
        {
            let next = decomp.next();
            if next.is_none() {
                break ;
            }
            let term = next.unwrap();
            proof {
                assert(start.base_log * (start.level_count - count) + start.base_log * count
                    == start.base_log * start.level_count) by (nonlinear_arith)
                    requires
                        count <= start.level_count,
                ;
            }
            let summand = term.to_recomposition_summand();
            proof {
                lemma_recompose_step(
                    start.state,
                    start.base_log,
                    low_bits,
                    count,
                    width,
                    summand.as_nat(),
                );
                count = count + 1;
            }
            acc = acc.wrapping_add(summand);
        }
        proof {
            lemma_recompose_all(start.state, start.base_log, start.level_count, width);
        }
        Some(acc)
    }

    /// Starts the decomposition of the scalar closest to `input` that the
    /// decomposition represents exactly.
    pub fn decompose(&self, input: T) -> (iter: SignedDecompositionIter<T>)
        ensures
            iter@.valid(T::spec_bits()),
            iter@ == (DecompositionState {
                base_log: self.spec_base_log(),
                level_count: self.spec_level_count(),
                current_level: self.spec_level_count(),
                state: closest_word(input.as_nat(), self.spec_low_bits(), T::spec_bits()) / pow2(
                    self.spec_low_bits(),
                ),
                fresh: true,
            }),
    {
        proof {
            use_type_invariant(self);
        }
        SignedDecompositionIter::new(
            self.closest_representable(input),
            DecompositionBaseLog(self.base_log),
            DecompositionLevelCount(self.level_count),
        )
    }
}

} // verus!
