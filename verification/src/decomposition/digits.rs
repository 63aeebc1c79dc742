//! The balanced digits of a natural number in a base that is a power of two.
//!
//! A decomposition consumes a number from its low end. Each step takes the
//! residue modulo the base, rounds it into the balanced range
//! `[-base/2, base/2]` by borrowing one unit of the next digit when needed,
//! and leaves the rest for the following steps.
use vstd::arithmetic::div_mod::*;
use vstd::arithmetic::mul::*;
use vstd::arithmetic::power2::*;
use vstd::prelude::*;

verus! {

/// The rounding decision taken on the residue `residue` of the current digit
/// when `rest` is what lies above it: 1 when the residue is over half the
/// base, or is exactly half the base while the next digit lies in the upper
/// half of its range; 0 otherwise.
pub open spec fn carry_of(residue: nat, rest: nat, base_log: nat) -> nat {
    let half = pow2((base_log - 1) as nat);
    if residue > half || (residue == half && (rest / half) % 2 == 1) {
        1
    } else {
        0
    }
}

/// The carry that the lowest digit of `state` sends into the next one.
pub open spec fn rounding_carry(state: nat, base_log: nat) -> nat {
    carry_of(state % pow2(base_log), state / pow2(base_log), base_log)
}

/// The lowest balanced digit of `state` in base `2^base_log`.
pub open spec fn balanced_digit(state: nat, base_log: nat) -> int {
    (state % pow2(base_log)) - rounding_carry(state, base_log) * pow2(base_log)
}

/// What is left of `state` once its lowest balanced digit is taken away.
pub open spec fn next_state(state: nat, base_log: nat) -> nat {
    state / pow2(base_log) + rounding_carry(state, base_log)
}

/// What is left of `state` once `steps` balanced digits are taken away.
pub open spec fn state_after(state: nat, base_log: nat, steps: nat) -> nat
    decreases steps,
{
    if steps == 0 {
        state
    } else {
        next_state(state_after(state, base_log, (steps - 1) as nat), base_log)
    }
}

/// The balanced digit of `state` at position `index`, counted from the low
/// end and from zero.
pub open spec fn digit_at(state: nat, base_log: nat, index: nat) -> int {
    balanced_digit(state_after(state, base_log, index), base_log)
}

/// The number that the `count` lowest balanced digits of `state` stand for:
/// the digit at position `i` weighs `2^(base_log * i)`.
pub open spec fn weighted_sum(state: nat, base_log: nat, count: nat) -> int
    decreases count,
{
    if count == 0 {
        0
    } else {
        weighted_sum(state, base_log, (count - 1) as nat) + digit_at(
            state,
            base_log,
            (count - 1) as nat,
        ) * pow2(base_log * ((count - 1) as nat))
    }
}

/// A power of two whose exponent is a product splits off one factor.
pub proof fn lemma_pow2_product_step(base_log: nat, count: nat)
    requires
        count >= 1,
    ensures
        pow2(base_log * count) == pow2(base_log) * pow2(base_log * ((count - 1) as nat)),
{
    assert(base_log * count == base_log + base_log * ((count - 1) as nat)) by (nonlinear_arith)
        requires
            count >= 1,
    ;
    lemma_pow2_adds(base_log, base_log * ((count - 1) as nat));
}

/// A state is its lowest balanced digit plus the base times what is left,
/// and that digit lies in `[-base/2, base/2]`.
pub proof fn lemma_digit_step(state: nat, base_log: nat)
    requires
        base_log >= 1,
    ensures
        state == balanced_digit(state, base_log) + pow2(base_log) * next_state(state, base_log),
        -pow2((base_log - 1) as nat) <= balanced_digit(state, base_log) <= pow2(
            (base_log - 1) as nat,
        ),
{
    let base = pow2(base_log);
    let half = pow2((base_log - 1) as nat);
    let residue = state % base;
    let rest = state / base;
    let carry = rounding_carry(state, base_log);
    lemma_pow2_pos(base_log);
    lemma_pow2_unfold(base_log);
    assert(base == 2 * half);
    lemma_fundamental_div_mod(state as int, base as int);
    lemma_mod_bound(state as int, base as int);
    assert(state == base * rest + residue);
    assert(base * (rest + carry) == base * rest + carry * base) by (nonlinear_arith);
    if carry == 1 {
        assert(carry * base == base);
    } else {
        assert(carry == 0);
        assert(carry * base == 0);
    }
}

/// Taking one digit away from a state of at most `count` digits leaves at
/// most `count - 1` digits.
pub proof fn lemma_next_state_bound(state: nat, base_log: nat, count: nat)
    requires
        base_log >= 1,
        count >= 1,
        state <= pow2(base_log * count),
    ensures
        next_state(state, base_log) <= pow2(base_log * ((count - 1) as nat)),
{
    let base = pow2(base_log);
    let upper = pow2(base_log * ((count - 1) as nat));
    lemma_pow2_pos(base_log);
    lemma_pow2_pos((base_log - 1) as nat);
    lemma_pow2_product_step(base_log, count);
    if state == base * upper {
        lemma_mul_is_commutative(base as int, upper as int);
        lemma_mod_multiples_basic(upper as int, base as int);
        lemma_div_by_multiple(upper as int, base as int);
        assert(state % base == 0);
        assert(state / base == upper);
    } else {
        lemma_multiply_divide_lt(state as int, base as int, upper as int);
    }
}

/// What is left after `steps` digits of a state of at most `count` digits
/// has at most `count - steps` digits.
pub proof fn lemma_state_after_bound(state: nat, base_log: nat, count: nat, steps: nat)
    requires
        base_log >= 1,
        steps <= count,
        state <= pow2(base_log * count),
    ensures
        state_after(state, base_log, steps) <= pow2(base_log * ((count - steps) as nat)),
    decreases steps,
{
    if steps > 0 {
        lemma_state_after_bound(state, base_log, count, (steps - 1) as nat);
        lemma_next_state_bound(
            state_after(state, base_log, (steps - 1) as nat),
            base_log,
            (count - steps + 1) as nat,
        );
    }
}

/// A state is the number its `count` lowest balanced digits stand for, plus
/// `2^(base_log * count)` times what is left after them.
pub proof fn lemma_weighted_sum(state: nat, base_log: nat, count: nat)
    requires
        base_log >= 1,
    ensures
        state == weighted_sum(state, base_log, count) + pow2(base_log * count) * state_after(
            state,
            base_log,
            count,
        ),
    decreases count,
{
    if count == 0 {
        assert(base_log * 0 == 0) by (nonlinear_arith);
        lemma2_to64();
    } else {
        let before = (count - 1) as nat;
        let left = state_after(state, base_log, before);
        let weight = pow2(base_log * before);
        let digit = balanced_digit(left, base_log);
        let after = next_state(left, base_log);
        lemma_weighted_sum(state, base_log, before);
        lemma_digit_step(left, base_log);
        lemma_pow2_product_step(base_log, count);
        assert(weight * left == digit * weight + (pow2(base_log) * weight) * after)
            by (nonlinear_arith)
            requires
                left == digit + pow2(base_log) * after,
        ;
    }
}

/// The balanced digits of a state of at most `count` digits stand for the
/// state, up to one carry out of the highest digit: each lies in
/// `[-base/2, base/2]`, what is left after them is zero or one, and their
/// weighted sum is the state less `2^(base_log * count)` times what is left.
pub proof fn lemma_digits_stand_for_state(state: nat, base_log: nat, count: nat)
    requires
        base_log >= 1,
        state < pow2(base_log * count),
    ensures
        state_after(state, base_log, count) <= 1,
        weighted_sum(state, base_log, count) == state - pow2(base_log * count) * state_after(
            state,
            base_log,
            count,
        ),
        forall|index: nat|
            index < count ==> -pow2((base_log - 1) as nat) <= #[trigger] digit_at(
                state,
                base_log,
                index,
            ) <= pow2((base_log - 1) as nat),
{
    lemma_state_after_bound(state, base_log, count, count);
    lemma_weighted_sum(state, base_log, count);
    assert(base_log * 0 == 0) by (nonlinear_arith);
    lemma2_to64();
    assert forall|index: nat| index < count implies -pow2((base_log - 1) as nat)
        <= #[trigger] digit_at(state, base_log, index) <= pow2((base_log - 1) as nat) by {
        lemma_digit_step(state_after(state, base_log, index), base_log);
    }
}

} // verus!
