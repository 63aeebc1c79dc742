//! The iterator that yields the terms of a signed decomposition over the
//! native modulus.
use crate::decomposition::bits::{lemma_carry_formula, lemma_mask_is_residue, mask_value};
use crate::decomposition::digits::{
    balanced_digit,
    digit_at,
    state_after,
    lemma_digit_step,
    lemma_next_state_bound,
    next_state,
    rounding_carry,
};
use crate::ciphertext_modulus::CiphertextModulus;
use crate::decomposition::term::{
    lemma_signed_word_of_digit,
    signed_value,
    word_of,
    DecompositionTerm,
    DecompositionTermNonNative,
};
use crate::numeric::{lemma_bit_identities, UnsignedInteger};
use crate::parameters::{DecompositionBaseLog, DecompositionLevel, DecompositionLevelCount};
use vstd::arithmetic::div_mod::*;
use vstd::arithmetic::mul::*;
use vstd::arithmetic::power2::*;
use vstd::prelude::*;

verus! {

/// What a decomposition in progress stands for: its parameters, the level of
/// the term that comes next (zero once it is over), what is left of the
/// scalar, and whether a term was asked for yet.
pub struct DecompositionState {
    pub base_log: nat,
    pub level_count: nat,
    pub current_level: nat,
    pub state: nat,
    pub fresh: bool,
}

impl DecompositionState {
    /// What holds of every decomposition of a word of `width` bits: the base
    /// is at least two, the digits fit in the word, the current level is
    /// within the level count and equal to it while the iterator is fresh,
    /// and what is left has no more digits than there are levels left.
    pub open spec fn valid(self, width: nat) -> bool {
        &&& self.base_log >= 1
        &&& self.base_log * self.level_count <= width
        &&& self.current_level <= self.level_count
        &&& self.fresh ==> self.current_level == self.level_count
        &&& self.state <= pow2(self.base_log * self.current_level)
    }
}

/// Takes the residue of `state` modulo the base away from it, rounds, and
/// returns the residue and the rounding carry; what is left, carry
/// included, stays in `state`.
fn split_one_level<S: UnsignedInteger>(
    base_log: usize,
    state: &mut S,
    mod_b_mask: S,
) -> (parts: (S, S))
    requires
        base_log >= 1,
        mod_b_mask.as_nat() == mask_value(base_log as nat, S::spec_bits()),
    ensures
        parts.0.as_nat() == old(state).as_nat() % pow2(base_log as nat),
        parts.1.as_nat() == rounding_carry(old(state).as_nat(), base_log as nat),
        final(state).as_nat() == next_state(old(state).as_nat(), base_log as nat),
{
    let ghost before = state.as_nat();
    let ghost width = S::spec_bits();
    let ghost base = pow2(base_log as nat);
    proof {
        S::lemma_bits_range();
        state.lemma_as_nat_bound();
        lemma_pow2_pos(base_log as nat);
        lemma_pow2_pos(width);
        lemma_mask_is_residue(before, base_log as nat, width);
        lemma_mod_bound(before as int, base as int);
    }
    let res = (*state).bitand(mod_b_mask);
    *state = (*state).shr(base_log);
    let lowered = res.wrapping_sub(S::one());
    let mut carry = lowered.bitor(*state).bitand(res);
    carry = carry.shr(base_log - 1);
    proof {
        res.lemma_as_nat_bound();
        state.lemma_as_nat_bound();
        lowered.lemma_as_nat_bound();
        lemma_carry_formula(
            res.as_nat(),
            state.as_nat(),
            lowered.as_nat(),
            base_log as nat,
            width,
        );
        // What is left after the shift is under half the range, so the carry fits.
        lemma_pow2_unfold(base_log as nat);
        lemma_pow2_unfold(width);
        lemma_pow2_pos((base_log - 1) as nat);
        lemma_div_is_ordered_by_denominator(before as int, 2, base as int);
        lemma_small_mod((state.as_nat() + carry.as_nat()) as nat, pow2(width));
    }
    *state = (*state).wrapping_add(carry);
    (res, carry)
}

/// Takes the lowest balanced digit of `state` in base `2^base_log` away from
/// it and returns that digit as a signed word.
///
/// The digit is the residue of `state` modulo the base, rounded into
/// `[-base/2, base/2]`; the rounding carry is added to what is left.
pub fn decompose_one_level<S: UnsignedInteger>(
    base_log: usize,
    state: &mut S,
    mod_b_mask: S,
) -> (digit: S)
    requires
        base_log >= 1,
        mod_b_mask.as_nat() == mask_value(base_log as nat, S::spec_bits()),
    ensures
        final(state).as_nat() == next_state(old(state).as_nat(), base_log as nat),
        digit.as_nat() == word_of(
            balanced_digit(old(state).as_nat(), base_log as nat),
            S::spec_bits(),
        ),
        -pow2((base_log - 1) as nat) <= signed_value(digit.as_nat(), S::spec_bits()) <= pow2(
            (base_log - 1) as nat,
        ),
{
    let ghost before = state.as_nat();
    let ghost width = S::spec_bits();
    let (res, carry) = split_one_level(base_log, state, mod_b_mask);
    let scaled = carry.shl(base_log);
    proof {
        S::lemma_bits_range();
        lemma_pow2_pos(width);
        lemma_digit_step(before, base_log as nat);
        lemma_signed_word_of_digit(
            balanced_digit(before, base_log as nat),
            base_log as nat,
            width,
        );
        lemma_sub_mod_noop_right(
            res.as_nat() as int,
            (carry.as_nat() * pow2(base_log as nat)) as int,
            pow2(width) as int,
        );
    }
    res.wrapping_sub(scaled)
}

/// Whether `terms` is what a decomposition that stands at `start` yields
/// from there on: one term for each level from the current one down to
/// level one, each with the balanced digit of its position as a signed word.
pub open spec fn yields<T: UnsignedInteger>(
    start: DecompositionState,
    terms: Seq<DecompositionTerm<T>>,
) -> bool {
    &&& terms.len() == start.current_level
    &&& forall|k: int|
        0 <= k < terms.len() ==> {
            &&& (#[trigger] terms[k]).level == start.current_level - k
            &&& terms[k].base_log == start.base_log
            &&& terms[k].value.as_nat() == word_of(
                digit_at(start.state, start.base_log, k as nat),
                T::spec_bits(),
            )
        }
}

/// Two decompositions that stand at the same point yield the same terms.
pub proof fn lemma_yields_deterministic<T: UnsignedInteger>(
    start: DecompositionState,
    first: Seq<DecompositionTerm<T>>,
    second: Seq<DecompositionTerm<T>>,
)
    requires
        yields(start, first),
        yields(start, second),
    ensures
        first == second,
{
    assert forall|k: int| 0 <= k < first.len() implies first[k] == second[k] by {
        first[k].value.lemma_as_nat_injective(second[k].value);
    }
    assert(first =~= second);
}

/// A fresh decomposition yields exactly as many terms as it has levels, the
/// term of the highest level first and the term of level one last, and each
/// digit is within half the base in absolute value.
pub proof fn lemma_yields_in_order<T: UnsignedInteger>(
    start: DecompositionState,
    terms: Seq<DecompositionTerm<T>>,
)
    requires
        start.valid(T::spec_bits()),
        start.fresh,
        yields(start, terms),
    ensures
        terms.len() == start.level_count,
        forall|k: int| 0 <= k < terms.len() ==> (#[trigger] terms[k]).level == start.level_count - k,
        start.level_count > 0 ==> terms.first().level == start.level_count && terms.last().level
            == 1,
        forall|k: int|
            0 <= k < terms.len() ==> -pow2((start.base_log - 1) as nat) <= signed_value(
                (#[trigger] terms[k]).value.as_nat(),
                T::spec_bits(),
            ) <= pow2((start.base_log - 1) as nat),
{
    T::lemma_bits_range();
    assert forall|k: int| 0 <= k < terms.len() implies -pow2((start.base_log - 1) as nat)
        <= signed_value((#[trigger] terms[k]).value.as_nat(), T::spec_bits()) <= pow2(
        (start.base_log - 1) as nat,
    ) by {
        lemma_digit_step(state_after(start.state, start.base_log, k as nat), start.base_log);
        lemma_signed_word_of_digit(
            digit_at(start.state, start.base_log, k as nat),
            start.base_log,
            T::spec_bits(),
        );
    }
}

/// An iterator over the terms of the signed decomposition of a scalar.
///
/// The terms come from the highest level down to level one: the digit that
/// weighs least comes first.
pub struct SignedDecompositionIter<T: UnsignedInteger> {
    // The base log of the decomposition
    base_log: usize,
    // The number of levels of the decomposition
    level_count: usize,
    // What is left of the scalar
    state: T,
    // The level of the next term, zero once the decomposition is over
    current_level: usize,
    // The mask that takes a word modulo the base
    mod_b_mask: T,
    // Whether no term was asked for yet
    fresh: bool,
}

impl<T: UnsignedInteger> View for SignedDecompositionIter<T> {
    type V = DecompositionState;

    closed spec fn view(&self) -> DecompositionState {
        DecompositionState {
            base_log: self.base_log as nat,
            level_count: self.level_count as nat,
            current_level: self.current_level as nat,
            state: self.state.as_nat(),
            fresh: self.fresh,
        }
    }
}

impl<T: UnsignedInteger> SignedDecompositionIter<T> {
    #[verifier::type_invariant]
    spec fn well_formed(self) -> bool {
        &&& self@.valid(T::spec_bits())
        &&& self.mod_b_mask.as_nat() == mask_value(self.base_log as nat, T::spec_bits())
    }

    /// Starts the decomposition of `input` into `level` digits in base
    /// `2^base_log`: what is decomposed is the `base_log * level` high bits
    /// of `input`.
    pub fn new(
        input: T,
        base_log: DecompositionBaseLog,
        level: DecompositionLevelCount,
    ) -> (iter: Self)
        requires
            base_log.0 >= 1,
            base_log.0 * level.0 <= T::spec_bits(),
        ensures
            iter@.valid(T::spec_bits()),
            iter@ == (DecompositionState {
                base_log: base_log.0 as nat,
                level_count: level.0 as nat,
                current_level: level.0 as nat,
                state: input.as_nat() / pow2((T::spec_bits() - base_log.0 * level.0) as nat),
                fresh: true,
            }),
    {
        let ghost width = T::spec_bits();
        proof {
            T::lemma_bits_range();
        }
        let kept = base_log.0 * level.0;
        let state = input.shr(T::bits() - kept);
        let mod_b_mask = T::one().shl(base_log.0).wrapping_sub(T::one());
        proof {
            input.lemma_as_nat_bound();
            lemma_pow2_pos(width);
            lemma_pow2_pos((width - kept) as nat);
            lemma_pow2_adds((width - kept) as nat, kept as nat);
            lemma_multiply_divide_lt(
                input.as_nat() as int,
                pow2((width - kept) as nat) as int,
                pow2(kept as nat) as int,
            );
            lemma2_to64();
            lemma_pow2_strictly_increases(0, width);
            lemma_small_mod(1, pow2(width));
            lemma_sub_mod_noop(pow2(base_log.0 as nat) as int, 1, pow2(width) as int);
        }
        SignedDecompositionIter {
            base_log: base_log.0,
            level_count: level.0,
            state,
            current_level: level.0,
            mod_b_mask,
            fresh: true,
        }
    }

    /// Whether no term was asked of this iterator yet.
    pub fn is_fresh(&self) -> (fresh: bool)
        ensures
            self@.valid(T::spec_bits()),
            fresh == self@.fresh,
    {
        proof {
            use_type_invariant(self);
        }
        self.fresh
    }

    /// The logarithm in base two of the base of this decomposition.
    pub fn base_log(&self) -> (base_log: DecompositionBaseLog)
        ensures
            self@.valid(T::spec_bits()),
            base_log.0 == self@.base_log,
    {
        proof {
            use_type_invariant(self);
        }
        DecompositionBaseLog(self.base_log)
    }

    /// The number of levels of this decomposition.
    pub fn level_count(&self) -> (level_count: DecompositionLevelCount)
        ensures
            self@.valid(T::spec_bits()),
            level_count.0 == self@.level_count,
    {
        proof {
            use_type_invariant(self);
        }
        DecompositionLevelCount(self.level_count)
    }

    /// Yields the next term, if one is left, and is no longer fresh.
    ///
    /// The term carries the level that was current and the lowest balanced
    /// digit of what was left of the scalar.
    pub fn next(&mut self) -> (term: Option<DecompositionTerm<T>>)
        ensures
            old(self)@.valid(T::spec_bits()),
            final(self)@.valid(T::spec_bits()),
            old(self)@.current_level == 0 ==> term is None && final(self)@ == (DecompositionState {
                fresh: false,
                ..old(self)@
            }),
            old(self)@.current_level > 0 ==> term is Some && term.unwrap().level == old(
                self,
            )@.current_level && term.unwrap().base_log == old(self)@.base_log
                && term.unwrap().value.as_nat() == word_of(
                balanced_digit(old(self)@.state, old(self)@.base_log),
                T::spec_bits(),
            ) && -pow2((old(self)@.base_log - 1) as nat) <= signed_value(
                term.unwrap().value.as_nat(),
                T::spec_bits(),
            ) <= pow2((old(self)@.base_log - 1) as nat) && final(self)@ == (DecompositionState {
                current_level: (old(self)@.current_level - 1) as nat,
                state: next_state(old(self)@.state, old(self)@.base_log),
                fresh: false,
                ..old(self)@
            }),
    {
        proof {
            use_type_invariant(&*self);
        }
        // The iterator is not fresh anymore
        self.fresh = false;
        // We check if the decomposition is over
        if self.current_level == 0 {
            return None;
        }
        proof {
            lemma_next_state_bound(
                self.state.as_nat(),
                self.base_log as nat,
                self.current_level as nat,
            );
            assert(self.base_log * (self.current_level - 1) <= self.base_log * self.current_level)
                by (nonlinear_arith)
                requires
                    self.current_level >= 1,
            ;
            if self.base_log * (self.current_level - 1) < self.base_log * self.current_level {
                lemma_pow2_strictly_increases(
                    (self.base_log * (self.current_level - 1)) as nat,
                    (self.base_log * self.current_level) as nat,
                );
            }
        }
        // We decompose the current level
        let mut state = self.state;
        let output = decompose_one_level(self.base_log, &mut state, self.mod_b_mask);
        self.state = state;
        self.current_level -= 1;
        // We return the output for this level
        Some(
            DecompositionTerm::new(
                DecompositionLevel(self.current_level + 1),
                DecompositionBaseLog(self.base_log),
                output,
            ),
        )
    }

    /// Runs the decomposition to its end and returns the terms that were
    /// left, in the order in which they come.
    pub fn collect(self) -> (terms: Vec<DecompositionTerm<T>>)
        ensures
            self@.valid(T::spec_bits()),
            yields(self@, terms@),
    {
        let mut iter = self;
        let ghost start = iter@;
        let mut terms: Vec<DecompositionTerm<T>> = Vec::new();
        proof {
            use_type_invariant(&iter);
        }
        loop
            invariant
                start.valid(T::spec_bits()),
                terms@.len() <= start.current_level,
                iter@ == (DecompositionState {
                    current_level: (start.current_level - terms@.len()) as nat,
                    state: state_after(start.state, start.base_log, terms@.len()),
                    fresh: iter@.fresh,
                    ..start
                }),
                forall|k: int|
                    0 <= k < terms@.len() ==> {
                        &&& (#[trigger] terms@[k]).level == start.current_level - k
                        &&& terms@[k].base_log == start.base_log
                        &&& terms@[k].value.as_nat() == word_of(
                            digit_at(start.state, start.base_log, k as nat),
                            T::spec_bits(),
                        )
                    },
            ensures
                terms@.len() == start.current_level,
            decreases start.current_level - terms@.len(),
        {
            let next = iter.next();
            if next.is_none() {
                break ;
            }
            terms.push(next.unwrap());
        }
        terms
    }
}

/// The digit of the variant with a custom modulus before it is brought
/// modulo that modulus: the residue of `state` modulo the base, less `shift`
/// when the rounding carries, as a word.
pub open spec fn shifted_digit(state: nat, base_log: nat, shift: nat, width: nat) -> nat {
    word_of((state % pow2(base_log)) - rounding_carry(state, base_log) * shift, width)
}

/// Brings a signed word modulo a custom modulus: a word whose sign bit is
/// set has the modulus added to it, wrapping; any other stays.
pub open spec fn native_to_custom_mod(word: nat, modulus: nat, width: nat) -> nat {
    if word < pow2((width - 1) as nat) {
        word
    } else {
        (modulus + word) % pow2(width)
    }
}

/// The digit that one step of the decomposition over a custom modulus
/// yields.
pub open spec fn non_native_digit(
    state: nat,
    base_log: nat,
    shift: nat,
    modulus: nat,
    width: nat,
) -> nat {
    native_to_custom_mod(shifted_digit(state, base_log, shift, width), modulus, width)
}

/// With the base as the shift and a modulus that is at least the base, the
/// digit over the custom modulus is the balanced digit modulo that modulus,
/// and the balanced digit is at most half the modulus in absolute value.
pub proof fn lemma_non_native_digit(state: nat, base_log: nat, modulus: nat, width: nat)
    requires
        base_log >= 1,
        width >= 1,
        pow2(base_log) <= modulus < pow2(width),
    ensures
        non_native_digit(state, base_log, pow2(base_log), modulus, width) == balanced_digit(
            state,
            base_log,
        ) % (modulus as int),
        non_native_digit(state, base_log, pow2(base_log), modulus, width) < modulus,
        -modulus <= 2 * balanced_digit(state, base_log) <= modulus,
{
    let digit = balanced_digit(state, base_log);
    let range = pow2(width) as int;
    let word = word_of(digit, width);
    if base_log >= width {
        if base_log > width {
            lemma_pow2_strictly_increases(width, base_log);
        }
    }
    lemma_pow2_pos(width);
    lemma_pow2_pos((base_log - 1) as nat);
    lemma_pow2_unfold(base_log);
    lemma_pow2_unfold(width);
    lemma_digit_step(state, base_log);
    lemma_signed_word_of_digit(digit, base_log, width);
    lemma_mod_bound(digit, modulus as int);
    if digit >= 0 {
        lemma_small_mod(digit as nat, modulus);
    } else {
        lemma_mod_add_multiples_vanish(digit, modulus as int);
        lemma_small_mod((digit + modulus) as nat, modulus);
        lemma_mod_add_multiples_vanish(modulus + digit, range);
        lemma_small_mod((modulus + digit) as nat, range as nat);
        assert(modulus + word == (modulus + digit) + range);
    }
}

/// Takes the lowest digit of `state` in base `2^base_log` away from it, with
/// `shift` in place of the base where the rounding carries, and returns it
/// as a signed word.
pub fn decompose_one_level_w_shift<S: UnsignedInteger>(
    base_log: usize,
    state: &mut S,
    mod_b_mask: S,
    shift: S,
) -> (digit: S)
    requires
        base_log >= 1,
        mod_b_mask.as_nat() == mask_value(base_log as nat, S::spec_bits()),
    ensures
        final(state).as_nat() == next_state(old(state).as_nat(), base_log as nat),
        digit.as_nat() == shifted_digit(
            old(state).as_nat(),
            base_log as nat,
            shift.as_nat(),
            S::spec_bits(),
        ),
{
    let ghost width = S::spec_bits();
    let (res, carry) = split_one_level(base_log, state, mod_b_mask);
    let scaled = carry.wrapping_mul(shift);
    proof {
        lemma_pow2_pos(width);
        lemma_sub_mod_noop_right(
            res.as_nat() as int,
            (carry.as_nat() * shift.as_nat()) as int,
            pow2(width) as int,
        );
    }
    res.wrapping_sub(scaled)
}

/// Reads `input` as a signed word and returns its residue modulo `modulus`,
/// for an input that is at most half the modulus in absolute value: a word
/// whose sign bit is set has the modulus added to it, wrapping; any other
/// stays.
pub fn rem_euclid_native_to_custom_mod<S: UnsignedInteger>(input: S, modulus: S) -> (residue: S)
    ensures
        residue.as_nat() == native_to_custom_mod(
            input.as_nat(),
            modulus.as_nat(),
            S::spec_bits(),
        ),
{
    let ghost width = S::spec_bits();
    let ghost range = pow2(width);
    proof {
        S::lemma_bits_range();
        input.lemma_as_nat_bound();
        modulus.lemma_as_nat_bound();
        lemma2_to64_rest();
        lemma_pow2_pos(width);
        lemma_pow2_pos((width - 1) as nat);
        lemma_pow2_unfold(width);
        if width < 64 {
            lemma_pow2_strictly_increases(width, 64);
        }
        lemma_pow2_strictly_increases(0, width);
        lemma2_to64();
        lemma_multiply_divide_lt(input.as_nat() as int, pow2((width - 1) as nat) as int, 2);
    }
    let shifted = input.shr(S::bits() - 1);
    proof {
        lemma_bit_identities(shifted.as_nat());
        if input.as_nat() < pow2((width - 1) as nat) {
            lemma_basic_div(input.as_nat() as int, pow2((width - 1) as nat) as int);
        } else {
            lemma_div_non_zero(input.as_nat() as int, pow2((width - 1) as nat) as int);
        }
    }
    let sign_bit = shifted.bitand(S::one());
    let keep = S::one().wrapping_sub(sign_bit);
    proof {
        lemma_small_mod((1 - sign_bit.as_nat()) as nat, range);
        lemma_mul_basics(input.as_nat() as int);
        lemma_small_mod(input.as_nat(), range);
        lemma_small_mod(0, range);
    }
    let pos_res = keep.wrapping_mul(input);
    // The sign bit is set when the word stands for a negative number: adding
    // the modulus then wraps to its residue.
    let wrapped = modulus.wrapping_add(input);
    proof {
        wrapped.lemma_as_nat_bound();
        lemma_mul_basics(wrapped.as_nat() as int);
        lemma_small_mod(wrapped.as_nat(), range);
    }
    let neg_res = sign_bit.wrapping_mul(wrapped);
    proof {
        pos_res.lemma_as_nat_bound();
        neg_res.lemma_as_nat_bound();
        lemma_bit_identities(pos_res.as_nat());
        lemma_bit_identities(neg_res.as_nat());
    }
    // One of the two is zero
    pos_res.bitor(neg_res)
}

/// Takes the lowest digit of `state` in base `2^base_log` away from it and
/// returns it as a residue modulo `ciphertext_modulus`.
///
/// With the base as `shift` and a modulus that is at least the base, the
/// result is the balanced digit modulo the modulus.
pub fn decompose_one_level_non_native<S: UnsignedInteger>(
    base_log: usize,
    state: &mut S,
    mod_b_mask: S,
    ciphertext_modulus: S,
    shift: S,
) -> (digit: S)
    requires
        base_log >= 1,
        mod_b_mask.as_nat() == mask_value(base_log as nat, S::spec_bits()),
    ensures
        final(state).as_nat() == next_state(old(state).as_nat(), base_log as nat),
        digit.as_nat() == non_native_digit(
            old(state).as_nat(),
            base_log as nat,
            shift.as_nat(),
            ciphertext_modulus.as_nat(),
            S::spec_bits(),
        ),
        shift.as_nat() == pow2(base_log as nat) && pow2(base_log as nat)
            <= ciphertext_modulus.as_nat() ==> digit.as_nat() < ciphertext_modulus.as_nat()
            && digit.as_nat() == balanced_digit(old(state).as_nat(), base_log as nat) % (
        ciphertext_modulus.as_nat() as int) && -ciphertext_modulus.as_nat() <= 2 * balanced_digit(
            old(state).as_nat(),
            base_log as nat,
        ) <= ciphertext_modulus.as_nat(),
{
    proof {
        S::lemma_bits_range();
        ciphertext_modulus.lemma_as_nat_bound();
        if pow2(base_log as nat) <= ciphertext_modulus.as_nat() {
            lemma_non_native_digit(
                state.as_nat(),
                base_log as nat,
                ciphertext_modulus.as_nat(),
                S::spec_bits(),
            );
        }
    }
    let res = decompose_one_level_w_shift(base_log, state, mod_b_mask, shift);
    rem_euclid_native_to_custom_mod(res, ciphertext_modulus)
}

/// What a decomposition over a custom modulus in progress stands for.
pub struct NonNativeDecompositionState {
    pub base_log: nat,
    pub level_count: nat,
    pub current_level: nat,
    pub state: nat,
    pub shift: nat,
    pub modulus: nat,
    pub fresh: bool,
}

impl NonNativeDecompositionState {
    /// What holds of every decomposition of a word of `width` bits over a
    /// custom modulus: the base is at least two and at most the modulus,
    /// which the word can hold, and the current level is within the level
    /// count and equal to it while the iterator is fresh.
    pub open spec fn valid(self, width: nat) -> bool {
        &&& self.base_log >= 1
        &&& pow2(self.base_log) <= self.modulus < pow2(width)
        &&& self.current_level <= self.level_count
        &&& self.fresh ==> self.current_level == self.level_count
    }
}

/// Whether `terms` is what a decomposition over a custom modulus that stands
/// at `start` yields from there on: one term for each level from the current
/// one down to level one, each with the digit of its position as a residue
/// modulo the custom modulus.
pub open spec fn yields_non_native<T: UnsignedInteger>(
    start: NonNativeDecompositionState,
    terms: Seq<DecompositionTermNonNative<T>>,
) -> bool {
    &&& terms.len() == start.current_level
    &&& forall|k: int|
        0 <= k < terms.len() ==> {
            &&& (#[trigger] terms[k]).level == start.current_level - k
            &&& terms[k].base_log == start.base_log
            &&& terms[k].ciphertext_modulus.spec_modulus() == start.modulus
            &&& terms[k].value.as_nat() == non_native_digit(
                state_after(start.state, start.base_log, k as nat),
                start.base_log,
                start.shift,
                start.modulus,
                T::spec_bits(),
            )
        }
}

/// Two decompositions over a custom modulus that stand at the same point
/// yield terms of the same levels and digits.
pub proof fn lemma_yields_non_native_deterministic<T: UnsignedInteger>(
    start: NonNativeDecompositionState,
    first: Seq<DecompositionTermNonNative<T>>,
    second: Seq<DecompositionTermNonNative<T>>,
)
    requires
        yields_non_native(start, first),
        yields_non_native(start, second),
    ensures
        first.len() == second.len(),
        forall|k: int|
            0 <= k < first.len() ==> {
                &&& (#[trigger] first[k]).level == second[k].level
                &&& first[k].base_log == second[k].base_log
                &&& first[k].value == second[k].value
                &&& first[k].ciphertext_modulus.spec_modulus()
                    == second[k].ciphertext_modulus.spec_modulus()
            },
{
    assert forall|k: int| 0 <= k < first.len() implies (#[trigger] first[k]).value
        == second[k].value by {
        first[k].value.lemma_as_nat_injective(second[k].value);
    }
}

/// A fresh decomposition over a custom modulus yields exactly as many terms
/// as it has levels, the term of the highest level first and the term of
/// level one last. Where the shift is the base, each digit is below the
/// modulus and is the balanced digit of its position modulo the modulus,
/// which is at most half the modulus in absolute value.
pub proof fn lemma_yields_non_native_in_order<T: UnsignedInteger>(
    start: NonNativeDecompositionState,
    terms: Seq<DecompositionTermNonNative<T>>,
)
    requires
        start.valid(T::spec_bits()),
        start.fresh,
        yields_non_native(start, terms),
    ensures
        terms.len() == start.level_count,
        forall|k: int| 0 <= k < terms.len() ==> (#[trigger] terms[k]).level == start.level_count - k,
        start.level_count > 0 ==> terms.first().level == start.level_count && terms.last().level
            == 1,
        start.shift == pow2(start.base_log) ==> forall|k: int|
            0 <= k < terms.len() ==> {
                &&& (#[trigger] terms[k]).value.as_nat() < start.modulus
                &&& terms[k].value.as_nat() == digit_at(start.state, start.base_log, k as nat) % (
                start.modulus as int)
                &&& -start.modulus <= 2 * digit_at(start.state, start.base_log, k as nat)
                    <= start.modulus
            },
{
    T::lemma_bits_range();
    if start.shift == pow2(start.base_log) {
        assert forall|k: int| 0 <= k < terms.len() implies {
            &&& (#[trigger] terms[k]).value.as_nat() < start.modulus
            &&& terms[k].value.as_nat() == digit_at(start.state, start.base_log, k as nat) % (
            start.modulus as int)
            &&& -start.modulus <= 2 * digit_at(start.state, start.base_log, k as nat)
                <= start.modulus
        } by {
            lemma_non_native_digit(
                state_after(start.state, start.base_log, k as nat),
                start.base_log,
                start.modulus,
                T::spec_bits(),
            );
        }
    }
}

/// An iterator over the terms of the signed decomposition of a scalar over a
/// custom modulus.
///
/// The terms come from the highest level down to level one: the digit that
/// weighs least comes first.
pub struct SignedDecompositionIterNonNative<T: UnsignedInteger> {
    // The base log of the decomposition
    base_log: usize,
    // The number of levels of the decomposition
    level_count: usize,
    // What is left of the scalar
    state: T,
    // The level of the next term, zero once the decomposition is over
    current_level: usize,
    // The mask that takes a word modulo the base
    mod_b_mask: T,
    // The modulus of the ciphertexts
    ciphertext_modulus: CiphertextModulus<T>,
    // Whether no term was asked for yet
    fresh: bool,
    // What a carry takes away from a digit
    shift: T,
}

impl<T: UnsignedInteger> View for SignedDecompositionIterNonNative<T> {
    type V = NonNativeDecompositionState;

    closed spec fn view(&self) -> NonNativeDecompositionState {
        NonNativeDecompositionState {
            base_log: self.base_log as nat,
            level_count: self.level_count as nat,
            current_level: self.current_level as nat,
            state: self.state.as_nat(),
            shift: self.shift.as_nat(),
            modulus: self.ciphertext_modulus.spec_modulus(),
            fresh: self.fresh,
        }
    }
}

impl<T: UnsignedInteger> Clone for SignedDecompositionIterNonNative<T> {
    fn clone(&self) -> (copy: Self)
        ensures
            copy == *self,
    {
        proof {
            use_type_invariant(self);
        }
        SignedDecompositionIterNonNative {
            base_log: self.base_log,
            level_count: self.level_count,
            state: self.state,
            current_level: self.current_level,
            mod_b_mask: self.mod_b_mask,
            ciphertext_modulus: self.ciphertext_modulus,
            fresh: self.fresh,
            shift: self.shift,
        }
    }
}

impl<T: UnsignedInteger> SignedDecompositionIterNonNative<T> {
    #[verifier::type_invariant]
    spec fn well_formed(self) -> bool {
        &&& self@.valid(T::spec_bits())
        &&& self.mod_b_mask.as_nat() == mask_value(self.base_log as nat, T::spec_bits())
    }

    /// Whether a decomposition in base `2^base_log` can start over
    /// `ciphertext_modulus`: the modulus is a custom one, and the base is at
    /// most the modulus, so that a balanced digit is at most half the
    /// modulus in absolute value.
    pub fn base_fits_modulus(
        base_log: DecompositionBaseLog,
        ciphertext_modulus: &CiphertextModulus<T>,
    ) -> (fits: bool)
        ensures
            fits == (!ciphertext_modulus.spec_is_native() && pow2(base_log.0 as nat)
                <= ciphertext_modulus.spec_modulus()),
    {
        let ghost width = T::spec_bits();
        let modulus = match ciphertext_modulus.get_custom_modulus() {
            None => {
                return false;
            },
            Some(modulus) => modulus,
        };
        proof {
            T::lemma_bits_range();
            modulus.lemma_as_nat_bound();
            lemma_pow2_pos(width);
            lemma_mul_basics(pow2(base_log.0 as nat) as int);
            if base_log.0 < width {
                lemma_pow2_strictly_increases(base_log.0 as nat, width);
                lemma_small_mod(pow2(base_log.0 as nat), pow2(width));
            } else if base_log.0 > width {
                lemma_pow2_strictly_increases(width, base_log.0 as nat);
            }
        }
        // From the width of the word on, the base is over any modulus that
        // the word holds.
        base_log.0 < T::bits() && T::one().shl(base_log.0).is_at_most(modulus)
    }

    /// Starts a decomposition into `level` digits in base `2^base_log` over
    /// the custom modulus `ciphertext_modulus`, from the state and the shift
    /// given as a pair.
    ///
    /// The base must be at most the modulus, so that a balanced digit is at
    /// most half the modulus in absolute value: `base_fits_modulus` tells.
    pub fn new(
        state_and_shift: (T, T),
        base_log: DecompositionBaseLog,
        level: DecompositionLevelCount,
        ciphertext_modulus: CiphertextModulus<T>,
    ) -> (iter: Self)
        requires
            base_log.0 >= 1,
            !ciphertext_modulus.spec_is_native(),
            pow2(base_log.0 as nat) <= ciphertext_modulus.spec_modulus(),
        ensures
            iter@.valid(T::spec_bits()),
            iter@ == (NonNativeDecompositionState {
                base_log: base_log.0 as nat,
                level_count: level.0 as nat,
                current_level: level.0 as nat,
                state: state_and_shift.0.as_nat(),
                shift: state_and_shift.1.as_nat(),
                modulus: ciphertext_modulus.spec_modulus(),
                fresh: true,
            }),
    {
        let ghost width = T::spec_bits();
        proof {
            T::lemma_bits_range();
            ciphertext_modulus.lemma_modulus_range();
            lemma_pow2_pos(width);
            lemma2_to64();
            lemma_pow2_strictly_increases(0, width);
            lemma_small_mod(1, pow2(width));
            lemma_mul_basics(pow2(base_log.0 as nat) as int);
            lemma_small_mod(pow2(base_log.0 as nat), pow2(width));
            lemma_sub_mod_noop(pow2(base_log.0 as nat) as int, 1, pow2(width) as int);
        }
        let mod_b_mask = T::one().shl(base_log.0).wrapping_sub(T::one());
        SignedDecompositionIterNonNative {
            base_log: base_log.0,
            level_count: level.0,
            state: state_and_shift.0,
            current_level: level.0,
            mod_b_mask,
            ciphertext_modulus,
            fresh: true,
            shift: state_and_shift.1,
        }
    }

    /// Whether no term was asked of this iterator yet.
    pub fn is_fresh(&self) -> (fresh: bool)
        ensures
            self@.valid(T::spec_bits()),
            fresh == self@.fresh,
    {
        proof {
            use_type_invariant(self);
        }
        self.fresh
    }

    /// The logarithm in base two of the base of this decomposition.
    pub fn base_log(&self) -> (base_log: DecompositionBaseLog)
        ensures
            self@.valid(T::spec_bits()),
            base_log.0 == self@.base_log,
    {
        proof {
            use_type_invariant(self);
        }
        DecompositionBaseLog(self.base_log)
    }

    /// The number of levels of this decomposition.
    pub fn level_count(&self) -> (level_count: DecompositionLevelCount)
        ensures
            self@.valid(T::spec_bits()),
            level_count.0 == self@.level_count,
    {
        proof {
            use_type_invariant(self);
        }
        DecompositionLevelCount(self.level_count)
    }

    /// Yields the next term, if one is left, and is no longer fresh.
    ///
    /// The term carries the level that was current and the lowest digit of
    /// what was left of the scalar, as a residue modulo the custom modulus.
    /// Where the shift is the base, that digit is the balanced digit modulo
    /// the modulus, and the balanced digit is at most half the modulus in
    /// absolute value.
    pub fn next(&mut self) -> (term: Option<DecompositionTermNonNative<T>>)
        ensures
            old(self)@.valid(T::spec_bits()),
            final(self)@.valid(T::spec_bits()),
            old(self)@.current_level == 0 ==> term is None && final(self)@ == (
            NonNativeDecompositionState { fresh: false, ..old(self)@ }),
            old(self)@.current_level > 0 ==> term is Some && term.unwrap().level == old(
                self,
            )@.current_level && term.unwrap().base_log == old(self)@.base_log
                && term.unwrap().ciphertext_modulus.spec_modulus() == old(self)@.modulus
                && term.unwrap().value.as_nat() == non_native_digit(
                old(self)@.state,
                old(self)@.base_log,
                old(self)@.shift,
                old(self)@.modulus,
                T::spec_bits(),
            ) && final(self)@ == (NonNativeDecompositionState {
                current_level: (old(self)@.current_level - 1) as nat,
                state: next_state(old(self)@.state, old(self)@.base_log),
                fresh: false,
                ..old(self)@
            }),
            old(self)@.current_level > 0 && old(self)@.shift == pow2(old(self)@.base_log)
                ==> term.unwrap().value.as_nat() < old(self)@.modulus
                && term.unwrap().value.as_nat() == balanced_digit(
                old(self)@.state,
                old(self)@.base_log,
            ) % (old(self)@.modulus as int) && -old(self)@.modulus <= 2 * balanced_digit(
                old(self)@.state,
                old(self)@.base_log,
            ) <= old(self)@.modulus,
    {
        proof {
            use_type_invariant(&*self);
        }
        // The iterator is not fresh anymore
        self.fresh = false;
        // We check if the decomposition is over
        if self.current_level == 0 {
            return None;
        }
        let modulus = self.ciphertext_modulus.get_custom_modulus().unwrap();
        // We decompose the current level
        let mut state = self.state;
        let output = decompose_one_level_non_native(
            self.base_log,
            &mut state,
            self.mod_b_mask,
            modulus,
            self.shift,
        );
        self.state = state;
        self.current_level -= 1;
        // We return the output for this level
        Some(
            DecompositionTermNonNative::new(
                DecompositionLevel(self.current_level + 1),
                DecompositionBaseLog(self.base_log),
                output,
                self.ciphertext_modulus,
            ),
        )
    }

    /// Runs the decomposition to its end and returns the terms that were
    /// left, in the order in which they come.
    pub fn collect(self) -> (terms: Vec<DecompositionTermNonNative<T>>)
        ensures
            self@.valid(T::spec_bits()),
            yields_non_native(self@, terms@),
    {
        let mut iter = self;
        let ghost start = iter@;
        let mut terms: Vec<DecompositionTermNonNative<T>> = Vec::new();
        proof {
            use_type_invariant(&iter);
        }
        loop
            invariant
                start.valid(T::spec_bits()),
                terms@.len() <= start.current_level,
                iter@ == (NonNativeDecompositionState {
                    current_level: (start.current_level - terms@.len()) as nat,
                    state: state_after(start.state, start.base_log, terms@.len()),
                    fresh: iter@.fresh,
                    ..start
                }),
                forall|k: int|
                    0 <= k < terms@.len() ==> {
                        &&& (#[trigger] terms@[k]).level == start.current_level - k
                        &&& terms@[k].base_log == start.base_log
                        &&& terms@[k].ciphertext_modulus.spec_modulus() == start.modulus
                        &&& terms@[k].value.as_nat() == non_native_digit(
                            state_after(start.state, start.base_log, k as nat),
                            start.base_log,
                            start.shift,
                            start.modulus,
                            T::spec_bits(),
                        )
                    },
            ensures
                terms@.len() == start.current_level,
            decreases start.current_level - terms@.len(),
        {
            let next = iter.next();
            if next.is_none() {
                break ;
            }
            terms.push(next.unwrap());
        }
        terms
    }
}

} // verus!
