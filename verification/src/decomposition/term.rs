//! The terms that a decomposition yields.
use crate::ciphertext_modulus::CiphertextModulus;
use crate::numeric::UnsignedInteger;
use crate::parameters::{DecompositionBaseLog, DecompositionLevel};
use vstd::arithmetic::div_mod::*;
use vstd::arithmetic::power2::*;
use vstd::prelude::*;

verus! {

/// The integer that a word of `width` bits stands for when its top bit is
/// read as a sign, in two's complement.
pub open spec fn signed_value(word: nat, width: nat) -> int {
    if word < pow2((width - 1) as nat) {
        word as int
    } else {
        word - pow2(width)
    }
}

/// The word of `width` bits that stands for the integer `digit`: its residue
/// modulo `2^width`.
pub open spec fn word_of(digit: int, width: nat) -> nat {
    (digit % (pow2(width) as int)) as nat
}

/// The word of a balanced digit, read as a signed word, is within the
/// balanced range of the base; below the width of the word it is the digit
/// itself.
pub proof fn lemma_signed_word_of_digit(digit: int, base_log: nat, width: nat)
    requires
        base_log >= 1,
        width >= 1,
        -pow2((base_log - 1) as nat) <= digit <= pow2((base_log - 1) as nat),
    ensures
        word_of(digit, width) < pow2(width),
        -pow2((base_log - 1) as nat) <= signed_value(word_of(digit, width), width) <= pow2(
            (base_log - 1) as nat,
        ),
        base_log < width ==> signed_value(word_of(digit, width), width) == digit,
{
    let modulus = pow2(width) as int;
    let half = pow2((width - 1) as nat) as int;
    lemma_pow2_pos(width);
    lemma_pow2_pos((width - 1) as nat);
    lemma_pow2_unfold(width);
    lemma_mod_bound(digit, modulus);
    if base_log < width {
        if base_log < width - 1 {
            lemma_pow2_strictly_increases((base_log - 1) as nat, (width - 2) as nat);
        }
        lemma_pow2_unfold((width - 1) as nat);
        if digit >= 0 {
            lemma_small_mod(digit as nat, modulus as nat);
        } else {
            lemma_mod_add_multiples_vanish(digit, modulus);
            lemma_small_mod((digit + modulus) as nat, modulus as nat);
        }
    } else if base_log > width {
        lemma_pow2_strictly_increases((width - 1) as nat, (base_log - 1) as nat);
    }
}

/// One term of the signed decomposition of a scalar over the native modulus
/// `2^bits`: the digit `value`, read as a signed word, of the level `level`
/// in base `2^base_log`.
pub struct DecompositionTerm<T: UnsignedInteger> {
    pub level: usize,
    pub base_log: usize,
    pub value: T,
}

impl<T: UnsignedInteger> DecompositionTerm<T> {
    /// Builds the term of the given level, base and digit.
    pub fn new(level: DecompositionLevel, base_log: DecompositionBaseLog, value: T) -> (term: Self)
        ensures
            term == (DecompositionTerm { level: level.0, base_log: base_log.0, value }),
    {
        DecompositionTerm { level: level.0, base_log: base_log.0, value }
    }

    /// What the term contributes to the recomposed scalar: its digit times
    /// the weight `2^(bits - base_log * level)` of its level, modulo
    /// `2^bits`.
    pub fn to_recomposition_summand(&self) -> (summand: T)
        requires
            self.base_log * self.level <= T::spec_bits(),
        ensures
            summand.as_nat() == (self.value.as_nat() * pow2(
                (T::spec_bits() - self.base_log * self.level) as nat,
            )) % pow2(T::spec_bits()),
    {
        let shift = T::bits() - self.base_log * self.level;
        self.value.shl(shift)
    }

    /// The digit of the term.
    pub fn value(&self) -> (value: T)
        ensures
            value == self.value,
    {
        self.value
    }

    /// The level of the term.
    pub fn level(&self) -> (level: DecompositionLevel)
        ensures
            level.0 == self.level,
    {
        DecompositionLevel(self.level)
    }
}

/// One term of the signed decomposition of a scalar over a custom modulus:
/// the digit `value`, a residue modulo `ciphertext_modulus`, of the level
/// `level` in base `2^base_log`.
pub struct DecompositionTermNonNative<T: UnsignedInteger> {
    pub level: usize,
    pub base_log: usize,
    pub value: T,
    pub ciphertext_modulus: CiphertextModulus<T>,
}

impl<T: UnsignedInteger> DecompositionTermNonNative<T> {
    /// Builds the term of the given level, base, digit and modulus.
    pub fn new(
        level: DecompositionLevel,
        base_log: DecompositionBaseLog,
        value: T,
        ciphertext_modulus: CiphertextModulus<T>,
    ) -> (term: Self)
        ensures
            term == (DecompositionTermNonNative {
                level: level.0,
                base_log: base_log.0,
                value,
                ciphertext_modulus,
            }),
    {
        DecompositionTermNonNative { level: level.0, base_log: base_log.0, value, ciphertext_modulus }
    }

    /// The digit of the term.
    pub fn value(&self) -> (value: T)
        ensures
            value == self.value,
    {
        self.value
    }

    /// The level of the term.
    pub fn level(&self) -> (level: DecompositionLevel)
        ensures
            level.0 == self.level,
    {
        DecompositionLevel(self.level)
    }
}

} // verus!
