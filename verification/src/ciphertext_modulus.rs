//! The modulus of the scalars of a ciphertext.
use crate::numeric::UnsignedInteger;
use vstd::arithmetic::power2::*;
use vstd::prelude::*;

verus! {

/// The modulus that ciphertext scalars are taken by: either the native one,
/// `2^bits` for a word of `bits` bits, or a custom one that the word can
/// hold.
pub struct CiphertextModulus<T: UnsignedInteger> {
    // Zero stands for the native modulus, as it is its residue.
    residue: T,
}

impl<T: UnsignedInteger> Clone for CiphertextModulus<T> {
    fn clone(&self) -> (copy: Self)
        ensures
            copy == *self,
    {
        *self
    }
}

impl<T: UnsignedInteger> Copy for CiphertextModulus<T> {

}

impl<T: UnsignedInteger> CiphertextModulus<T> {
    /// The modulus as a number: `2^bits` when it is native.
    pub closed spec fn spec_modulus(&self) -> nat {
        if self.residue.as_nat() == 0 {
            pow2(T::spec_bits())
        } else {
            self.residue.as_nat()
        }
    }

    /// Whether the modulus is the native one.
    pub open spec fn spec_is_native(&self) -> bool {
        self.spec_modulus() == pow2(T::spec_bits())
    }

    /// A modulus is at least one and at most `2^bits`.
    pub proof fn lemma_modulus_range(&self)
        ensures
            1 <= self.spec_modulus() <= pow2(T::spec_bits()),
    {
        self.residue.lemma_as_nat_bound();
    }

    /// The native modulus `2^bits`.
    pub fn new_native() -> (modulus: Self)
        ensures
            modulus.spec_is_native(),
    {
        CiphertextModulus { residue: T::zero() }
    }

    /// The modulus whose residue modulo `2^bits` is `modulus`: the native
    /// modulus for zero, the custom modulus `modulus` for any other word.
    pub fn new(modulus: T) -> (ciphertext_modulus: Self)
        ensures
            ciphertext_modulus.spec_modulus() == (if modulus.as_nat() == 0 {
                pow2(T::spec_bits())
            } else {
                modulus.as_nat()
            }),
    {
        CiphertextModulus { residue: modulus }
    }

    /// Whether the modulus is the native one.
    pub fn is_native_modulus(&self) -> (native: bool)
        ensures
            native == self.spec_is_native(),
            1 <= self.spec_modulus() <= pow2(T::spec_bits()),
    {
        proof {
            self.residue.lemma_as_nat_bound();
        }
        self.residue.is_zero()
    }

    /// The custom modulus, or `None` when the modulus is the native one.
    pub fn get_custom_modulus(&self) -> (modulus: Option<T>)
        ensures
            modulus is None <==> self.spec_is_native(),
            modulus is Some ==> modulus.unwrap().as_nat() == self.spec_modulus(),
    {
        proof {
            self.residue.lemma_as_nat_bound();
        }
        if self.residue.is_zero() {
            None
        } else {
            Some(self.residue)
        }
    }
}

} // verus!
