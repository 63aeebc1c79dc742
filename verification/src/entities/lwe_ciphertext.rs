//! LWE ciphertexts.
use crate::entities::lwe_secret_key::scalars_as_nat;
use crate::numeric::UnsignedInteger;
use crate::parameters::LweSize;
use vstd::prelude::*;

verus! {

/// What an LWE ciphertext stands for: the numbers of its mask and of its
/// body.
pub struct LweCiphertextView {
    pub mask: Seq<nat>,
    pub body: nat,
}

/// An LWE ciphertext: a mask of as many scalars as the key has, and a body.
pub struct LweCiphertext<T: UnsignedInteger> {
    pub mask: Vec<T>,
    pub body: T,
}

impl<T: UnsignedInteger> View for LweCiphertext<T> {
    type V = LweCiphertextView;

    open spec fn view(&self) -> LweCiphertextView {
        LweCiphertextView { mask: scalars_as_nat(self.mask@), body: self.body.as_nat() }
    }
}

impl<T: UnsignedInteger> LweCiphertext<T> {
    /// The ciphertext of the given size whose scalars all hold `fill_with`.
    pub fn new(fill_with: T, lwe_size: LweSize) -> (ciphertext: Self)
        requires
            lwe_size.0 >= 1,
        ensures
            ciphertext@.mask == Seq::new((lwe_size.0 - 1) as nat, |i: int| fill_with.as_nat()),
            ciphertext@.body == fill_with.as_nat(),
    {
        let mut mask: Vec<T> = Vec::new();
        let mut i: usize = 0;
        while i < lwe_size.0 - 1
            invariant
                lwe_size.0 >= 1,
                i <= lwe_size.0 - 1,
                mask@.len() == i,
                forall|k: int| 0 <= k < i ==> #[trigger] mask@[k] == fill_with,
            decreases lwe_size.0 - 1 - i,
        {
            mask.push(fill_with);
            i += 1;
        }
        let ciphertext = LweCiphertext { mask, body: fill_with };
        assert(ciphertext@.mask =~= Seq::new(
            (lwe_size.0 - 1) as nat,
            |i: int| fill_with.as_nat(),
        ));
        ciphertext
    }

    /// The number of scalars of the ciphertext.
    pub fn lwe_size(&self) -> (size: LweSize)
        requires
            self@.mask.len() < usize::MAX,
        ensures
            size.0 == self@.mask.len() + 1,
    {
        LweSize(self.mask.len() + 1)
    }
}

} // verus!
