//! Plaintexts and lists of plaintexts.
use crate::entities::lwe_secret_key::scalars_as_nat;
use crate::numeric::UnsignedInteger;
use crate::parameters::PlaintextCount;
use vstd::prelude::*;

verus! {

/// A plaintext: the scalar that an encryption hides.
pub struct Plaintext<T: UnsignedInteger>(pub T);

/// A list of plaintexts.
pub struct PlaintextList<T: UnsignedInteger> {
    data: Vec<T>,
}

impl<T: UnsignedInteger> View for PlaintextList<T> {
    type V = Seq<nat>;

    closed spec fn view(&self) -> Seq<nat> {
        scalars_as_nat(self.data@)
    }
}

impl<T: UnsignedInteger> PlaintextList<T> {
    /// The list of `count` plaintexts that all hold `fill_with`.
    pub fn new(fill_with: T, count: PlaintextCount) -> (list: Self)
        ensures
            list@ == Seq::new(count.0 as nat, |i: int| fill_with.as_nat()),
    {
        let mut data: Vec<T> = Vec::new();
        let mut i: usize = 0;
        while i < count.0
            invariant
                i <= count.0,
                data@.len() == i,
                forall|k: int| 0 <= k < i ==> #[trigger] data@[k] == fill_with,
            decreases count.0 - i,
        {
            data.push(fill_with);
            i += 1;
        }
        let list = PlaintextList { data };
        assert(list@ =~= Seq::new(count.0 as nat, |i: int| fill_with.as_nat()));
        list
    }

    /// The number of plaintexts of the list.
    pub fn plaintext_count(&self) -> (count: PlaintextCount)
        ensures
            count.0 == self@.len(),
    {
        PlaintextCount(self.data.len())
    }

    /// The plaintext at `index`.
    pub fn get(&self, index: usize) -> (plaintext: Plaintext<T>)
        requires
            index < self@.len(),
        ensures
            plaintext.0.as_nat() == self@[index as int],
    {
        Plaintext(self.data[index])
    }

    /// Puts `plaintext` at `index`.
    pub fn set(&mut self, index: usize, plaintext: Plaintext<T>)
        requires
            index < old(self)@.len(),
        ensures
            final(self)@ == old(self)@.update(index as int, plaintext.0.as_nat()),
    {
        self.data.set(index, plaintext.0);
        assert(self@ =~= old(self)@.update(index as int, plaintext.0.as_nat()));
    }
}

} // verus!
