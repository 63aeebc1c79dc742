//! Lists of LWE ciphertexts of one size, held in one buffer.
use crate::entities::lwe_ciphertext::{LweCiphertext, LweCiphertextView};
use crate::entities::lwe_secret_key::scalars_as_nat;
use crate::numeric::UnsignedInteger;
use crate::parameters::{LweCiphertextCount, LweSize};
use vstd::arithmetic::div_mod::*;
use vstd::arithmetic::mul::*;
use vstd::prelude::*;

verus! {

/// The ciphertext of `lwe_size` scalars at position `index` of a buffer that
/// holds ciphertexts one after the other, each as its mask and then its
/// body.
pub open spec fn ciphertext_at(buffer: Seq<nat>, index: int, lwe_size: int) -> LweCiphertextView {
    LweCiphertextView {
        mask: buffer.subrange(index * lwe_size, index * lwe_size + lwe_size - 1),
        body: buffer[index * lwe_size + lwe_size - 1],
    }
}

/// The slot of each of `count` items of `lwe_size` scalars lies within the
/// `count * lwe_size` scalars of all of them.
pub proof fn lemma_slot_bounds(index: int, count: int, lwe_size: int)
    requires
        0 <= index < count,
        lwe_size >= 0,
    ensures
        0 <= index * lwe_size,
        index * lwe_size + lwe_size <= count * lwe_size,
{
    lemma_mul_nonnegative(index, lwe_size);
    lemma_mul_inequality(index + 1, count, lwe_size);
    lemma_mul_is_distributive_add_other_way(lwe_size, index, 1);
}

/// The slot of an item ends where the slot of a later item starts, or
/// before.
pub proof fn lemma_slots_disjoint(first: int, second: int, lwe_size: int)
    requires
        0 <= first < second,
        lwe_size >= 0,
    ensures
        first * lwe_size + lwe_size <= second * lwe_size,
{
    lemma_mul_inequality(first + 1, second, lwe_size);
    lemma_mul_is_distributive_add_other_way(lwe_size, first, 1);
}

/// A list of LWE ciphertexts of one size.
pub struct LweCiphertextList<T: UnsignedInteger> {
    data: Vec<T>,
    lwe_size: usize,
    count: usize,
}

impl<T: UnsignedInteger> View for LweCiphertextList<T> {
    type V = Seq<LweCiphertextView>;

    closed spec fn view(&self) -> Seq<LweCiphertextView> {
        Seq::new(
            self.count as nat,
            |i: int| ciphertext_at(scalars_as_nat(self.data@), i, self.lwe_size as int),
        )
    }
}

impl<T: UnsignedInteger> LweCiphertextList<T> {
    /// The size of each ciphertext of the list.
    pub closed spec fn spec_lwe_size(&self) -> nat {
        self.lwe_size as nat
    }

    /// The scalars of the buffer of the list, as numbers.
    pub closed spec fn buffer(&self) -> Seq<nat> {
        scalars_as_nat(self.data@)
    }

    /// Whether the list is consistent: each ciphertext has a body, so a
    /// mask of one scalar less than its size, and the buffer holds exactly
    /// the ciphertexts.
    pub closed spec fn wf(&self) -> bool {
        &&& self.lwe_size >= 1
        &&& self.data@.len() == self.count * self.lwe_size
    }

    /// In a consistent list every mask has one scalar less than the size,
    /// and the buffer holds the ciphertexts one after the other.
    pub proof fn lemma_wf(&self)
        requires
            self.wf(),
        ensures
            self.spec_lwe_size() >= 1,
            self.buffer().len() == self@.len() * self.spec_lwe_size(),
            forall|i: int|
                0 <= i < self@.len() ==> (#[trigger] self@[i]).mask.len() == self.spec_lwe_size()
                    - 1,
            forall|i: int|
                0 <= i < self@.len() ==> #[trigger] self@[i] == ciphertext_at(
                    self.buffer(),
                    i,
                    self.spec_lwe_size() as int,
                ),
    {
        assert forall|i: int| 0 <= i < self@.len() implies (#[trigger] self@[i]).mask.len()
            == self.spec_lwe_size() - 1 by {
            lemma_slot_bounds(i, self.count as int, self.lwe_size as int);
        }
    }

    /// The list of `count` ciphertexts of the given size whose scalars all
    /// hold `fill_with`.
    pub fn new(fill_with: T, lwe_size: LweSize, count: LweCiphertextCount) -> (list: Self)
        requires
            lwe_size.0 >= 1,
            count.0 * lwe_size.0 <= usize::MAX,
        ensures
            list.wf(),
            list.spec_lwe_size() == lwe_size.0,
            list@.len() == count.0,
            forall|i: int|
                0 <= i < count.0 ==> #[trigger] list@[i] == (LweCiphertextView {
                    mask: Seq::new((lwe_size.0 - 1) as nat, |j: int| fill_with.as_nat()),
                    body: fill_with.as_nat(),
                }),
    {
        let total = count.0 * lwe_size.0;
        let mut data: Vec<T> = Vec::new();
        let mut i: usize = 0;
        while i < total
            invariant
                i <= total,
                data@.len() == i,
                forall|k: int| 0 <= k < i ==> #[trigger] data@[k] == fill_with,
            decreases total - i,
        {
            data.push(fill_with);
            i += 1;
        }
        let list = LweCiphertextList { data, lwe_size: lwe_size.0, count: count.0 };
        proof {
            assert forall|i: int| 0 <= i < count.0 implies #[trigger] list@[i] == (
            LweCiphertextView {
                mask: Seq::new((lwe_size.0 - 1) as nat, |j: int| fill_with.as_nat()),
                body: fill_with.as_nat(),
            }) by {
                lemma_slot_bounds(i, count.0 as int, lwe_size.0 as int);
                assert(list@[i].mask =~= Seq::new(
                    (lwe_size.0 - 1) as nat,
                    |j: int| fill_with.as_nat(),
                ));
            }
        }
        list
    }

    /// The list of the ciphertexts of the given size that the scalars of
    /// `container` hold one after the other, each as its mask and then its
    /// body.
    pub fn from_container(container: Vec<T>, lwe_size: LweSize) -> (list: Self)
        requires
            lwe_size.0 >= 1,
            container@.len() % (lwe_size.0 as nat) == 0,
        ensures
            list.wf(),
            list.spec_lwe_size() == lwe_size.0,
            list@.len() == container@.len() / (lwe_size.0 as nat),
            list.buffer() == scalars_as_nat(container@),
    {
        let count = container.len() / lwe_size.0;
        proof {
            lemma_fundamental_div_mod(container@.len() as int, lwe_size.0 as int);
            lemma_mul_is_commutative(count as int, lwe_size.0 as int);
        }
        LweCiphertextList { data: container, lwe_size: lwe_size.0, count }
    }

    /// The scalars of the list, which is given up for them.
    pub fn into_container(self) -> (container: Vec<T>)
        ensures
            scalars_as_nat(container@) == self.buffer(),
    {
        self.data
    }

    /// The size of each ciphertext of the list.
    pub fn lwe_size(&self) -> (size: LweSize)
        ensures
            size.0 == self.spec_lwe_size(),
    {
        LweSize(self.lwe_size)
    }

    /// The number of ciphertexts of the list.
    pub fn lwe_ciphertext_count(&self) -> (count: LweCiphertextCount)
        ensures
            count.0 == self@.len(),
    {
        LweCiphertextCount(self.count)
    }

    /// The scalars of the list: the ciphertexts one after the other, each as
    /// its mask and then its body.
    pub fn as_ref(&self) -> (scalars: &Vec<T>)
        ensures
            scalars_as_nat(scalars@) == self.buffer(),
    {
        &self.data
    }

    /// A copy of the ciphertext at `index`.
    pub fn get(&self, index: usize) -> (ciphertext: LweCiphertext<T>)
        requires
            self.wf(),
            index < self@.len(),
        ensures
            ciphertext@ == self@[index as int],
    {
        let total = self.data.len();
        proof {
            lemma_slot_bounds(index as int, self.count as int, self.lwe_size as int);
            assert(index * self.lwe_size + self.lwe_size <= total);
        }
        let offset = index * self.lwe_size;
        let mask_len = self.lwe_size - 1;
        let mut mask: Vec<T> = Vec::new();
        let mut j: usize = 0;
        while j < mask_len
            invariant
                j <= mask_len,
                mask_len == self.lwe_size - 1,
                total == self.data@.len(),
                offset + self.lwe_size <= total,
                mask@.len() == j,
                forall|k: int| 0 <= k < j ==> #[trigger] mask@[k] == self.data@[offset + k],
            decreases mask_len - j,
        {
            mask.push(self.data[offset + j]);
            j += 1;
        }
        let ciphertext = LweCiphertext { mask, body: self.data[offset + mask_len] };
        assert(ciphertext@.mask =~= self@[index as int].mask);
        ciphertext
    }

    /// Puts a copy of `ciphertext` at `index`.
    pub fn set(&mut self, index: usize, ciphertext: &LweCiphertext<T>)
        requires
            old(self).wf(),
            index < old(self)@.len(),
            ciphertext@.mask.len() == old(self).spec_lwe_size() - 1,
        ensures
            final(self).wf(),
            final(self).spec_lwe_size() == old(self).spec_lwe_size(),
            final(self)@ == old(self)@.update(index as int, ciphertext@),
    {
        let total = self.data.len();
        proof {
            lemma_slot_bounds(index as int, self.count as int, self.lwe_size as int);
            assert(index * self.lwe_size + self.lwe_size <= total);
        }
        let offset = index * self.lwe_size;
        let mask_len = self.lwe_size - 1;
        let mut j: usize = 0;
        while j < mask_len
            invariant
                j <= mask_len,
                mask_len == self.lwe_size - 1,
                mask_len == ciphertext.mask@.len(),
                self.lwe_size == old(self).lwe_size,
                self.count == old(self).count,
                self.data@.len() == old(self).data@.len(),
                total == self.data@.len(),
                offset + self.lwe_size <= total,
                forall|k: int| 0 <= k < j ==> #[trigger] self.data@[offset + k] == ciphertext.mask@[k],
                forall|k: int|
                    0 <= k < self.data@.len() && !(offset <= k < offset + j)
                        ==> #[trigger] self.data@[k] == old(self).data@[k],
            decreases mask_len - j,
        {
            self.data.set(offset + j, ciphertext.mask[j]);
            j += 1;
        }
        let ghost filled = self.data@;
        self.data.set(offset + mask_len, ciphertext.body);
        proof {
            let size = self.lwe_size as int;
            assert forall|k: int| 0 <= k < mask_len implies self.data@[offset + k]
                == ciphertext.mask@[k] by {
                assert(filled[offset + k] == ciphertext.mask@[k]);
            }
            assert forall|i: int| 0 <= i < self.count implies #[trigger] self@[i] == old(
                self,
            )@.update(index as int, ciphertext@)[i] by {
                lemma_slot_bounds(i, self.count as int, size);
                if i < index {
                    lemma_slots_disjoint(i, index as int, size);
                    assert(self@[i].mask =~= old(self)@[i].mask);
                } else if i > index {
                    lemma_slots_disjoint(index as int, i, size);
                    assert(self@[i].mask =~= old(self)@[i].mask);
                } else {
                    assert(self@[i].mask =~= ciphertext@.mask);
                }
            }
            assert(self@ =~= old(self)@.update(index as int, ciphertext@));
        }
    }
}

} // verus!
