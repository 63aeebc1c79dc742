//! LWE key-switching keys.
use crate::entities::lwe_ciphertext::{LweCiphertext, LweCiphertextView};
use crate::entities::lwe_ciphertext_list::{
    lemma_slot_bounds,
    lemma_slots_disjoint,
    LweCiphertextList,
};
use crate::entities::lwe_secret_key::scalars_as_nat;
use crate::numeric::UnsignedInteger;
use crate::parameters::{
    DecompositionBaseLog,
    DecompositionLevel,
    DecompositionLevelCount,
    LweCiphertextCount,
    LweDimension,
    LweSize,
};
use vstd::arithmetic::div_mod::*;
use vstd::arithmetic::mul::*;
use vstd::prelude::*;

verus! {

/// A key-switching key from an input LWE secret key to an output LWE secret
/// key.
///
/// For each scalar of the input key it holds a block of ciphertexts under
/// the output key, one for each level of a decomposition. The blocks stand
/// one after the other in one buffer, in the order of the scalars of the
/// input key, and within a block the ciphertexts stand in the order of the
/// levels, level one first.
pub struct LweKeyswitchKey<T: UnsignedInteger> {
    list: LweCiphertextList<T>,
    decomp_base_log: usize,
    decomp_level_count: usize,
    input_lwe_dimension: usize,
}

impl<T: UnsignedInteger> LweKeyswitchKey<T> {
    /// The logarithm in base two of the base of the decomposition.
    pub closed spec fn spec_base_log(&self) -> nat {
        self.decomp_base_log as nat
    }

    /// The number of levels of the decomposition.
    pub closed spec fn spec_level_count(&self) -> nat {
        self.decomp_level_count as nat
    }

    /// The dimension of the input key.
    pub closed spec fn spec_input_dimension(&self) -> nat {
        self.input_lwe_dimension as nat
    }

    /// The dimension of the output key.
    pub closed spec fn spec_output_dimension(&self) -> nat {
        (self.list.spec_lwe_size() - 1) as nat
    }

    /// All the ciphertexts of the key, block after block.
    pub closed spec fn ciphertexts(&self) -> Seq<LweCiphertextView> {
        self.list@
    }

    /// The scalars of the buffer of the key, as numbers.
    pub closed spec fn buffer(&self) -> Seq<nat> {
        self.list.buffer()
    }

    /// The block of the scalar of the input key at `index`: its ciphertexts
    /// in the order of the levels, level one first.
    pub open spec fn block(&self, index: int) -> Seq<LweCiphertextView> {
        self.ciphertexts().subrange(
            index * self.spec_level_count(),
            index * self.spec_level_count() + self.spec_level_count(),
        )
    }

    /// Whether the key is consistent: its decomposition has a base of at
    /// least two and digits that fit in a word, and it holds one ciphertext
    /// for each scalar of the input key and each level.
    pub closed spec fn wf(&self) -> bool {
        &&& self.list.wf()
        &&& self.decomp_base_log >= 1
        &&& self.decomp_base_log * self.decomp_level_count <= T::spec_bits()
        &&& self.list@.len() == self.input_lwe_dimension * self.decomp_level_count
    }

    /// A consistent key has one block for each scalar of the input key, each
    /// of one ciphertext for each level, each with a mask of the dimension of
    /// the output key, in a buffer of as many scalars as that makes.
    pub proof fn lemma_shape(&self)
        requires
            self.wf(),
        ensures
            self.spec_base_log() >= 1,
            self.spec_base_log() * self.spec_level_count() <= T::spec_bits(),
            self.ciphertexts().len() == self.spec_input_dimension() * self.spec_level_count(),
            self.buffer().len() == self.spec_input_dimension() * self.spec_level_count() * (
            self.spec_output_dimension() + 1),
            forall|i: int|
                0 <= i < self.spec_input_dimension() ==> (#[trigger] self.block(i)).len()
                    == self.spec_level_count(),
            forall|c: int|
                0 <= c < self.ciphertexts().len() ==> (#[trigger] self.ciphertexts()[c]).mask.len()
                    == self.spec_output_dimension(),
    {
        self.list.lemma_wf();
        assert forall|i: int| 0 <= i < self.spec_input_dimension() implies (#[trigger] self.block(
            i,
        )).len() == self.spec_level_count() by {
            lemma_slot_bounds(
                i,
                self.spec_input_dimension() as int,
                self.spec_level_count() as int,
            );
        }
    }

    /// The key with the given decomposition and dimensions whose scalars all
    /// hold `fill_with`.
    pub fn new(
        fill_with: T,
        decomp_base_log: DecompositionBaseLog,
        decomp_level_count: DecompositionLevelCount,
        input_key_lwe_dimension: LweDimension,
        output_key_lwe_dimension: LweDimension,
    ) -> (key: Self)
        requires
            decomp_base_log.0 >= 1,
            decomp_base_log.0 * decomp_level_count.0 <= T::spec_bits(),
            output_key_lwe_dimension.0 < usize::MAX,
            input_key_lwe_dimension.0 * decomp_level_count.0 * (output_key_lwe_dimension.0 + 1)
                <= usize::MAX,
        ensures
            key.wf(),
            key.spec_base_log() == decomp_base_log.0,
            key.spec_level_count() == decomp_level_count.0,
            key.spec_input_dimension() == input_key_lwe_dimension.0,
            key.spec_output_dimension() == output_key_lwe_dimension.0,
            forall|c: int|
                0 <= c < key.ciphertexts().len() ==> #[trigger] key.ciphertexts()[c] == (
                LweCiphertextView {
                    mask: Seq::new(output_key_lwe_dimension.0 as nat, |j: int| fill_with.as_nat()),
                    body: fill_with.as_nat(),
                }),
    {
        proof {
            // The product of the three is within the machine's range, so the
            // product of the first two is, as the third is at least one.
            lemma_mul_nonnegative(
                input_key_lwe_dimension.0 as int,
                decomp_level_count.0 as int,
            );
            lemma_mul_inequality(
                1,
                output_key_lwe_dimension.0 + 1,
                input_key_lwe_dimension.0 * decomp_level_count.0,
            );
            lemma_mul_is_commutative(
                output_key_lwe_dimension.0 + 1,
                input_key_lwe_dimension.0 * decomp_level_count.0,
            );
        }
        let count = input_key_lwe_dimension.0 * decomp_level_count.0;
        let list = LweCiphertextList::new(
            fill_with,
            LweSize(output_key_lwe_dimension.0 + 1),
            LweCiphertextCount(count),
        );
        LweKeyswitchKey {
            list,
            decomp_base_log: decomp_base_log.0,
            decomp_level_count: decomp_level_count.0,
            input_lwe_dimension: input_key_lwe_dimension.0,
        }
    }

    /// The key with the given decomposition and dimensions that the scalars
    /// of `container` hold, if there are as many as such a key has: one
    /// ciphertext under the output key for each scalar of the input key and
    /// each level.
    pub fn from_container(
        container: Vec<T>,
        decomp_base_log: DecompositionBaseLog,
        decomp_level_count: DecompositionLevelCount,
        input_key_lwe_dimension: LweDimension,
        output_key_lwe_dimension: LweDimension,
    ) -> (key: Option<Self>)
        requires
            decomp_base_log.0 >= 1,
            decomp_base_log.0 * decomp_level_count.0 <= T::spec_bits(),
            output_key_lwe_dimension.0 < usize::MAX,
        ensures
            key is Some <==> container@.len() == input_key_lwe_dimension.0 * decomp_level_count.0
                * (output_key_lwe_dimension.0 + 1),
            key is Some ==> {
                let key = key.unwrap();
                &&& key.wf()
                &&& key.spec_base_log() == decomp_base_log.0
                &&& key.spec_level_count() == decomp_level_count.0
                &&& key.spec_input_dimension() == input_key_lwe_dimension.0
                &&& key.spec_output_dimension() == output_key_lwe_dimension.0
                &&& key.buffer() == scalars_as_nat(container@)
            },
    {
        let ghost expected = input_key_lwe_dimension.0 * decomp_level_count.0 * (
        output_key_lwe_dimension.0 + 1);
        let length = container.len();
        proof {
            lemma_mul_nonnegative(
                input_key_lwe_dimension.0 as int,
                decomp_level_count.0 as int,
            );
        }
        let lwe_size = output_key_lwe_dimension.0 + 1;
        let count = match input_key_lwe_dimension.0.checked_mul(decomp_level_count.0) {
            Some(count) => count,
            None => {
                proof {
                    lemma_mul_inequality(
                        1,
                        lwe_size as int,
                        input_key_lwe_dimension.0 * decomp_level_count.0,
                    );
                    lemma_mul_is_commutative(
                        lwe_size as int,
                        input_key_lwe_dimension.0 * decomp_level_count.0,
                    );
                }
                return None;
            },
        };
        match count.checked_mul(lwe_size) {
            Some(total) => {
                if total != length {
                    return None;
                }
            },
            None => {
                return None;
            },
        }
        proof {
            lemma_mod_multiples_basic(count as int, lwe_size as int);
            lemma_div_by_multiple(count as int, lwe_size as int);
        }
        let list = LweCiphertextList::from_container(container, LweSize(lwe_size));
        Some(
            LweKeyswitchKey {
                list,
                decomp_base_log: decomp_base_log.0,
                decomp_level_count: decomp_level_count.0,
                input_lwe_dimension: input_key_lwe_dimension.0,
            },
        )
    }

    /// The logarithm in base two of the base of the decomposition.
    pub fn decomposition_base_log(&self) -> (base_log: DecompositionBaseLog)
        ensures
            base_log.0 == self.spec_base_log(),
    {
        DecompositionBaseLog(self.decomp_base_log)
    }

    /// The number of levels of the decomposition.
    pub fn decomposition_levels_count(&self) -> (level_count: DecompositionLevelCount)
        ensures
            level_count.0 == self.spec_level_count(),
    {
        DecompositionLevelCount(self.decomp_level_count)
    }

    /// The dimension of the input key.
    pub fn input_key_lwe_dimension(&self) -> (dimension: LweDimension)
        ensures
            dimension.0 == self.spec_input_dimension(),
    {
        LweDimension(self.input_lwe_dimension)
    }

    /// The dimension of the output key.
    pub fn output_key_lwe_dimension(&self) -> (dimension: LweDimension)
        requires
            self.wf(),
        ensures
            dimension.0 == self.spec_output_dimension(),
    {
        proof {
            self.list.lemma_wf();
        }
        self.list.lwe_size().to_lwe_dimension()
    }

    /// The size of the ciphertexts of the key.
    pub fn output_lwe_size(&self) -> (size: LweSize)
        requires
            self.wf(),
        ensures
            size.0 == self.spec_output_dimension() + 1,
    {
        proof {
            self.list.lemma_wf();
        }
        self.list.lwe_size()
    }

    /// The scalars of the key: the ciphertexts one after the other, each as
    /// its mask and then its body.
    pub fn as_ref(&self) -> (scalars: &Vec<T>)
        ensures
            scalars_as_nat(scalars@) == self.buffer(),
    {
        self.list.as_ref()
    }

    /// A copy of the ciphertext of the given level in the block of the
    /// scalar of the input key at `input_index`.
    pub fn get_ciphertext(&self, input_index: usize, level: DecompositionLevel) -> (ciphertext:
        LweCiphertext<T>)
        requires
            self.wf(),
            input_index < self.spec_input_dimension(),
            1 <= level.0 <= self.spec_level_count(),
        ensures
            ciphertext@ == self.block(input_index as int)[level.0 - 1],
            ciphertext@.mask.len() == self.spec_output_dimension(),
    {
        let count = self.list.lwe_ciphertext_count().0;
        proof {
            self.list.lemma_wf();
            lemma_slot_bounds(
                input_index as int,
                self.input_lwe_dimension as int,
                self.decomp_level_count as int,
            );
        }
        self.list.get(input_index * self.decomp_level_count + (level.0 - 1))
    }

    /// Puts copies of the ciphertexts of `block` in the block of the scalar
    /// of the input key at `input_index`.
    pub fn set_block(&mut self, input_index: usize, block: &LweCiphertextList<T>)
        requires
            old(self).wf(),
            block.wf(),
            input_index < old(self).spec_input_dimension(),
            block@.len() == old(self).spec_level_count(),
            block.spec_lwe_size() == old(self).spec_output_dimension() + 1,
        ensures
            final(self).wf(),
            final(self).spec_base_log() == old(self).spec_base_log(),
            final(self).spec_level_count() == old(self).spec_level_count(),
            final(self).spec_input_dimension() == old(self).spec_input_dimension(),
            final(self).spec_output_dimension() == old(self).spec_output_dimension(),
            final(self).block(input_index as int) == block@,
            forall|i: int|
                0 <= i < old(self).spec_input_dimension() && i != input_index
                    ==> final(self).block(i) == old(self).block(i),
    {
        let count = self.list.lwe_ciphertext_count().0;
        let level_count = self.decomp_level_count;
        proof {
            block.lemma_wf();
            self.list.lemma_wf();
            lemma_slot_bounds(
                input_index as int,
                self.input_lwe_dimension as int,
                level_count as int,
            );
        }
        let offset = input_index * level_count;
        let mut j: usize = 0;
        while j < level_count
            invariant
                j <= level_count,
                block.wf(),
                block@.len() == level_count,
                self.list.wf(),
                self.list.spec_lwe_size() == old(self).list.spec_lwe_size(),
                block.spec_lwe_size() == self.list.spec_lwe_size(),
                self.decomp_base_log == old(self).decomp_base_log,
                self.decomp_level_count == old(self).decomp_level_count,
                self.input_lwe_dimension == old(self).input_lwe_dimension,
                self.list@.len() == old(self).list@.len(),
                count == self.list@.len(),
                offset + level_count <= count,
                forall|k: int| 0 <= k < j ==> #[trigger] self.list@[offset + k] == block@[k],
                forall|c: int|
                    0 <= c < count && !(offset <= c < offset + j) ==> #[trigger] self.list@[c]
                        == old(self).list@[c],
            decreases level_count - j,
        {
            proof {
                block.lemma_wf();
            }
            let ciphertext = block.get(j);
            self.list.set(offset + j, &ciphertext);
            j += 1;
        }
        proof {
            assert forall|k: int| 0 <= k < level_count implies self.block(input_index as int)[k]
                == block@[k] by {
                assert(self.list@[offset + k] == block@[k]);
            }
            assert(self.block(input_index as int) =~= block@);
            assert forall|i: int|
                0 <= i < old(self).spec_input_dimension() && i != input_index implies self.block(i)
                == old(self).block(i) by {
                lemma_slot_bounds(i, self.input_lwe_dimension as int, level_count as int);
                if i < input_index {
                    lemma_slots_disjoint(i, input_index as int, level_count as int);
                } else {
                    lemma_slots_disjoint(input_index as int, i, level_count as int);
                }
                assert(self.block(i) =~= old(self).block(i));
            }
        }
    }
}

} // verus!
