//! LWE secret keys.
use crate::numeric::UnsignedInteger;
use crate::numeric::lemma_bit_identities;
use crate::parameters::LweDimension;
use crate::random::RandomGenerator;
use vstd::arithmetic::div_mod::*;
use vstd::arithmetic::power2::*;
use vstd::prelude::*;

verus! {

/// The numbers that a sequence of scalars stands for.
pub open spec fn scalars_as_nat<T: UnsignedInteger>(scalars: Seq<T>) -> Seq<nat> {
    Seq::new(scalars.len(), |i: int| scalars[i].as_nat())
}

/// An LWE secret key: a sequence of scalars, as many as the dimension of
/// the key.
pub struct LweSecretKey<T: UnsignedInteger> {
    data: Vec<T>,
}

impl<T: UnsignedInteger> View for LweSecretKey<T> {
    type V = Seq<nat>;

    closed spec fn view(&self) -> Seq<nat> {
        scalars_as_nat(self.data@)
    }
}

impl<T: UnsignedInteger> LweSecretKey<T> {
    /// Whether every scalar of the key is zero or one.
    pub open spec fn is_binary(&self) -> bool {
        forall|i: int| 0 <= i < self@.len() ==> #[trigger] self@[i] <= 1
    }

    /// The key made of the given scalars.
    pub fn from_container(container: Vec<T>) -> (key: Self)
        ensures
            key@ == scalars_as_nat(container@),
    {
        LweSecretKey { data: container }
    }

    /// A new key of the given dimension whose scalars are zero or one, each
    /// the low bit of a scalar drawn uniformly from `generator`.
    pub fn generate_new_binary<G: RandomGenerator<T>>(
        lwe_dimension: LweDimension,
        generator: &mut G,
    ) -> (key: Self)
        ensures
            key@.len() == lwe_dimension.0,
            key.is_binary(),
    {
        let mut data: Vec<T> = Vec::new();
        let mut i: usize = 0;
        while i < lwe_dimension.0
            invariant
                i <= lwe_dimension.0,
                data@.len() == i,
                forall|k: int| 0 <= k < i ==> (#[trigger] data@[k]).as_nat() <= 1,
            decreases lwe_dimension.0 - i,
        {
            let drawn = generator.next_uniform_scalar();
            proof {
                T::lemma_bits_range();
                drawn.lemma_as_nat_bound();
                lemma2_to64_rest();
                if T::spec_bits() < 64 {
                    lemma_pow2_strictly_increases(T::spec_bits(), 64);
                }
                lemma_bit_identities(drawn.as_nat());
                lemma_mod_bound(drawn.as_nat() as int, 2);
            }
            data.push(drawn.bitand(T::one()));
            i += 1;
        }
        let key = LweSecretKey { data };
        assert forall|i: int| 0 <= i < key@.len() implies #[trigger] key@[i] <= 1 by {
            assert(key@[i] == key.data@[i].as_nat());
        }
        key
    }

    /// The dimension of the key.
    pub fn lwe_dimension(&self) -> (dimension: LweDimension)
        ensures
            dimension.0 == self@.len(),
    {
        LweDimension(self.data.len())
    }

    /// The scalars of the key.
    pub fn as_ref(&self) -> (scalars: &Vec<T>)
        ensures
            scalars_as_nat(scalars@) == self@,
    {
        &self.data
    }
}

} // verus!
