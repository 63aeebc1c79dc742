//! LWE ciphertexts that keep the seed of their mask in place of the mask.
use crate::entities::lwe_ciphertext::LweCiphertext;
use crate::numeric::UnsignedInteger;
use crate::parameters::LweSize;
use crate::random::{RandomGenerator, Seed, SeedableGenerator};
use vstd::prelude::*;

verus! {

/// An LWE ciphertext in compressed form: its body, and the seed of the
/// generator that its mask was drawn from. The mask is public, so the seed
/// can be public as well, and whoever has the generator can draw the mask
/// again.
pub struct SeededLweCiphertext<T: UnsignedInteger> {
    body: T,
    lwe_size: usize,
    compression_seed: Seed,
}

impl<T: UnsignedInteger> SeededLweCiphertext<T> {
    #[verifier::type_invariant]
    spec fn well_formed(self) -> bool {
        self.lwe_size >= 1
    }

    /// The body of the ciphertext, as a number.
    pub closed spec fn spec_body(&self) -> nat {
        self.body.as_nat()
    }

    /// The number of scalars of the mask of the ciphertext.
    pub closed spec fn spec_lwe_dimension(&self) -> nat {
        (self.lwe_size - 1) as nat
    }

    /// The seed of the mask of the ciphertext.
    pub closed spec fn spec_seed(&self) -> Seed {
        self.compression_seed
    }

    /// The ciphertext of the given size and seed whose body holds
    /// `fill_with`.
    pub fn new(fill_with: T, lwe_size: LweSize, compression_seed: Seed) -> (ciphertext: Self)
        requires
            lwe_size.0 >= 1,
        ensures
            ciphertext.spec_body() == fill_with.as_nat(),
            ciphertext.spec_lwe_dimension() == lwe_size.0 - 1,
            ciphertext.spec_seed() == compression_seed,
    {
        SeededLweCiphertext { body: fill_with, lwe_size: lwe_size.0, compression_seed }
    }

    /// The number of scalars of the ciphertext once its mask is drawn
    /// again.
    pub fn lwe_size(&self) -> (size: LweSize)
        ensures
            size.0 == self.spec_lwe_dimension() + 1,
    {
        proof {
            use_type_invariant(self);
        }
        LweSize(self.lwe_size)
    }

    /// The seed of the mask of the ciphertext.
    pub fn compression_seed(&self) -> (seed: Seed)
        ensures
            seed == self.spec_seed(),
    {
        self.compression_seed
    }

    /// The body of the ciphertext.
    pub fn get_body(&self) -> (body: T)
        ensures
            body.as_nat() == self.spec_body(),
    {
        self.body
    }

    /// Sets the body of the ciphertext.
    pub fn set_body(&mut self, body: T)
        ensures
            final(self).spec_body() == body.as_nat(),
            final(self).spec_lwe_dimension() == old(self).spec_lwe_dimension(),
            final(self).spec_seed() == old(self).spec_seed(),
    {
        proof {
            use_type_invariant(&*self);
        }
        self.body = body;
    }

    /// The ciphertext with its mask: the body as it is, and as mask the
    /// scalars that the generator that starts from the seed hands out.
    pub fn decompress_into_lwe_ciphertext<G: SeedableGenerator + RandomGenerator<T>>(self) -> (ciphertext:
        LweCiphertext<T>)
        ensures
            ciphertext@.body == self.spec_body(),
            ciphertext@.mask.len() == self.spec_lwe_dimension(),
    {
        proof {
            use_type_invariant(&self);
        }
        let mut generator = G::new(self.compression_seed);
        let mask_len = self.lwe_size - 1;
        let mut mask: Vec<T> = Vec::new();
        let mut i: usize = 0;
        while i < mask_len
            invariant
                i <= mask_len,
                mask@.len() == i,
            decreases mask_len - i,
        {
            mask.push(generator.next_uniform_scalar());
            i += 1;
        }
        LweCiphertext { mask, body: self.body }
    }
}

} // verus!
