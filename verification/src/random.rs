//! The sources of the randomness of keys and encryptions.
use crate::numeric::UnsignedInteger;
use crate::parameters::StandardDev;
use vstd::prelude::*;

verus! {

/// What a random generator starts from.
#[derive(Clone, Copy, Debug, PartialEq, Eq, Structural)]
pub struct Seed(pub u128);

/// A source of fresh seeds. Nothing is known of what it hands out.
pub trait Seeder {
    /// A fresh seed.
    fn seed(&mut self) -> Seed;
}

/// A random generator that starts from a seed.
pub trait SeedableGenerator: Sized {
    /// The generator that starts from `seed`.
    fn new(seed: Seed) -> Self;
}

/// A source of random scalars. Nothing is known of what it hands out.
pub trait RandomGenerator<Scalar> {
    /// A scalar drawn uniformly.
    fn next_uniform_scalar(&mut self) -> Scalar;

    /// A scalar drawn from the centred discrete Gaussian of the given
    /// standard deviation.
    fn next_gaussian_scalar(&mut self, std_dev: StandardDev) -> Scalar;
}

/// The random generator of encryptions: one source for the masks, which are
/// public, another for the noise, which is secret. It remembers what it
/// handed out.
///
/// The scalars drawn for masks and those drawn for noise are recorded apart,
/// each kind in the order of the draws, so that what an encryption made can
/// be stated over what was drawn for it. With each scalar of noise goes the
/// standard deviation that it was asked for with.
pub struct EncryptionRandomGenerator<G> {
    mask: G,
    noise: G,
    mask_draws: Ghost<Seq<nat>>,
    noise_draws: Ghost<Seq<nat>>,
    noise_requests: Ghost<Seq<StandardDev>>,
}

impl<G> EncryptionRandomGenerator<G> {
    /// The scalars drawn for masks so far, oldest first.
    pub closed spec fn mask_draws(&self) -> Seq<nat> {
        self.mask_draws@
    }

    /// The scalars drawn for noise so far, oldest first.
    pub closed spec fn noise_draws(&self) -> Seq<nat> {
        self.noise_draws@
    }

    /// The standard deviations that the scalars of noise were asked for
    /// with so far, oldest first: one for each scalar of `noise_draws`.
    pub closed spec fn noise_requests(&self) -> Seq<StandardDev> {
        self.noise_requests@
    }

    /// The generator whose masks come from the generator that starts from
    /// `seed` and whose noise comes from a generator that starts from a
    /// fresh seed of `seeder`. Nothing was drawn from it yet.
    pub fn new<S: Seeder>(seed: Seed, seeder: &mut S) -> (generator: Self)
        where G: SeedableGenerator
        ensures
            generator.mask_draws() == Seq::<nat>::empty(),
            generator.noise_draws() == Seq::<nat>::empty(),
            generator.noise_requests() == Seq::<StandardDev>::empty(),
    {
        let noise_seed = seeder.seed();
        EncryptionRandomGenerator {
            mask: G::new(seed),
            noise: G::new(noise_seed),
            mask_draws: Ghost(Seq::empty()),
            noise_draws: Ghost(Seq::empty()),
            noise_requests: Ghost(Seq::empty()),
        }
    }

    /// The generator whose masks come from `mask` and whose noise comes
    /// from `noise`. Nothing was drawn from it yet.
    pub fn from_generators(mask: G, noise: G) -> (generator: Self)
        ensures
            generator.mask_draws() == Seq::<nat>::empty(),
            generator.noise_draws() == Seq::<nat>::empty(),
            generator.noise_requests() == Seq::<StandardDev>::empty(),
    {
        EncryptionRandomGenerator {
            mask,
            noise,
            mask_draws: Ghost(Seq::empty()),
            noise_draws: Ghost(Seq::empty()),
            noise_requests: Ghost(Seq::empty()),
        }
    }

    /// Draws one scalar of a mask.
    pub fn random_mask_scalar<Scalar: UnsignedInteger>(&mut self) -> (scalar: Scalar)
        where G: RandomGenerator<Scalar>
        ensures
            final(self).mask_draws() == old(self).mask_draws().push(scalar.as_nat()),
            final(self).noise_draws() == old(self).noise_draws(),
            final(self).noise_requests() == old(self).noise_requests(),
    {
        let scalar = self.mask.next_uniform_scalar();
        proof {
            self.mask_draws@ = self.mask_draws@.push(scalar.as_nat());
        }
        scalar
    }

    /// Draws the noise of one encryption, asked for with the standard
    /// deviation `std_dev`.
    pub fn random_noise<Scalar: UnsignedInteger>(&mut self, std_dev: StandardDev) -> (scalar: Scalar)
        where G: RandomGenerator<Scalar>
        ensures
            final(self).mask_draws() == old(self).mask_draws(),
            final(self).noise_draws() == old(self).noise_draws().push(scalar.as_nat()),
            final(self).noise_requests() == old(self).noise_requests().push(std_dev),
    {
        let scalar = self.noise.next_gaussian_scalar(std_dev);
        proof {
            self.noise_draws@ = self.noise_draws@.push(scalar.as_nat());
            self.noise_requests@ = self.noise_requests@.push(std_dev);
        }
        scalar
    }
}

} // verus!
