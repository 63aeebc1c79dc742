//! Newtypes for the numeric parameters of the scheme.
use vstd::prelude::*;

verus! {

/// The logarithm in base two of the base of a gadget decomposition.
#[derive(Clone, Copy, Debug, PartialEq, Eq, Structural)]
pub struct DecompositionBaseLog(pub usize);

/// The number of levels of a gadget decomposition.
#[derive(Clone, Copy, Debug, PartialEq, Eq, Structural)]
pub struct DecompositionLevelCount(pub usize);

/// The level of one term of a gadget decomposition, counted from one.
#[derive(Clone, Copy, Debug, PartialEq, Eq, Structural)]
pub struct DecompositionLevel(pub usize);

/// The number of scalars of an LWE secret key, which is the number of
/// scalars of the mask of a ciphertext under that key.
#[derive(Clone, Copy, Debug, PartialEq, Eq, Structural)]
pub struct LweDimension(pub usize);

/// The number of scalars of an LWE ciphertext: its mask and its body.
#[derive(Clone, Copy, Debug, PartialEq, Eq, Structural)]
pub struct LweSize(pub usize);

/// The number of polynomials of a GLWE secret key.
#[derive(Clone, Copy, Debug, PartialEq, Eq, Structural)]
pub struct GlweDimension(pub usize);

/// The number of coefficients of the polynomials of a GLWE ciphertext.
#[derive(Clone, Copy, Debug, PartialEq, Eq, Structural)]
pub struct PolynomialSize(pub usize);

/// The number of values that the message of a ciphertext can take.
#[derive(Clone, Copy, Debug, PartialEq, Eq, Structural)]
pub struct MessageModulus(pub usize);

/// The number of values that the carry of a ciphertext can take.
#[derive(Clone, Copy, Debug, PartialEq, Eq, Structural)]
pub struct CarryModulus(pub usize);

/// A number of plaintexts.
#[derive(Clone, Copy, Debug, PartialEq, Eq, Structural)]
pub struct PlaintextCount(pub usize);

/// A number of LWE ciphertexts.
#[derive(Clone, Copy, Debug, PartialEq, Eq, Structural)]
pub struct LweCiphertextCount(pub usize);

/// The standard deviation of the Gaussian noise of an encryption, as the bit
/// pattern of its IEEE 754 double precision value. The library hands it to
/// the random generator and never reads it.
#[derive(Clone, Copy, Debug, PartialEq, Eq, Structural)]
pub struct StandardDev(pub u64);

impl LweDimension {
    /// The size of a ciphertext under a key of this dimension: one scalar
    /// more, for the body.
    pub fn to_lwe_size(&self) -> (size: LweSize)
        requires
            self.0 < usize::MAX,
        ensures
            size.0 == self.0 + 1,
    {
        LweSize(self.0 + 1)
    }
}

impl LweSize {
    /// The dimension of the key of a ciphertext of this size: one scalar
    /// less, as the body is no part of the mask.
    pub fn to_lwe_dimension(&self) -> (dimension: LweDimension)
        requires
            self.0 >= 1,
        ensures
            dimension.0 == self.0 - 1,
    {
        LweDimension(self.0 - 1)
    }
}

} // verus!
