//! Signed gadget decomposition of scalars.
pub mod bits;
pub mod decomposer;
pub mod digits;
pub mod iter;
pub mod term;
