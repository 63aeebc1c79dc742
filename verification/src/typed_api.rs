//! Typed encrypted values and the keys of their owner.
pub mod booleans;
pub mod keys;
pub mod shortints;
