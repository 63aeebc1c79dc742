//! The registers of the Trivium stream cipher, whatever its bits are made
//! of.
pub mod registers;
pub mod static_deque;
