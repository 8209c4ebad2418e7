//! The high-level intermediate representation.
pub mod ir;
