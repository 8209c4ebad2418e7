//! What names and variables stand for while code is generated.
pub mod fixpoint;
pub mod global;
pub mod local;
