//! LLVM as the code generator sees it.
//!
//! [`trace`] models what is asked of LLVM and what it answers; [`session`]
//! holds the inkwell handles and the calls made through them.
pub mod session;
pub mod trace;
