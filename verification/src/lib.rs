//! Code generation for the Koi language: terms of the intermediate
//! representation in [`hir`] are compiled to LLVM IR through inkwell.
//!
//! The contracts of [`codegen`] say, call by call, what is asked of LLVM; the
//! vocabulary they use is in [`llvm`].
pub mod codegen;
pub mod hir;
pub mod laws;
pub mod llvm;
pub mod run;
pub mod text;
