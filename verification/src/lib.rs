//! A type-checking kernel for a calculus of constructions with universe
//! polymorphism and built-in equality and falsity axioms.
//!
//! Terms live in an [`arena::Arena`], which interns every node so that two
//! structurally equal terms share a handle. The kernel decides type inference
//! and definitional equality over those handles.

pub mod arena;
pub mod builtin;
pub mod builder;
pub mod calculus;
pub mod error;
pub mod level;
pub mod repl;
pub mod term;
pub mod type_checker;
