//! Evaluation core of a small dynamically typed scripting language.
//!
//! The crate evaluates expressions to values and runs statements against an
//! environment of variable bindings. Every executable function carries a
//! contract that is checked by Verus.

pub mod binary32;
pub mod rounding;
pub mod value;
pub mod ast;
pub mod environment;
pub mod error;
pub mod semantics;
pub mod operations;
pub mod determinism;
pub mod interpreter;
pub mod laws;
pub mod termination;
