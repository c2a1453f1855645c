//! A cooperative runtime for programs authored in a block-based visual
//! language: dynamically typed values held in a handle-addressed pool, a
//! bytecode compiler for a small structured program form, a single-step
//! stack-machine interpreter, and a two-level round-robin scheduler over
//! entities and their scripts.
//!
//! Numbers are IEEE-754 doubles carried as their 64-bit patterns; the
//! arithmetic itself is done by a software float library behind a small set
//! of trusted primitives in [`num`].

pub mod num;
pub mod runtime;
pub mod bytecode;
pub mod process;
pub mod project;
