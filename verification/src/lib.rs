//! Kernel of a small dependently typed language: a tokenizer for its surface
//! syntax, the term algebra, the global environment, the evaluator and the
//! bidirectional type checker.

pub mod ast;
pub mod check;
pub mod env;
pub mod error;
pub mod eval;
pub mod inductive;
pub mod laws;
pub mod loader;
pub mod names;
pub mod saturation;
pub mod subst;
pub mod tok;
pub mod typeck;
