//! The syntax tree of the Rust-like surface language: operators, literals,
//! paths and the attributes of automatic differentiation.

pub mod ast;
pub mod expand;
pub mod mut_visit;
pub mod token;
pub mod util;
