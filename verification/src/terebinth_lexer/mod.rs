//! The low-level lexer of the Rust-like surface language: it cuts source
//! text into tokens, each with its kind and its length in bytes, without
//! interning anything or reporting errors.

pub mod cursor;
pub mod grammar;
