//! Helpers for literals.

pub mod literal;
