//! Reading source text into tokens of the surface language.

pub mod lexer;
