//! The Terebinth compiler front end: indexed arenas, a lexer, a parser,
//! a resolver and an evaluator for the Terebinth language, together with
//! source positions, spans and symbols.

pub mod idx_vec;
pub mod text;
pub mod ast;
pub mod typings;
pub mod compilation_unit;
pub mod resolution;
pub mod diagnostics;
pub mod terebinth_span;
pub mod terebinth_ast;
pub mod terebinth_lexer;
pub mod terebinth_serialize;
pub mod terebinth_data_structures;
pub mod parse;
