//! Source positions, spans and their compact encoding, editions and the
//! symbol interner.

pub mod edition;
pub mod file;
pub mod pos;
pub mod session;
pub mod source_file;
pub mod span_encoding;
pub mod symbol;
