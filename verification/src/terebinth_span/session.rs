//! The tables that a compilation session shares: its symbols and its
//! interned spans, and the edition it compiles for.

use vstd::prelude::*;

use crate::terebinth_span::edition::Edition;
use crate::terebinth_span::span_encoding::SpanInterner;
use crate::terebinth_span::symbol::{Interner, preinterned};

verus! {

/// The tables of a compilation session. Every function that interns
/// symbols or spans takes them from here.
pub struct SessionGlobals {
    pub symbol_interner: Interner,
    pub span_interner: SpanInterner,
    pub edition: Edition,
}

impl SessionGlobals {
    pub open spec fn wf(&self) -> bool {
        &&& self.symbol_interner.wf()
        &&& self.span_interner.wf()
    }

    /// Fresh tables for a session that compiles for `edition`: only the
    /// preinterned symbols, and no interned span.
    pub fn new(edition: Edition) -> (r: SessionGlobals)
        ensures
            r.wf(),
            r.symbol_interner@ == preinterned(),
            r.span_interner@.len() == 0,
            r.edition == edition,
    {
        SessionGlobals { symbol_interner: Interner::fresh(), span_interner: SpanInterner::new(), edition }
    }
}

} // verus!
