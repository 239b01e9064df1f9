//! Spans and their compact encoding.
//!
//! A span is eight bytes. Most spans keep their position, length and
//! context (or parent) inline; the others are stored in a [`SpanInterner`]
//! and the span keeps their index there.

use vstd::prelude::*;

use crate::terebinth_span::pos::{BytePos, Pos};

verus! {

/// A syntax context: which macro expansions a piece of code went through.
/// The root context, 0, is code written directly in the source.
#[derive(Clone, Copy, PartialEq, Eq, Hash, Debug, Structural)]
pub struct SyntaxContext(pub u32);

impl SyntaxContext {
    pub fn root() -> (r: SyntaxContext)
        ensures
            r.0 == 0,
    {
        SyntaxContext(0)
    }

    pub fn from_u32(raw: u32) -> (r: SyntaxContext)
        ensures
            r.0 == raw,
    {
        SyntaxContext(raw)
    }

    pub fn from_u16(raw: u16) -> (r: SyntaxContext)
        ensures
            r.0 == raw,
    {
        SyntaxContext(raw as u32)
    }

    pub fn as_u32(self) -> (r: u32)
        ensures
            r == self.0,
    {
        self.0
    }

    pub fn is_root(self) -> (r: bool)
        ensures
            r == (self.0 == 0),
    {
        self.0 == 0
    }
}

/// The index of a definition within its crate.
#[derive(Clone, Copy, PartialEq, Eq, Hash, Debug, Structural)]
pub struct DefIndex(pub u32);

impl DefIndex {
    pub fn from_u16(raw: u16) -> (r: DefIndex)
        ensures
            r.0 == raw,
    {
        DefIndex(raw as u32)
    }

    pub fn from_u32(raw: u32) -> (r: DefIndex)
        ensures
            r.0 == raw,
    {
        DefIndex(raw)
    }

    pub fn as_u32(self) -> (r: u32)
        ensures
            r == self.0,
    {
        self.0
    }
}

/// A definition of the crate being compiled.
#[derive(Clone, Copy, PartialEq, Eq, Hash, Debug, Structural)]
pub struct LocalDefId {
    pub local_def_index: DefIndex,
}

/// What a span denotes: its bounds, its syntax context and the definition
/// it belongs to.
#[derive(Clone, Copy, PartialEq, Eq, Hash, Debug, Structural)]
pub struct SpanData {
    pub lo: BytePos,
    pub hi: BytePos,
    pub ctx: SyntaxContext,
    pub parent: Option<LocalDefId>,
}

/// The longest span, and the largest context or parent, kept inline.
pub const MAX_LEN: u32 = 0b0111_1111_1111_1110;
pub const MAX_CTX: u32 = 0b0111_1111_1111_1110;
/// The bit that marks an inline span with a parent.
pub const PARENT_TAG: u16 = 0b1000_0000_0000_0000;
/// The bits of the length of an inline span with a parent.
pub const LEN_MASK: u16 = 0b0111_1111_1111_1111;
/// The length field of a span stored in the interner.
pub const BASE_LEN_INTERNED_MARKER: u16 = 0b1111_1111_1111_1111;
/// The context field of a span stored in the interner with its context.
pub const CTX_INTERNED_MARKER: u16 = 0b1111_1111_1111_1111;

/// The spans that do not fit inline, each stored once.
pub struct SpanInterner {
    spans: Vec<SpanData>,
}

impl View for SpanInterner {
    type V = Seq<SpanData>;

    closed spec fn view(&self) -> Seq<SpanData> {
        self.spans@
    }
}

/// No span is stored twice.
pub open spec fn no_duplicates(spans: Seq<SpanData>) -> bool {
    forall|i: int, j: int| 0 <= i < j < spans.len() ==> spans[i] != spans[j]
}

impl SpanInterner {
    pub closed spec fn wf(&self) -> bool {
        no_duplicates(self.spans@)
    }

    pub fn new() -> (r: SpanInterner)
        ensures
            r.wf(),
            r@.len() == 0,
    {
        SpanInterner { spans: Vec::new() }
    }

    /// The index of `span_data` among the stored spans, after storing it if
    /// it was not there yet.
    pub fn intern(&mut self, span_data: &SpanData) -> (r: u32)
        requires
            old(self).wf(),
            old(self)@.len() < u32::MAX,
        ensures
            final(self).wf(),
            r < final(self)@.len(),
            final(self)@[r as int] == *span_data,
            old(self)@.contains(*span_data) ==> final(self)@ == old(self)@,
            !old(self)@.contains(*span_data) ==> final(self)@ == old(self)@.push(*span_data)
                && r == old(self)@.len(),
    {
        let mut i: usize = 0;
        while i < self.spans.len()
            invariant
                i <= self.spans@.len(),
                self.spans@ == old(self).spans@,
                no_duplicates(self.spans@),
                self.spans@.len() < u32::MAX,
                forall|k: int| 0 <= k < i ==> self.spans@[k] != *span_data,
            decreases self.spans@.len() - i,
        {
            if self.spans[i] == *span_data {
                return i as u32;
            }
            i = i + 1;
        }
        let n = self.spans.len();
        self.spans.push(*span_data);
        proof {
            assert forall|a: int, b: int| 0 <= a < b < self.spans@.len() implies self.spans@[a] != self.spans@[b] by {
                if b < n {
                    assert(self.spans@[a] == old(self).spans@[a]);
                    assert(self.spans@[b] == old(self).spans@[b]);
                }
            }
        }
        n as u32
    }

    /// The stored span at `index`.
    pub fn get(&self, index: u32) -> (r: SpanData)
        requires
            index < self@.len(),
        ensures
            r == self@[index as int],
    {
        self.spans[index as usize]
    }
}

/// A span: a compact handle for a [`SpanData`].
#[derive(Clone, Copy, PartialEq, Eq, Hash, Debug, Structural)]
pub struct Span {
    lo_or_index: u32,
    len_with_tag_or_marker: u16,
    ctx_or_parent_or_marker: u16,
}

/// The span data with the bounds `lo` and `hi` put in order.
pub open spec fn ordered_data(lo: BytePos, hi: BytePos, ctx: SyntaxContext, parent: Option<LocalDefId>) -> SpanData {
    if lo.0 <= hi.0 {
        SpanData { lo, hi, ctx, parent }
    } else {
        SpanData { lo: hi, hi: lo, ctx, parent }
    }
}

impl Span {
    /// The span is stored in the interner.
    pub closed spec fn is_interned(self) -> bool {
        self.len_with_tag_or_marker == BASE_LEN_INTERNED_MARKER
    }

    /// The span is inline and carries a parent.
    pub closed spec fn has_inline_parent(self) -> bool {
        !self.is_interned() && self.len_with_tag_or_marker & PARENT_TAG != 0
    }

    /// The span is stored in the interner together with its context.
    pub closed spec fn is_fully_interned(self) -> bool {
        self.is_interned() && self.ctx_or_parent_or_marker == CTX_INTERNED_MARKER
    }

    /// The length of an inline span.
    pub closed spec fn inline_len(self) -> u16 {
        self.len_with_tag_or_marker & LEN_MASK
    }

    /// The span denotes something, given the stored spans `spans`: an inline
    /// span does not run past the largest position, an interned one names a
    /// stored span, and the contexts kept inline are small, those stored large.
    pub closed spec fn valid(self, spans: Seq<SpanData>) -> bool {
        if !self.is_interned() {
            &&& self.lo_or_index + self.inline_len() <= u32::MAX
            &&& self.inline_len() <= MAX_LEN
            &&& !self.has_inline_parent() ==> self.ctx_or_parent_or_marker <= MAX_CTX
            &&& self.has_inline_parent() ==> self.ctx_or_parent_or_marker <= MAX_CTX
        } else {
            &&& self.lo_or_index < spans.len()
            &&& spans[self.lo_or_index as int].lo.0 <= spans[self.lo_or_index as int].hi.0
            &&& self.is_fully_interned() ==> spans[self.lo_or_index as int].ctx.0 > MAX_CTX
            &&& !self.is_fully_interned() ==> self.ctx_or_parent_or_marker <= MAX_CTX
        }
    }

    /// What the span denotes, given the stored spans `spans`.
    pub closed spec fn decode(self, spans: Seq<SpanData>) -> SpanData {
        if !self.is_interned() {
            let lo = self.lo_or_index;
            let hi = BytePos((lo + self.inline_len()) as u32);
            if !self.has_inline_parent() {
                SpanData { lo: BytePos(lo), hi, ctx: SyntaxContext(self.ctx_or_parent_or_marker as u32), parent: None }
            } else {
                SpanData {
                    lo: BytePos(lo),
                    hi,
                    ctx: SyntaxContext(0),
                    parent: Some(LocalDefId { local_def_index: DefIndex(self.ctx_or_parent_or_marker as u32) }),
                }
            }
        } else if !self.is_fully_interned() {
            SpanData { ctx: SyntaxContext(self.ctx_or_parent_or_marker as u32), ..spans[self.lo_or_index as int] }
        } else {
            spans[self.lo_or_index as int]
        }
    }

    /// A valid span stays valid, and denotes the same, when more spans are stored.
    pub proof fn lemma_decode_stable(self, spans: Seq<SpanData>, more: Seq<SpanData>)
        requires
            self.valid(spans),
            spans.is_prefix_of(more),
        ensures
            self.valid(more),
            self.decode(more) == self.decode(spans),
    {
        if self.is_interned() {
            assert(more[self.lo_or_index as int] == spans[self.lo_or_index as int]);
        }
    }

    /// What a valid span denotes has its bounds in order.
    pub proof fn lemma_decode_ordered(self, spans: Seq<SpanData>)
        requires
            self.valid(spans),
        ensures
            self.decode(spans).lo.0 <= self.decode(spans).hi.0,
    {
    }

    /// Where `d` is stored among `spans`.
    pub open spec fn stored_at(spans: Seq<SpanData>, d: SpanData) -> int {
        choose|k: int| 0 <= k < spans.len() && spans[k] == d
    }

    /// The span that stands for the data `d`, its bounds in order, once the
    /// stored spans are `spans`: inline when it is short and its context is
    /// small (or, in the root context, its parent is small); else the place
    /// where `d` is stored, with its context alongside when that is small.
    pub closed spec fn encode(d: SpanData, spans: Seq<SpanData>) -> Span {
        let len = d.hi.0 - d.lo.0;
        if len <= MAX_LEN && d.ctx.0 <= MAX_CTX && d.parent is None {
            Span { lo_or_index: d.lo.0, len_with_tag_or_marker: len as u16, ctx_or_parent_or_marker: d.ctx.0 as u16 }
        } else if len <= MAX_LEN && d.ctx.0 == 0 && d.parent is Some && d.parent->0.local_def_index.0 <= MAX_CTX {
            Span {
                lo_or_index: d.lo.0,
                len_with_tag_or_marker: PARENT_TAG | (len as u16),
                ctx_or_parent_or_marker: d.parent->0.local_def_index.0 as u16,
            }
        } else if d.ctx.0 <= MAX_CTX {
            Span {
                lo_or_index: Self::stored_at(spans, SpanData { ctx: SyntaxContext(u32::MAX), ..d }) as u32,
                len_with_tag_or_marker: BASE_LEN_INTERNED_MARKER,
                ctx_or_parent_or_marker: d.ctx.0 as u16,
            }
        } else {
            Span {
                lo_or_index: Self::stored_at(spans, d) as u32,
                len_with_tag_or_marker: BASE_LEN_INTERNED_MARKER,
                ctx_or_parent_or_marker: CTX_INTERNED_MARKER,
            }
        }
    }

    /// In stored spans without duplicates, data stored at `k` is stored there only.
    proof fn lemma_stored_at(spans: Seq<SpanData>, k: int)
        requires
            no_duplicates(spans),
            0 <= k < spans.len(),
        ensures
            Self::stored_at(spans, spans[k]) == k,
    {
        let c = Self::stored_at(spans, spans[k]);
        assert(0 <= c < spans.len() && spans[c] == spans[k]);
        if c < k {
            assert(spans[c] != spans[k]);
        } else if k < c {
            assert(spans[k] != spans[c]);
        }
    }

    /// The span of `lo` to `hi` (in either order), with context `ctx` and parent
    /// `parent`. It is kept inline when it is short and its context (or, in
    /// the root context, its parent) is small; otherwise it is stored in
    /// `interner`, which keeps every span it already held.
    pub fn new(
        lo: BytePos,
        hi: BytePos,
        ctx: SyntaxContext,
        parent: Option<LocalDefId>,
        interner: &mut SpanInterner,
    ) -> (r: Span)
        requires
            old(interner).wf(),
            old(interner)@.len() < u32::MAX,
        ensures
            final(interner).wf(),
            old(interner)@.is_prefix_of(final(interner)@),
            final(interner)@.len() <= old(interner)@.len() + 1,
            r.valid(final(interner)@),
            r.decode(final(interner)@) == ordered_data(lo, hi, ctx, parent),
            r == Span::encode(ordered_data(lo, hi, ctx, parent), final(interner)@),
    {
        let mut lo = lo;
        let mut hi = hi;
        if lo.0 > hi.0 {
            let t = lo;
            lo = hi;
            hi = t;
        }
        let len: u32 = hi.0 - lo.0;
        let ctx32: u32 = ctx.as_u32();
        proof {
            assert(old(interner)@ =~= old(interner)@.subrange(0, old(interner)@.len() as int));
        }
        if len <= MAX_LEN && ctx32 <= MAX_CTX {
            match parent {
                None => {
                    let l16: u16 = len as u16;
                    assert(l16 & PARENT_TAG == 0 && l16 & LEN_MASK == l16 && l16 != BASE_LEN_INTERNED_MARKER) by (bit_vector)
                        requires
                            l16 <= 0x7ffe,
                    ;
                    return Span { lo_or_index: lo.0, len_with_tag_or_marker: l16, ctx_or_parent_or_marker: ctx32 as u16 };
                },
                Some(p) => {
                    let parent32 = p.local_def_index.as_u32();
                    if ctx32 == 0 && parent32 <= MAX_CTX {
                        let l16: u16 = len as u16;
                        let tagged: u16 = PARENT_TAG | l16;
                        assert(tagged & PARENT_TAG != 0 && tagged & LEN_MASK == l16 && tagged != BASE_LEN_INTERNED_MARKER) by (bit_vector)
                            requires
                                l16 <= 0x7ffe,
                                tagged == 0x8000u16 | l16,
                        ;
                        return Span {
                            lo_or_index: lo.0,
                            len_with_tag_or_marker: tagged,
                            ctx_or_parent_or_marker: parent32 as u16,
                        };
                    }
                },
            }
        }
        if ctx32 <= MAX_CTX {
            let data = SpanData { lo, hi, ctx: SyntaxContext::from_u32(u32::MAX), parent };
            let index = interner.intern(&data);
            proof { Self::lemma_stored_at(interner@, index as int); }
            Span {
                lo_or_index: index,
                len_with_tag_or_marker: BASE_LEN_INTERNED_MARKER,
                ctx_or_parent_or_marker: ctx32 as u16,
            }
        } else {
            let data = SpanData { lo, hi, ctx, parent };
            let index = interner.intern(&data);
            proof { Self::lemma_stored_at(interner@, index as int); }
            Span {
                lo_or_index: index,
                len_with_tag_or_marker: BASE_LEN_INTERNED_MARKER,
                ctx_or_parent_or_marker: CTX_INTERNED_MARKER,
            }
        }
    }

    /// The empty span at position 0 in the root context.
    pub closed spec fn dummy_spec() -> Span {
        Span { lo_or_index: 0, len_with_tag_or_marker: 0, ctx_or_parent_or_marker: 0 }
    }

    /// The empty span at position 0 in the root context.
    pub fn dummy() -> (r: Span)
        ensures
            r == Span::dummy_spec(),
            forall|spans: Seq<SpanData>| r.valid(spans),
            forall|spans: Seq<SpanData>| #[trigger] r.decode(spans) == (SpanData {
                lo: BytePos(0),
                hi: BytePos(0),
                ctx: SyntaxContext(0),
                parent: None,
            }),
    {
        let r = Span { lo_or_index: 0, len_with_tag_or_marker: 0, ctx_or_parent_or_marker: 0 };
        assert(0u16 & PARENT_TAG == 0 && 0u16 & LEN_MASK == 0) by (bit_vector);
        r
    }

    /// What the span denotes.
    pub fn data_untracked(self, interner: &SpanInterner) -> (r: SpanData)
        requires
            self.valid(interner@),
        ensures
            r == self.decode(interner@),
    {
        if self.len_with_tag_or_marker != BASE_LEN_INTERNED_MARKER {
            let lo = self.lo_or_index;
            if self.len_with_tag_or_marker & PARENT_TAG == 0 {
                let len = self.len_with_tag_or_marker;
                let t = self.len_with_tag_or_marker;
                assert(t & 0x8000u16 == 0 ==> t & 0x7fffu16 == t) by (bit_vector);
                SpanData {
                    lo: BytePos(lo),
                    hi: BytePos(lo + len as u32),
                    ctx: SyntaxContext::from_u16(self.ctx_or_parent_or_marker),
                    parent: None,
                }
            } else {
                let len = self.len_with_tag_or_marker & LEN_MASK;
                SpanData {
                    lo: BytePos(lo),
                    hi: BytePos(lo + len as u32),
                    ctx: SyntaxContext::root(),
                    parent: Some(LocalDefId { local_def_index: DefIndex::from_u16(self.ctx_or_parent_or_marker) }),
                }
            }
        } else if self.ctx_or_parent_or_marker != CTX_INTERNED_MARKER {
            let stored = interner.get(self.lo_or_index);
            SpanData { ctx: SyntaxContext::from_u16(self.ctx_or_parent_or_marker), ..stored }
        } else {
            interner.get(self.lo_or_index)
        }
    }

    /// What the span denotes.
    pub fn data(self, interner: &SpanInterner) -> (r: SpanData)
        requires
            self.valid(interner@),
        ensures
            r == self.decode(interner@),
    {
        self.data_untracked(interner)
    }

    /// The context kept in the span itself, or the index at which a span
    /// stored with its context sits.
    fn inline_ctx(self) -> (r: Result<SyntaxContext, usize>)
        ensures
            self.is_fully_interned() ==> r == Err::<SyntaxContext, usize>(self.lo_or_index as usize),
            !self.is_fully_interned() && !self.has_inline_parent() ==> r == Ok::<SyntaxContext, usize>(SyntaxContext(self.ctx_or_parent_or_marker as u32)),
            !self.is_fully_interned() && self.has_inline_parent() ==> r == Ok::<SyntaxContext, usize>(SyntaxContext(0)),
    {
        if self.len_with_tag_or_marker != BASE_LEN_INTERNED_MARKER {
            if self.len_with_tag_or_marker & PARENT_TAG == 0 {
                Ok(SyntaxContext::from_u16(self.ctx_or_parent_or_marker))
            } else {
                Ok(SyntaxContext::root())
            }
        } else if self.ctx_or_parent_or_marker != CTX_INTERNED_MARKER {
            Ok(SyntaxContext::from_u16(self.ctx_or_parent_or_marker))
        } else {
            Err(self.lo_or_index as usize)
        }
    }

    /// Whether the span comes from a macro expansion: its context is not the root.
    pub fn from_expansion(self, interner: &SpanInterner) -> (r: bool)
        requires
            self.valid(interner@),
        ensures
            r == (self.decode(interner@).ctx.0 != 0),
    {
        match self.inline_ctx() {
            Ok(ctx) => !ctx.is_root(),
            Err(_) => true,
        }
    }

    /// Whether the span is the empty span at position 0.
    pub fn is_dummy(self, interner: &SpanInterner) -> (r: bool)
        requires
            self.valid(interner@),
        ensures
            r == (self.decode(interner@).lo.0 == 0 && self.decode(interner@).hi.0 == 0),
    {
        if self.len_with_tag_or_marker != BASE_LEN_INTERNED_MARKER {
            let lo = self.lo_or_index;
            let len = (self.len_with_tag_or_marker & LEN_MASK) as u32;
            let t = self.len_with_tag_or_marker;
            assert(t & 0x8000u16 == 0 ==> t & 0x7fffu16 == t) by (bit_vector);
            lo == 0 && len == 0
        } else {
            let data = interner.get(self.lo_or_index);
            data.lo.0 == 0 && data.hi.0 == 0
        }
    }

    /// The span with its context replaced by what `map` makes of it.
    pub fn map_ctx(self, map: impl FnOnce(SyntaxContext) -> SyntaxContext, interner: &mut SpanInterner) -> (r: Span)
        requires
            old(interner).wf(),
            old(interner)@.len() < u32::MAX,
            self.valid(old(interner)@),
            call_requires(map, (self.decode(old(interner)@).ctx,)),
        ensures
            final(interner).wf(),
            old(interner)@.is_prefix_of(final(interner)@),
            r.valid(final(interner)@),
            call_ensures(map, (self.decode(old(interner)@).ctx,), r.decode(final(interner)@).ctx),
            r.decode(final(interner)@) == (SpanData { ctx: r.decode(final(interner)@).ctx, ..self.decode(old(interner)@) }),
    {
        let data = self.data_untracked(interner);
        let new_ctx = map(data.ctx);
        if self.len_with_tag_or_marker != BASE_LEN_INTERNED_MARKER && self.len_with_tag_or_marker & PARENT_TAG == 0 {
            let new_ctx32 = new_ctx.as_u32();
            if new_ctx32 <= MAX_CTX {
                let t = self.len_with_tag_or_marker;
                assert(t & 0x8000u16 == 0 ==> t & 0x7fffu16 == t) by (bit_vector);
                proof {
                    assert(old(interner)@ =~= old(interner)@.subrange(0, old(interner)@.len() as int));
                }
                return Span {
                    lo_or_index: self.lo_or_index,
                    len_with_tag_or_marker: self.len_with_tag_or_marker,
                    ctx_or_parent_or_marker: new_ctx32 as u16,
                };
            }
        }
        proof { self.lemma_decode_ordered(interner@); }
        Span::new(data.lo, data.hi, new_ctx, data.parent, interner)
    }

    /// The syntax context of the span.
    pub fn ctx(self, interner: &SpanInterner) -> (r: SyntaxContext)
        requires
            self.valid(interner@),
        ensures
            r == self.decode(interner@).ctx,
    {
        match self.inline_ctx() {
            Ok(ctx) => ctx,
            Err(index) => interner.get(index as u32).ctx,
        }
    }

    /// Whether the two spans have the same syntax context.
    pub fn eq_ctx(self, other: Span, interner: &SpanInterner) -> (r: bool)
        requires
            self.valid(interner@),
            other.valid(interner@),
        ensures
            r == (self.decode(interner@).ctx == other.decode(interner@).ctx),
    {
        match (self.inline_ctx(), other.inline_ctx()) {
            (Ok(ctx1), Ok(ctx2)) => ctx1.0 == ctx2.0,
            (Ok(_), Err(_)) | (Err(_), Ok(_)) => false,
            (Err(index1), Err(index2)) => {
                interner.get(index1 as u32).ctx.0 == interner.get(index2 as u32).ctx.0
            },
        }
    }

    /// The span with its parent replaced by `parent`.
    pub fn with_parent(self, parent: Option<LocalDefId>, interner: &mut SpanInterner) -> (r: Span)
        requires
            old(interner).wf(),
            old(interner)@.len() < u32::MAX,
            self.valid(old(interner)@),
        ensures
            final(interner).wf(),
            old(interner)@.is_prefix_of(final(interner)@),
            r.valid(final(interner)@),
            r.decode(final(interner)@) == (SpanData { parent, ..self.decode(old(interner)@) }),
    {
        proof {
            assert(old(interner)@ =~= old(interner)@.subrange(0, old(interner)@.len() as int));
            self.lemma_decode_ordered(interner@);
        }
        if self.len_with_tag_or_marker != BASE_LEN_INTERNED_MARKER && self.len_with_tag_or_marker & PARENT_TAG == 0 {
            let t = self.len_with_tag_or_marker;
            assert(t & 0x8000u16 == 0 ==> t & 0x7fffu16 == t && t <= 0x7fff) by (bit_vector);
            match parent {
                None => {
                    return self;
                },
                Some(p) => {
                    let parent32 = p.local_def_index.as_u32();
                    if self.ctx_or_parent_or_marker == 0 && parent32 <= MAX_CTX {
                        let tagged: u16 = PARENT_TAG | t;
                        assert(tagged & PARENT_TAG != 0 && tagged & LEN_MASK == t && tagged != BASE_LEN_INTERNED_MARKER) by (bit_vector)
                            requires
                                t <= 0x7ffe,
                                tagged == 0x8000u16 | t,
                        ;
                        return Span {
                            lo_or_index: self.lo_or_index,
                            len_with_tag_or_marker: tagged,
                            ctx_or_parent_or_marker: parent32 as u16,
                        };
                    }
                },
            }
        }
        let data = self.data_untracked(interner);
        Span::new(data.lo, data.hi, data.ctx, parent, interner)
    }

    /// The definition the span belongs to, if any.
    pub fn parent(self, interner: &SpanInterner) -> (r: Option<LocalDefId>)
        requires
            self.valid(interner@),
        ensures
            r == self.decode(interner@).parent,
    {
        if self.len_with_tag_or_marker != BASE_LEN_INTERNED_MARKER {
            if self.len_with_tag_or_marker & PARENT_TAG == 0 {
                None
            } else {
                Some(LocalDefId { local_def_index: DefIndex::from_u16(self.ctx_or_parent_or_marker) })
            }
        } else {
            interner.get(self.lo_or_index).parent
        }
    }
}

/// The larger of two positions.
pub open spec fn max_pos(a: BytePos, b: BytePos) -> BytePos {
    if a.0 >= b.0 { a } else { b }
}

/// The smaller of two positions.
pub open spec fn min_pos(a: BytePos, b: BytePos) -> BytePos {
    if a.0 <= b.0 { a } else { b }
}

fn max_byte_pos(a: BytePos, b: BytePos) -> (r: BytePos)
    ensures
        r == max_pos(a, b),
{
    if a.0 >= b.0 { a } else { b }
}

fn min_byte_pos(a: BytePos, b: BytePos) -> (r: BytePos)
    ensures
        r == min_pos(a, b),
{
    if a.0 <= b.0 { a } else { b }
}

/// `interner` was only added to, and `r` is a span of it denoting `d`.
pub open spec fn interned_as(r: Span, old_spans: Seq<SpanData>, interner: SpanInterner, d: SpanData) -> bool {
    &&& interner.wf()
    &&& old_spans.is_prefix_of(interner@)
    &&& r.valid(interner@)
    &&& r.decode(interner@) == d
}

impl SpanData {
    /// The span of this data.
    pub fn span(&self, interner: &mut SpanInterner) -> (r: Span)
        requires
            old(interner).wf(),
            old(interner)@.len() < u32::MAX,
        ensures
            interned_as(r, old(interner)@, *final(interner), ordered_data(self.lo, self.hi, self.ctx, self.parent)),
            r == Span::encode(ordered_data(self.lo, self.hi, self.ctx, self.parent), final(interner)@),
    {
        Span::new(self.lo, self.hi, self.ctx, self.parent, interner)
    }

    /// The span of this data, starting at `lo`.
    pub fn with_lo(&self, lo: BytePos, interner: &mut SpanInterner) -> (r: Span)
        requires
            old(interner).wf(),
            old(interner)@.len() < u32::MAX,
        ensures
            interned_as(r, old(interner)@, *final(interner), ordered_data(lo, self.hi, self.ctx, self.parent)),
    {
        Span::new(lo, self.hi, self.ctx, self.parent, interner)
    }

    /// The span of this data, ending at `hi`.
    pub fn with_hi(&self, hi: BytePos, interner: &mut SpanInterner) -> (r: Span)
        requires
            old(interner).wf(),
            old(interner)@.len() < u32::MAX,
        ensures
            interned_as(r, old(interner)@, *final(interner), ordered_data(self.lo, hi, self.ctx, self.parent)),
    {
        Span::new(self.lo, hi, self.ctx, self.parent, interner)
    }

    /// The span of this data, in context `ctx`.
    pub fn with_ctx(&self, ctx: SyntaxContext, interner: &mut SpanInterner) -> (r: Span)
        requires
            old(interner).wf(),
            old(interner)@.len() < u32::MAX,
        ensures
            interned_as(r, old(interner)@, *final(interner), ordered_data(self.lo, self.hi, ctx, self.parent)),
    {
        Span::new(self.lo, self.hi, ctx, self.parent, interner)
    }

    /// The span of this data, belonging to `parent`.
    pub fn with_parent(&self, parent: Option<LocalDefId>, interner: &mut SpanInterner) -> (r: Span)
        requires
            old(interner).wf(),
            old(interner)@.len() < u32::MAX,
        ensures
            interned_as(r, old(interner)@, *final(interner), ordered_data(self.lo, self.hi, self.ctx, parent)),
    {
        Span::new(self.lo, self.hi, self.ctx, parent, interner)
    }

    /// Whether this is the empty span at position 0.
    pub fn is_dummy(self) -> (r: bool)
        ensures
            r == (self.lo.0 == 0 && self.hi.0 == 0),
    {
        self.lo.0 == 0 && self.hi.0 == 0
    }

    /// Whether `other` lies within this span.
    pub fn contains(self, other: SpanData) -> (r: bool)
        ensures
            r == (self.lo.0 <= other.lo.0 && other.hi.0 <= self.hi.0),
    {
        self.lo.0 <= other.lo.0 && other.hi.0 <= self.hi.0
    }
}

/// `r` is the span enclosing `a` and `b`, interned from `before` into
/// `after`, when the two combine; else the fallback span, with the interner
/// unchanged.
pub open spec fn spans_joined(a: Span, b: Span, before: SpanInterner, r: Span, after: SpanInterner) -> bool {
    let x = a.decode(before@);
    let y = b.decode(before@);
    match combined(x, y) {
        Some(t) => interned_as(r, before@, after, ordered_data(min_pos(x.lo, y.lo), max_pos(x.hi, y.hi), x.ctx, t.2)),
        None => r == (if x.ctx.0 == 0 { b } else { a }) && after == before,
    }
}

/// How two spans combine: when their contexts agree (or when the first is
/// in the root context, or else), the data of both and the parent they share.
pub open spec fn combined(a: SpanData, b: SpanData) -> Option<(SpanData, SpanData, Option<LocalDefId>)> {
    if a.ctx == b.ctx {
        Some((a, b, if a.parent == b.parent { a.parent } else { None }))
    } else {
        None
    }
}

impl Span {
    /// The start of the span.
    pub fn lo(self, interner: &SpanInterner) -> (r: BytePos)
        requires
            self.valid(interner@),
        ensures
            r == self.decode(interner@).lo,
    {
        self.data(interner).lo
    }

    /// The span moved to start at `lo`.
    pub fn with_lo(self, lo: BytePos, interner: &mut SpanInterner) -> (r: Span)
        requires
            old(interner).wf(),
            old(interner)@.len() < u32::MAX,
            self.valid(old(interner)@),
        ensures
            ({
                let d = self.decode(old(interner)@);
                interned_as(r, old(interner)@, *final(interner), ordered_data(lo, d.hi, d.ctx, d.parent))
            }),
    {
        self.data(interner).with_lo(lo, interner)
    }

    /// The end of the span.
    pub fn hi(self, interner: &SpanInterner) -> (r: BytePos)
        requires
            self.valid(interner@),
        ensures
            r == self.decode(interner@).hi,
    {
        self.data(interner).hi
    }

    /// The span moved to end at `hi`.
    pub fn with_hi(self, hi: BytePos, interner: &mut SpanInterner) -> (r: Span)
        requires
            old(interner).wf(),
            old(interner)@.len() < u32::MAX,
            self.valid(old(interner)@),
        ensures
            ({
                let d = self.decode(old(interner)@);
                interned_as(r, old(interner)@, *final(interner), ordered_data(d.lo, hi, d.ctx, d.parent))
            }),
    {
        self.data(interner).with_hi(hi, interner)
    }

    /// The span in context `ctx`.
    pub fn with_ctx(self, ctx: SyntaxContext, interner: &mut SpanInterner) -> (r: Span)
        requires
            old(interner).wf(),
            old(interner)@.len() < u32::MAX,
            self.valid(old(interner)@),
        ensures
            interned_as(r, old(interner)@, *final(interner), SpanData { ctx, ..self.decode(old(interner)@) }),
    {
        let set = |_c: SyntaxContext| -> (n: SyntaxContext)
            ensures
                n == ctx,
        { ctx };
        self.map_ctx(set, interner)
    }

    /// The span of `lo` to `hi` in the root context, without parent.
    pub fn with_root_ctx(lo: BytePos, hi: BytePos, interner: &mut SpanInterner) -> (r: Span)
        requires
            old(interner).wf(),
            old(interner)@.len() < u32::MAX,
        ensures
            interned_as(r, old(interner)@, *final(interner), ordered_data(lo, hi, SyntaxContext(0), None)),
    {
        Span::new(lo, hi, SyntaxContext::root(), None, interner)
    }

    /// The empty span at the start of this one.
    pub fn shrink_to_lo(self, interner: &mut SpanInterner) -> (r: Span)
        requires
            old(interner).wf(),
            old(interner)@.len() < u32::MAX,
            self.valid(old(interner)@),
        ensures
            ({
                let d = self.decode(old(interner)@);
                interned_as(r, old(interner)@, *final(interner), SpanData { hi: d.lo, ..d })
            }),
    {
        let span = self.data_untracked(interner);
        span.with_hi(span.lo, interner)
    }

    /// The empty span at the end of this one.
    pub fn shrink_to_hi(self, interner: &mut SpanInterner) -> (r: Span)
        requires
            old(interner).wf(),
            old(interner)@.len() < u32::MAX,
            self.valid(old(interner)@),
        ensures
            ({
                let d = self.decode(old(interner)@);
                interned_as(r, old(interner)@, *final(interner), SpanData { lo: d.hi, ..d })
            }),
    {
        let span = self.data_untracked(interner);
        span.with_lo(span.hi, interner)
    }

    /// Whether the span is empty.
    pub fn is_empty(self, interner: &SpanInterner) -> (r: bool)
        requires
            self.valid(interner@),
        ensures
            r == (self.decode(interner@).hi == self.decode(interner@).lo),
    {
        let span = self.data_untracked(interner);
        span.hi.0 == span.lo.0
    }

    /// `other` if this is the dummy span, else this span.
    pub fn substitute_dummy(self, other: Span, interner: &SpanInterner) -> (r: Span)
        requires
            self.valid(interner@),
        ensures
            r == if self.decode(interner@).lo.0 == 0 && self.decode(interner@).hi.0 == 0 { other } else { self },
    {
        if self.is_dummy(interner) { other } else { self }
    }

    /// Whether `other` lies within this span.
    pub fn contains(self, other: Span, interner: &SpanInterner) -> (r: bool)
        requires
            self.valid(interner@),
            other.valid(interner@),
        ensures
            r == self.decode(interner@).contains_spec(other.decode(interner@)),
    {
        let span = self.data(interner);
        let other = other.data(interner);
        span.contains(other)
    }

    /// Whether the two spans share a position.
    pub fn overlaps(self, other: Span, interner: &SpanInterner) -> (r: bool)
        requires
            self.valid(interner@),
            other.valid(interner@),
        ensures
            r == (self.decode(interner@).lo.0 < other.decode(interner@).hi.0
                && other.decode(interner@).lo.0 < self.decode(interner@).hi.0),
    {
        let span = self.data(interner);
        let other = other.data(interner);
        span.lo.0 < other.hi.0 && other.lo.0 < span.hi.0
    }

    /// Whether the two spans share a position or touch.
    pub fn overlaps_or_adjacent(self, other: Span, interner: &SpanInterner) -> (r: bool)
        requires
            self.valid(interner@),
            other.valid(interner@),
        ensures
            r == (self.decode(interner@).lo.0 <= other.decode(interner@).hi.0
                && other.decode(interner@).lo.0 <= self.decode(interner@).hi.0),
    {
        let span = self.data(interner);
        let other = other.data(interner);
        span.lo.0 <= other.hi.0 && other.lo.0 <= span.hi.0
    }

    /// Whether the two spans cover the same positions.
    pub fn source_equal(self, other: Span, interner: &SpanInterner) -> (r: bool)
        requires
            self.valid(interner@),
            other.valid(interner@),
        ensures
            r == (self.decode(interner@).lo == other.decode(interner@).lo
                && self.decode(interner@).hi == other.decode(interner@).hi),
    {
        let span = self.data(interner);
        let other = other.data(interner);
        span.lo.0 == other.lo.0 && span.hi.0 == other.hi.0
    }

    /// The part of this span after `other`, if this span ends after it.
    pub fn trim_start(self, other: Span, interner: &mut SpanInterner) -> (r: Option<Span>)
        requires
            old(interner).wf(),
            old(interner)@.len() < u32::MAX,
            self.valid(old(interner)@),
            other.valid(old(interner)@),
        ensures
            ({
                let d = self.decode(old(interner)@);
                let o = other.decode(old(interner)@);
                &&& r is Some <==> d.hi.0 > o.hi.0
                &&& r matches Some(t) ==> interned_as(t, old(interner)@, *final(interner), ordered_data(max_pos(d.lo, o.hi), d.hi, d.ctx, d.parent))
                &&& r is None ==> *final(interner) == *old(interner)
            }),
    {
        let span = self.data(interner);
        let other = other.data(interner);
        if span.hi.0 > other.hi.0 {
            Some(span.with_lo(max_byte_pos(span.lo, other.hi), interner))
        } else {
            None
        }
    }

    /// This span extended to the start of `other`, if this span starts before it.
    pub fn trim_end(self, other: Span, interner: &mut SpanInterner) -> (r: Option<Span>)
        requires
            old(interner).wf(),
            old(interner)@.len() < u32::MAX,
            self.valid(old(interner)@),
            other.valid(old(interner)@),
        ensures
            ({
                let d = self.decode(old(interner)@);
                let o = other.decode(old(interner)@);
                &&& r is Some <==> d.lo.0 < o.lo.0
                &&& r matches Some(t) ==> interned_as(t, old(interner)@, *final(interner), ordered_data(d.lo, max_pos(d.hi, o.lo), d.ctx, d.parent))
                &&& r is None ==> *final(interner) == *old(interner)
            }),
    {
        let span = self.data(interner);
        let other = other.data(interner);
        if span.lo.0 < other.lo.0 {
            Some(span.with_hi(max_byte_pos(span.hi, other.lo), interner))
        } else {
            None
        }
    }

    /// The span cut in two, `pos` bytes after its start.
    pub fn split_at(self, pos: u32, interner: &mut SpanInterner) -> (r: (Span, Span))
        requires
            old(interner).wf(),
            old(interner)@.len() + 1 < u32::MAX,
            self.valid(old(interner)@),
            pos <= self.decode(old(interner)@).hi.0 - self.decode(old(interner)@).lo.0,
        ensures
            ({
                let d = self.decode(old(interner)@);
                let split = BytePos((d.lo.0 + pos) as u32);
                &&& final(interner).wf()
                &&& old(interner)@.is_prefix_of(final(interner)@)
                &&& r.0.valid(final(interner)@)
                &&& r.1.valid(final(interner)@)
                &&& r.0.decode(final(interner)@) == SpanData { hi: split, ..d }
                &&& r.1.decode(final(interner)@) == SpanData { lo: split, ..d }
            }),
    {
        let ghost spans0 = interner@;
        let d = self.data(interner);
        let split_pos = BytePos(d.lo.0 + pos);
        let first = Span::new(d.lo, split_pos, d.ctx, d.parent, interner);
        let ghost spans1 = interner@;
        let second = Span::new(split_pos, d.hi, d.ctx, d.parent, interner);
        proof {
            first.lemma_decode_stable(spans1, interner@);
            crate::compilation_unit::lemma_prefix_trans(spans0, spans1, interner@);
        }
        (first, second)
    }

    /// How the spans `a_orig` and `b_orig` combine: their data and shared
    /// parent when their contexts agree; otherwise the one to fall back on,
    /// `b_orig` when `a_orig` is in the root context and `a_orig` else.
    fn prepare_to_combine(a_orig: Span, b_orig: Span, interner: &SpanInterner) -> (r: Result<(SpanData, SpanData, Option<LocalDefId>), Span>)
        requires
            a_orig.valid(interner@),
            b_orig.valid(interner@),
        ensures
            ({
                let a = a_orig.decode(interner@);
                let b = b_orig.decode(interner@);
                match combined(a, b) {
                    Some(t) => r == Ok::<(SpanData, SpanData, Option<LocalDefId>), Span>(t),
                    None => r == Err::<(SpanData, SpanData, Option<LocalDefId>), Span>(if a.ctx.0 == 0 { b_orig } else { a_orig }),
                }
            }),
    {
        let a = a_orig.data(interner);
        let b = b_orig.data(interner);
        if a.ctx.0 == b.ctx.0 {
            let parent = if a.parent == b.parent { a.parent } else { None };
            return Ok((a, b, parent));
        }
        let a_is_callsite = a.ctx.is_root();
        Err(if a_is_callsite { b_orig } else { a_orig })
    }

    /// This span in the context of `neighbor`, when the two combine; else
    /// this span unchanged.
    pub fn with_neighbor(self, neighbor: Span, interner: &mut SpanInterner) -> (r: Span)
        requires
            old(interner).wf(),
            old(interner)@.len() < u32::MAX,
            self.valid(old(interner)@),
            neighbor.valid(old(interner)@),
        ensures
            ({
                let a = self.decode(old(interner)@);
                match combined(a, neighbor.decode(old(interner)@)) {
                    Some(_) => interned_as(r, old(interner)@, *final(interner), ordered_data(a.lo, a.hi, a.ctx, a.parent))
                        && r == Span::encode(ordered_data(a.lo, a.hi, a.ctx, a.parent), final(interner)@),
                    None => r == self && *final(interner) == *old(interner),
                }
            }),
    {
        match Span::prepare_to_combine(self, neighbor, interner) {
            Ok((this, _, _)) => this.span(interner),
            Err(_) => self,
        }
    }

    /// The span that encloses this span and `end`, when they combine; else
    /// the span to fall back on.
    pub fn to(self, end: Span, interner: &mut SpanInterner) -> (r: Span)
        requires
            old(interner).wf(),
            old(interner)@.len() < u32::MAX,
            self.valid(old(interner)@),
            end.valid(old(interner)@),
        ensures
            spans_joined(self, end, *old(interner), r, *final(interner)),
    {
        match Span::prepare_to_combine(self, end, interner) {
            Ok((from, to, parent)) => Span::new(
                min_byte_pos(from.lo, to.lo),
                max_byte_pos(from.hi, to.hi),
                from.ctx,
                parent,
                interner,
            ),
            Err(fallback) => fallback,
        }
    }

    /// The span between the end of this span and the start of `end`, when
    /// they combine; else the span to fall back on.
    pub fn between(self, end: Span, interner: &mut SpanInterner) -> (r: Span)
        requires
            old(interner).wf(),
            old(interner)@.len() < u32::MAX,
            self.valid(old(interner)@),
            end.valid(old(interner)@),
        ensures
            ({
                let a = self.decode(old(interner)@);
                let b = end.decode(old(interner)@);
                match combined(a, b) {
                    Some(t) => interned_as(r, old(interner)@, *final(interner), ordered_data(min_pos(a.hi, b.hi), max_pos(a.lo, b.lo), a.ctx, t.2)),
                    None => r == (if a.ctx.0 == 0 { end } else { self }) && *final(interner) == *old(interner),
                }
            }),
    {
        match Span::prepare_to_combine(self, end, interner) {
            Ok((from, to, parent)) => Span::new(
                min_byte_pos(from.hi, to.hi),
                max_byte_pos(from.lo, to.lo),
                from.ctx,
                parent,
                interner,
            ),
            Err(fallback) => fallback,
        }
    }

    /// The span from the start of this span to the start of `end`, when they
    /// combine; else the span to fall back on.
    pub fn until(self, end: Span, interner: &mut SpanInterner) -> (r: Span)
        requires
            old(interner).wf(),
            old(interner)@.len() < u32::MAX,
            self.valid(old(interner)@),
            end.valid(old(interner)@),
        ensures
            ({
                let a = self.decode(old(interner)@);
                let b = end.decode(old(interner)@);
                match combined(a, b) {
                    Some(t) => interned_as(r, old(interner)@, *final(interner), ordered_data(min_pos(a.lo, b.lo), max_pos(a.lo, b.lo), a.ctx, t.2)),
                    None => r == (if a.ctx.0 == 0 { end } else { self }) && *final(interner) == *old(interner),
                }
            }),
    {
        match Span::prepare_to_combine(self, end, interner) {
            Ok((from, to, parent)) => Span::new(
                min_byte_pos(from.lo, to.lo),
                max_byte_pos(from.lo, to.lo),
                from.ctx,
                parent,
                interner,
            ),
            Err(fallback) => fallback,
        }
    }

    /// The part of this span that `inner` gives in bytes from its start.
    pub fn from_inner(self, inner: InnerSpan, interner: &mut SpanInterner) -> (r: Span)
        requires
            old(interner).wf(),
            old(interner)@.len() < u32::MAX,
            self.valid(old(interner)@),
            self.decode(old(interner)@).lo.0 + (inner.start as u32) <= u32::MAX,
            self.decode(old(interner)@).lo.0 + (inner.end as u32) <= u32::MAX,
        ensures
            ({
                let d = self.decode(old(interner)@);
                interned_as(r, old(interner)@, *final(interner), ordered_data(
                    BytePos((d.lo.0 + (inner.start as u32)) as u32),
                    BytePos((d.lo.0 + (inner.end as u32)) as u32),
                    d.ctx,
                    d.parent,
                ))
            }),
    {
        let span = self.data(interner);
        let start = BytePos::from_usize(inner.start);
        let end = BytePos::from_usize(inner.end);
        Span::new(span.lo.plus(start), span.lo.plus(end), span.ctx, span.parent, interner)
    }
}

impl SpanData {
    /// Whether `other` lies within this span.
    pub open spec fn contains_spec(self, other: SpanData) -> bool {
        self.lo.0 <= other.lo.0 && other.hi.0 <= self.hi.0
    }
}

/// A range of bytes within a span, relative to its start.
#[derive(Clone, Copy, PartialEq, Eq, Debug, Structural)]
pub struct InnerSpan {
    pub start: usize,
    pub end: usize,
}

impl InnerSpan {
    pub fn new(start: usize, end: usize) -> (r: InnerSpan)
        ensures
            r.start == start,
            r.end == end,
    {
        InnerSpan { start, end }
    }
}

} // verus!
