use terebinth::terebinth_ast::ast::{GenericArgs, PathSegment};
use terebinth::terebinth_span::edition::Edition;
use terebinth::terebinth_span::pos::{BytePos, CharPos, Pos};
use terebinth::terebinth_span::session::SessionGlobals;
use terebinth::terebinth_span::span_encoding::{
    DefIndex, InnerSpan, LocalDefId, Span, SpanData, SpanInterner, SyntaxContext,
};
use terebinth::terebinth_span::symbol::{self, Ident, Interner, Symbol};

fn data(lo: u32, hi: u32, ctx: u32, parent: Option<u32>) -> SpanData {
    SpanData {
        lo: BytePos(lo),
        hi: BytePos(hi),
        ctx: SyntaxContext(ctx),
        parent: parent.map(|p| LocalDefId {
            local_def_index: DefIndex(p),
        }),
    }
}

#[test]
fn inline_span_roundtrips() {
    let mut interner = SpanInterner::new();
    let span = Span::new(BytePos(10), BytePos(4), SyntaxContext(3), None, &mut interner);
    assert_eq!(span.data(&interner), data(4, 10, 3, None));
    let parented = Span::new(BytePos(1), BytePos(5), SyntaxContext(0), Some(LocalDefId { local_def_index: DefIndex(7) }), &mut interner);
    assert_eq!(parented.data(&interner), data(1, 5, 0, Some(7)));
    assert_eq!(parented.parent(&interner), Some(LocalDefId { local_def_index: DefIndex(7) }));
    assert_eq!(interner_len_after(&mut interner), 0);
}

fn interner_len_after(interner: &mut SpanInterner) -> u32 {
    // Interning a fresh span gives it the next index.
    let probe = data(0, 0, u32::MAX, None);
    let before_probe = interner.intern(&probe);
    before_probe
}

#[test]
fn long_and_large_spans_are_interned() {
    let mut interner = SpanInterner::new();
    let long = Span::new(BytePos(0), BytePos(100_000), SyntaxContext(1), None, &mut interner);
    assert_eq!(long.data(&interner), data(0, 100_000, 1, None));
    let big_ctx = Span::new(BytePos(2), BytePos(3), SyntaxContext(40_000), None, &mut interner);
    assert_eq!(big_ctx.data(&interner), data(2, 3, 40_000, None));
    assert!(!big_ctx.eq_ctx(long, &interner));
    let again = Span::new(BytePos(0), BytePos(100_000), SyntaxContext(1), None, &mut interner);
    assert_eq!(again, long);
    assert_eq!(again.ctx(&interner), SyntaxContext(1));
    assert!(long.from_expansion(&interner));
}

#[test]
fn span_operations() {
    let mut i = SpanInterner::new();
    let a = Span::with_root_ctx(BytePos(2), BytePos(8), &mut i);
    let b = Span::with_root_ctx(BytePos(5), BytePos(12), &mut i);
    assert_eq!(a.lo(&i), BytePos(2));
    assert_eq!(a.hi(&i), BytePos(8));
    assert!(a.overlaps(b, &i));
    assert!(!a.contains(b, &i));
    let joined = a.to(b, &mut i);
    assert_eq!(joined.data(&i), data(2, 12, 0, None));
    let gap = a.between(b, &mut i);
    assert_eq!(gap.data(&i), data(5, 8, 0, None));
    let until = a.until(b, &mut i);
    assert_eq!(until.data(&i), data(2, 5, 0, None));
    let lo = a.shrink_to_lo(&mut i);
    assert!(lo.is_empty(&i));
    assert_eq!(a.shrink_to_hi(&mut i).data(&i), data(8, 8, 0, None));
    let (left, right) = a.split_at(2, &mut i);
    assert_eq!(left.data(&i), data(2, 4, 0, None));
    assert_eq!(right.data(&i), data(4, 8, 0, None));
    assert_eq!(a.trim_start(b, &mut i), None);
    let t = b.trim_start(a, &mut i).unwrap();
    assert_eq!(t.data(&i), data(8, 12, 0, None));
    let inner = a.from_inner(InnerSpan::new(1, 3), &mut i);
    assert_eq!(inner.data(&i), data(3, 5, 0, None));
    assert!(Span::dummy().is_dummy(&i));
    assert_eq!(Span::dummy().substitute_dummy(a, &i), a);
    assert!(a.source_equal(a, &i));
    let c = a.with_ctx(SyntaxContext(9), &mut i);
    assert_eq!(c.data(&i), data(2, 8, 9, None));
    assert_eq!(a.to(c, &mut i), c);
}

#[test]
fn positions_convert() {
    assert_eq!(BytePos::from_usize(5), BytePos(5));
    assert_eq!(BytePos(7).to_usize(), 7);
    assert_eq!(CharPos::from_u32(3).to_u32(), 3);
    assert_eq!(BytePos(2).plus(BytePos(3)), BytePos(5));
    assert_eq!(BytePos(5).minus(BytePos(3)), BytePos(2));
}

#[test]
fn symbols_intern_once() {
    let mut interner = Interner::fresh();
    let a = Symbol::intern("hello", &mut interner);
    let b = Symbol::intern("hello", &mut interner);
    assert_eq!(a, b);
    assert_eq!(a.as_str(&interner), "hello");
    assert_eq!(a.as_u32(), symbol::PREINTERNED_SYMBOLS_COUNT);
    let kw = Symbol::intern("while", &mut interner);
    assert_eq!(kw.as_u32(), symbol::KW_WHILE);
    assert!(kw.is_used_keyword_always());
    assert!(Symbol::intern("true", &mut interner).is_bool_lit());
    assert!(Symbol::intern("", &mut interner).is_empty());
    assert!(Symbol(1).is_special());
    assert!(Symbol(5).is_preinterned());
    assert!(!a.is_reserved(Edition::Edition2025));
}

#[test]
fn idents() {
    let mut interner = Interner::fresh();
    let id = Ident::from_str("123", &mut interner);
    assert!(id.is_numeric(&interner));
    assert_eq!(id.as_str(&interner), "123");
    assert!(!Ident::empty().is_numeric(&interner));
    let kw = symbol::used_keywords(Edition::Edition2025);
    assert_eq!(kw.len(), 15);
    assert_eq!(kw[0], Symbol(symbol::KW_BREAK));
    let printer = symbol::IdentPrinter::new(Symbol(2), true);
    assert_eq!(printer.to_display_string(&interner), "r#break");
}

#[test]
fn editions() {
    assert_eq!(Edition::from_str("2025"), Ok(Edition::Edition2025));
    assert_eq!(Edition::from_str("2026"), Err(()));
    assert_eq!(Edition::EditionFuture.to_display_string(), "Future");
    assert_eq!(Edition::Edition2025.lint_name(), "terebinth_2025_compatibility");
    assert!(Edition::Edition2025.is_stable());
    assert!(Edition::EditionFuture.at_least_edition_future());
    assert!(!Edition::Edition2025.at_least_edition_future());
}

#[test]
fn session_globals_start_fresh() {
    let g = SessionGlobals::new(Edition::Edition2025);
    assert_eq!(g.edition, Edition::Edition2025);
}

#[test]
fn integer_symbols_are_decimal_texts() {
    let mut interner = Interner::fresh();
    let seven = Symbol::integer(7, &mut interner);
    assert_eq!(seven.as_u32(), symbol::SYMBOL_DIGITS_BASE + 7);
    assert_eq!(seven.as_str(&interner), "7");
    let big = Symbol::integer(4096, &mut interner);
    assert_eq!(big.as_str(&interner), "4096");
    assert_eq!(Symbol::integer(4096, &mut interner), big);
    assert_eq!(Symbol::intern("4096", &mut interner), big);
    assert_eq!(Symbol::integer(10, &mut interner).as_str(&interner), "10");
}

#[test]
fn interning_again_leaves_the_interner_as_it_was() {
    let mut interner = Interner::fresh();
    let a = Symbol::intern("alpha", &mut interner);
    let again = Symbol::intern("alpha", &mut interner);
    assert_eq!(a, again);
    let b = Symbol::intern("beta", &mut interner);
    assert_ne!(a, b);
    assert_eq!(b.as_u32(), a.as_u32() + 1);
}

#[test]
fn path_segment_span_joins_its_arguments() {
    let mut i = SpanInterner::new();
    let mut names = Interner::fresh();
    let ident = Ident::new(Symbol::intern("Vec", &mut names), Span::with_root_ctx(BytePos(3), BytePos(6), &mut i));
    let bare = PathSegment::from_ident(ident);
    assert_eq!(bare.span(&mut i), ident.span);
    let args = GenericArgs { span: Span::with_root_ctx(BytePos(6), BytePos(11), &mut i) };
    let with_args = PathSegment { args: Some(args), ..bare };
    assert_eq!(with_args.span(&mut i).data(&i), data(3, 11, 0, None));
}
