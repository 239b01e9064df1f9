//! Interned strings: each string the compiler meets is stored once, and a
//! [`Symbol`] is its index in the [`Interner`]. The keywords of the language
//! come first, in a fixed order, so that their symbols are known in advance.

use vstd::prelude::*;

use crate::diagnostics::decimal_text;
use crate::terebinth_span::edition::Edition;
use crate::terebinth_span::span_encoding::{Span, SpanData, SpanInterner, interned_as};

verus! {

/// The strings stored before any other, in order: the keywords, the
/// predefined symbols, then the ten digits.
pub open spec fn preinterned() -> Seq<Seq<char>> {
    seq![
        ""@, "_"@, "break"@, "const"@, "continue"@, "else"@, "enum"@, "false"@, "func"@, "for"@,
        "if"@, "let"@, "return"@, "static"@, "struct"@, "true"@, "type"@, "while"@, "Break"@,
        "0"@, "1"@, "2"@, "3"@, "4"@, "5"@, "6"@, "7"@, "8"@, "9"@,
    ]
}

/// How many strings are stored before any other.
pub const PREINTERNED_SYMBOLS_COUNT: u32 = 29;
/// The symbol of the digit `0`; the other digits follow it.
pub const SYMBOL_DIGITS_BASE: u32 = 19;

/// The keyword symbols, by their place among the stored strings.
pub const KW_EMPTY: u32 = 0;
pub const KW_UNDERSCORE: u32 = 1;
pub const KW_BREAK: u32 = 2;
pub const KW_FALSE: u32 = 7;
pub const KW_TRUE: u32 = 15;
pub const KW_WHILE: u32 = 17;

/// An interned string: its index in the interner.
#[derive(Clone, Copy, PartialEq, Eq, Hash, Debug, Structural)]
pub struct Symbol(pub u32);

/// The interner: every string it was given, each once, in the order given.
pub struct Interner {
    strings: Vec<String>,
}

impl View for Interner {
    type V = Seq<Seq<char>>;

    closed spec fn view(&self) -> Seq<Seq<char>> {
        self.strings@.map_values(|s: String| s@)
    }
}

/// No string is stored twice.
pub open spec fn distinct_strings(strings: Seq<Seq<char>>) -> bool {
    forall|i: int, j: int| 0 <= i < j < strings.len() ==> strings[i] != strings[j]
}

impl Interner {
    pub open spec fn wf(&self) -> bool {
        &&& distinct_strings(self@)
        &&& preinterned().is_prefix_of(self@)
    }

    /// An interner that holds the preinterned strings and nothing else.
    pub fn fresh() -> (r: Interner)
        ensures
            r.wf(),
            r@ == preinterned(),
    {
        let mut strings: Vec<String> = Vec::new();
        strings.push(String::from_str(""));
        strings.push(String::from_str("_"));
        strings.push(String::from_str("break"));
        strings.push(String::from_str("const"));
        strings.push(String::from_str("continue"));
        strings.push(String::from_str("else"));
        strings.push(String::from_str("enum"));
        strings.push(String::from_str("false"));
        strings.push(String::from_str("func"));
        strings.push(String::from_str("for"));
        strings.push(String::from_str("if"));
        strings.push(String::from_str("let"));
        strings.push(String::from_str("return"));
        strings.push(String::from_str("static"));
        strings.push(String::from_str("struct"));
        strings.push(String::from_str("true"));
        strings.push(String::from_str("type"));
        strings.push(String::from_str("while"));
        strings.push(String::from_str("Break"));
        strings.push(String::from_str("0"));
        strings.push(String::from_str("1"));
        strings.push(String::from_str("2"));
        strings.push(String::from_str("3"));
        strings.push(String::from_str("4"));
        strings.push(String::from_str("5"));
        strings.push(String::from_str("6"));
        strings.push(String::from_str("7"));
        strings.push(String::from_str("8"));
        strings.push(String::from_str("9"));
        let r = Interner { strings };
        assert(r@ =~= preinterned());
        proof { lemma_preinterned_distinct(); }
        assert(preinterned() =~= r@.subrange(0, preinterned().len() as int));
        r
    }

    /// The symbol of `string`, after storing it if it was not stored yet.
    pub fn intern(&mut self, string: &str) -> (r: Symbol)
        requires
            old(self).wf(),
            old(self)@.len() < u32::MAX,
        ensures
            final(self).wf(),
            r.0 < final(self)@.len(),
            final(self)@[r.0 as int] == string@,
            old(self)@.contains(string@) ==> final(self)@ == old(self)@,
            !old(self)@.contains(string@) ==> final(self)@ == old(self)@.push(string@) && r.0 == old(self)@.len(),
    {
        let mut i: usize = 0;
        while i < self.strings.len()
            invariant
                i <= self@.len(),
                self@ == old(self)@,
                self.wf(),
                self@.len() < u32::MAX,
                forall|k: int| 0 <= k < i ==> self@[k] != string@,
            decreases self@.len() - i,
        {
            if crate::text::str_equal(self.strings[i].as_str(), string) {
                return Symbol(i as u32);
            }
            i = i + 1;
        }
        let n = self.strings.len();
        let ghost before = self@;
        self.strings.push(String::from_str(string));
        proof {
            assert(self@ =~= before.push(string@));
            assert(preinterned() =~= self@.subrange(0, preinterned().len() as int)) by {
                assert(preinterned() =~= before.subrange(0, preinterned().len() as int));
            }
        }
        Symbol(n as u32)
    }

    /// The string of `symbol`.
    pub fn get(&self, symbol: Symbol) -> (r: &str)
        requires
            symbol.0 < self@.len(),
        ensures
            r@ == self@[symbol.0 as int],
    {
        self.strings[symbol.0 as usize].as_str()
    }
}

/// The preinterned strings are distinct.
pub proof fn lemma_preinterned_distinct()
    ensures
        distinct_strings(preinterned()),
{
    reveal_strlit("");
    reveal_strlit("_");
    reveal_strlit("break");
    reveal_strlit("const");
    reveal_strlit("continue");
    reveal_strlit("else");
    reveal_strlit("enum");
    reveal_strlit("false");
    reveal_strlit("func");
    reveal_strlit("for");
    reveal_strlit("if");
    reveal_strlit("let");
    reveal_strlit("return");
    reveal_strlit("static");
    reveal_strlit("struct");
    reveal_strlit("true");
    reveal_strlit("type");
    reveal_strlit("while");
    reveal_strlit("Break");
    reveal_strlit("0");
    reveal_strlit("1");
    reveal_strlit("2");
    reveal_strlit("3");
    reveal_strlit("4");
    reveal_strlit("5");
    reveal_strlit("6");
    reveal_strlit("7");
    reveal_strlit("8");
    reveal_strlit("9");
    let p = preinterned();
    assert forall|i: int, j: int| 0 <= i < j < p.len() implies p[i] != p[j] by {
        if p[i].len() == p[j].len() && p[i].len() > 0 {
            assert(p[i][0] != p[j][0] || p[i][p[i].len() - 1] != p[j][p[j].len() - 1] || p[i][1] != p[j][1]);
        }
    }
}

/// Calls `itoa::Buffer::format`, which writes `n` in decimal, and copies the
/// text out of the buffer.
#[verifier::external_body]
fn format_decimal(n: usize) -> (r: String)
    ensures
        r@ == decimal_text(n as nat),
{
    let mut buffer = itoa::Buffer::new();
    buffer.format(n).to_string()
}

/// The preinterned digit strings are the decimal texts of 0 to 9.
proof fn lemma_digit_symbols(n: nat)
    requires
        n < 10,
    ensures
        preinterned()[SYMBOL_DIGITS_BASE + n] == decimal_text(n),
{
    reveal_strlit("0");
    reveal_strlit("1");
    reveal_strlit("2");
    reveal_strlit("3");
    reveal_strlit("4");
    reveal_strlit("5");
    reveal_strlit("6");
    reveal_strlit("7");
    reveal_strlit("8");
    reveal_strlit("9");
    assert(decimal_text(n) =~= seq![(('0' as nat) + n) as char]);
}

impl Symbol {
    pub fn new_from_decoded(n: u32) -> (r: Symbol)
        ensures
            r.0 == n,
    {
        Symbol(n)
    }

    /// The symbol of `string` in `interner`.
    pub fn intern(string: &str, interner: &mut Interner) -> (r: Symbol)
        requires
            old(interner).wf(),
            old(interner)@.len() < u32::MAX,
        ensures
            final(interner).wf(),
            r.0 < final(interner)@.len(),
            final(interner)@[r.0 as int] == string@,
            old(interner)@.is_prefix_of(final(interner)@),
            final(interner)@.len() <= old(interner)@.len() + 1,
            old(interner)@.contains(string@) ==> final(interner)@ == old(interner)@,
    {
        let r = interner.intern(string);
        proof {
            assert(old(interner)@ =~= interner@.subrange(0, old(interner)@.len() as int));
        }
        r
    }

    /// The symbol of `n` written in decimal: one of the preinterned digits
    /// below ten, else the interned text.
    pub fn integer(n: usize, interner: &mut Interner) -> (r: Symbol)
        requires
            old(interner).wf(),
            old(interner)@.len() < u32::MAX,
        ensures
            final(interner).wf(),
            r.0 < final(interner)@.len(),
            final(interner)@[r.0 as int] == decimal_text(n as nat),
            old(interner)@.is_prefix_of(final(interner)@),
            final(interner)@.len() <= old(interner)@.len() + 1,
            n < 10 ==> r.0 == SYMBOL_DIGITS_BASE + n && final(interner)@ == old(interner)@,
    {
        if n < 10 {
            proof {
                lemma_digit_symbols(n as nat);
                assert(preinterned()[SYMBOL_DIGITS_BASE + n] == interner@[SYMBOL_DIGITS_BASE + n]);
                assert(old(interner)@ =~= interner@.subrange(0, old(interner)@.len() as int));
            }
            return Symbol(SYMBOL_DIGITS_BASE + n as u32);
        }
        let printed = format_decimal(n);
        Symbol::intern(printed.as_str(), interner)
    }

    /// The string the symbol stands for.
    pub fn as_str(self, interner: &Interner) -> (r: &str)
        requires
            self.0 < interner@.len(),
        ensures
            r@ == interner@[self.0 as int],
    {
        interner.get(self)
    }

    pub fn as_u32(self) -> (r: u32)
        ensures
            r == self.0,
    {
        self.0
    }

    /// Whether this is the empty symbol.
    pub fn is_empty(self) -> (r: bool)
        ensures
            r == (self.0 == KW_EMPTY),
    {
        self.0 == KW_EMPTY
    }

    /// Whether this is the empty symbol or `_`.
    pub fn is_special(self) -> (r: bool)
        ensures
            r == (self.0 <= KW_UNDERSCORE),
    {
        self.0 <= KW_UNDERSCORE
    }

    /// Whether this is a keyword of every edition.
    pub fn is_used_keyword_always(self) -> (r: bool)
        ensures
            r == (KW_BREAK <= self.0 <= KW_WHILE),
    {
        self.0 >= KW_BREAK && self.0 <= KW_WHILE
    }

    /// Whether the symbol may not be used as an identifier.
    pub fn is_reserved(self, edition: Edition) -> (r: bool)
        ensures
            r == (self.0 <= KW_UNDERSCORE || KW_BREAK <= self.0 <= KW_WHILE),
    {
        self.is_special() || self.is_used_keyword_always()
    }

    /// Whether this is `true` or `false`.
    pub fn is_bool_lit(self) -> (r: bool)
        ensures
            r == (self.0 == KW_TRUE || self.0 == KW_FALSE),
    {
        self.0 == KW_TRUE || self.0 == KW_FALSE
    }

    /// Whether the symbol is one of those stored before any other.
    pub fn is_preinterned(self) -> (r: bool)
        ensures
            r == (self.0 < PREINTERNED_SYMBOLS_COUNT),
    {
        self.0 < PREINTERNED_SYMBOLS_COUNT
    }
}

/// The keywords of every edition, in order.
pub fn used_keywords(edition: Edition) -> (r: Vec<Symbol>)
    ensures
        r@.len() == KW_WHILE - KW_BREAK,
        forall|i: int| 0 <= i < r@.len() ==> (#[trigger] r@[i]).0 == KW_BREAK + i,
{
    let mut r: Vec<Symbol> = Vec::new();
    let mut kw: u32 = KW_EMPTY;
    while kw < KW_WHILE
        invariant
            KW_EMPTY <= kw <= KW_WHILE,
            kw <= KW_BREAK ==> r@.len() == 0,
            kw > KW_BREAK ==> r@.len() == kw - KW_BREAK,
            forall|i: int| 0 <= i < r@.len() ==> (#[trigger] r@[i]).0 == KW_BREAK + i,
        decreases KW_WHILE - kw,
    {
        let symbol = Symbol(kw);
        if symbol.is_used_keyword_always() {
            r.push(symbol);
        }
        kw = kw + 1;
    }
    r
}

/// An identifier: a name and where it was written.
#[derive(Clone, Copy, Debug)]
pub struct Ident {
    pub name: Symbol,
    pub span: Span,
}

impl Ident {
    pub fn new(name: Symbol, span: Span) -> (r: Ident)
        ensures
            r.name == name,
            r.span == span,
    {
        Ident { name, span }
    }

    /// The identifier `name` with the dummy span.
    pub fn with_dummy_span(name: Symbol) -> (r: Ident)
        ensures
            r.name == name,
            r.span == Span::dummy_spec(),
    {
        Ident::new(name, Span::dummy())
    }

    /// The empty identifier.
    pub fn empty() -> (r: Ident)
        ensures
            r.name.0 == KW_EMPTY,
            r.span == Span::dummy_spec(),
    {
        Ident::with_dummy_span(Symbol(KW_EMPTY))
    }

    /// The identifier `string`, with the dummy span.
    pub fn from_str(string: &str, interner: &mut Interner) -> (r: Ident)
        requires
            old(interner).wf(),
            old(interner)@.len() < u32::MAX,
        ensures
            final(interner).wf(),
            old(interner)@.is_prefix_of(final(interner)@),
            r.name.0 < final(interner)@.len(),
            final(interner)@[r.name.0 as int] == string@,
            final(interner)@.len() <= old(interner)@.len() + 1,
            old(interner)@.contains(string@) ==> final(interner)@ == old(interner)@,
            r.span == Span::dummy_spec(),
    {
        Ident::with_dummy_span(Symbol::intern(string, interner))
    }

    /// The identifier `string` written at `span`.
    pub fn from_str_and_span(string: &str, span: Span, interner: &mut Interner) -> (r: Ident)
        requires
            old(interner).wf(),
            old(interner)@.len() < u32::MAX,
        ensures
            final(interner).wf(),
            old(interner)@.is_prefix_of(final(interner)@),
            r.name.0 < final(interner)@.len(),
            final(interner)@[r.name.0 as int] == string@,
            final(interner)@.len() <= old(interner)@.len() + 1,
            old(interner)@.contains(string@) ==> final(interner)@ == old(interner)@,
            r.span == span,
    {
        Ident::new(Symbol::intern(string, interner), span)
    }

    /// The identifier moved to the position of `span`, keeping its context.
    pub fn with_span_pos(self, span: Span, spans: &mut SpanInterner) -> (r: Ident)
        requires
            old(spans).wf(),
            old(spans)@.len() < u32::MAX,
            self.span.valid(old(spans)@),
            span.valid(old(spans)@),
        ensures
            r.name == self.name,
            interned_as(r.span, old(spans)@, *final(spans), SpanData { ctx: self.span.decode(old(spans)@).ctx, ..span.decode(old(spans)@) }),
    {
        let ctx = self.span.ctx(spans);
        Ident::new(self.name, span.with_ctx(ctx, spans))
    }

    /// The string of the identifier.
    pub fn as_str<'a>(&self, interner: &'a Interner) -> (r: &'a str)
        requires
            self.name.0 < interner@.len(),
        ensures
            r@ == interner@[self.name.0 as int],
    {
        self.name.as_str(interner)
    }

    pub fn is_special(self) -> (r: bool)
        ensures
            r == (self.name.0 <= KW_UNDERSCORE),
    {
        self.name.is_special()
    }

    pub fn is_used_keyword(self) -> (r: bool)
        ensures
            r == (KW_BREAK <= self.name.0 <= KW_WHILE),
    {
        self.name.is_used_keyword_always()
    }

    pub fn is_reserved(self, edition: Edition) -> (r: bool)
        ensures
            r == (self.name.0 <= KW_UNDERSCORE || KW_BREAK <= self.name.0 <= KW_WHILE),
    {
        self.name.is_reserved(edition)
    }

    /// Whether the identifier is made of ASCII digits only, and not empty.
    pub fn is_numeric(self, interner: &Interner) -> (r: bool)
        requires
            self.name.0 < interner@.len(),
        ensures
            r == (self.name.0 != KW_EMPTY && forall|i: int| 0 <= i < interner@[self.name.0 as int].len()
                ==> crate::text::is_ascii_digit(#[trigger] interner@[self.name.0 as int][i])),
    {
        if self.name.is_empty() {
            return false;
        }
        let s = self.as_str(interner);
        let n = s.unicode_len();
        let mut i: usize = 0;
        while i < n
            invariant
                n == s@.len(),
                i <= n,
                self.name.0 < interner@.len(),
                self.name.0 != KW_EMPTY,
                s@ == interner@[self.name.0 as int],
                forall|j: int| 0 <= j < i ==> crate::text::is_ascii_digit(#[trigger] s@[j]),
            decreases n - i,
        {
            let c = s.get_char(i);
            if !('0' <= c && c <= '9') {
                assert(!crate::text::is_ascii_digit(s@[i as int]));
                return false;
            }
            i = i + 1;
        }
        true
    }
}

/// How an identifier is printed: its string, after `r#` when it is raw.
pub struct IdentPrinter {
    pub symbol: Symbol,
    pub is_raw: bool,
}

impl IdentPrinter {
    pub fn new(symbol: Symbol, is_raw: bool) -> (r: IdentPrinter)
        ensures
            r.symbol == symbol,
            r.is_raw == is_raw,
    {
        IdentPrinter { symbol, is_raw }
    }

    pub fn for_ast_ident(ident: Ident, is_raw: bool) -> (r: IdentPrinter)
        ensures
            r.symbol == ident.name,
            r.is_raw == is_raw,
    {
        IdentPrinter::new(ident.name, is_raw)
    }

    /// The printed identifier.
    pub fn to_display_string(&self, interner: &Interner) -> (r: String)
        requires
            self.symbol.0 < interner@.len(),
        ensures
            r@ == if self.is_raw { "r#"@ + interner@[self.symbol.0 as int] } else { interner@[self.symbol.0 as int] },
    {
        let mut out = String::new();
        if self.is_raw {
            out.append("r#");
        }
        out.append(self.symbol.as_str(interner));
        out
    }
}

/// A string has one symbol: two places of an interner that hold the same
/// string are the same place, so interning a string again gives the symbol
/// it got before.
pub proof fn lemma_symbol_unique(strings: Seq<Seq<char>>, s: Seq<char>, a: int, b: int)
    requires
        distinct_strings(strings),
        0 <= a < strings.len(),
        0 <= b < strings.len(),
        strings[a] == s,
        strings[b] == s,
    ensures
        a == b,
{
}

} // verus!
