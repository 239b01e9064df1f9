//! The lexical grammar, as functions of the characters of the input: for
//! each construct, where it ends when it starts at a given position.

use vstd::prelude::*;

use crate::text::{is_ascii_digit, unicode_alphabetic, unicode_white_space};

verus! {

/// Whether `c` may continue an identifier (the Unicode `XID_Continue`
/// property), as `unicode_xid` reports it.
pub uninterp spec fn char_is_xid_continue(c: char) -> bool;

/// `UnicodeXID::is_xid_continue`, with its ASCII part written out: letters,
/// digits and `_`.
pub open spec fn unicode_xid_continue(c: char) -> bool {
    if (c as u32) < 128 {
        crate::text::is_ascii_letter(c) || ('0' <= c && c <= '9') || c == '_'
    } else {
        char_is_xid_continue(c)
    }
}

/// The character at `i`, or NUL past the end.
pub open spec fn at(s: Seq<char>, i: int) -> char {
    if 0 <= i < s.len() { s[i] } else { '\0' }
}

/// Whether `c` is an ASCII character.
pub open spec fn is_ascii_char(c: char) -> bool {
    (c as u32) < 128
}

/// The number of bytes of `c` in UTF-8.
pub open spec fn utf8_len(c: char) -> int {
    if (c as u32) < 0x80 {
        1
    } else if (c as u32) < 0x800 {
        2
    } else if (c as u32) < 0x10000 {
        3
    } else {
        4
    }
}

/// The low 32 bits of a byte count, as a cast to `u32` keeps them.
pub open spec fn low32(n: int) -> u32 {
    (n % 0x1_0000_0000) as u32
}

/// The sum of the UTF-8 lengths of the characters of `cs`.
pub open spec fn utf8_len_sum(cs: Seq<char>) -> int
    decreases cs.len(),
{
    if cs.len() == 0 {
        0
    } else {
        utf8_len_sum(cs.drop_last()) + utf8_len(cs.last())
    }
}

/// The sum of the lengths of `tokens`, in bytes.
pub open spec fn token_lens_sum(tokens: Seq<Token>) -> int
    decreases tokens.len(),
{
    if tokens.len() == 0 {
        0
    } else {
        token_lens_sum(tokens.drop_last()) + tokens.last().len
    }
}

/// The number of bytes of `s[a..b]` in UTF-8.
pub open spec fn utf8_bytes(s: Seq<char>, a: int, b: int) -> int
    decreases b - a,
{
    if b <= a {
        0
    } else {
        utf8_bytes(s, a, b - 1) + utf8_len(s[b - 1])
    }
}

/// The end of the run, from `i`, of characters that satisfy `p`.
pub open spec fn while_end(s: Seq<char>, i: int, p: spec_fn(char) -> bool) -> int
    decreases s.len() - i,
{
    if 0 <= i < s.len() && p(s[i]) {
        while_end(s, i + 1, p)
    } else {
        i
    }
}

/// The characters that may continue an identifier.
pub open spec fn xid_continue() -> spec_fn(char) -> bool {
    |c: char| unicode_xid_continue(c)
}

/// The characters of the tail of an invalid identifier.
pub open spec fn invalid_ident_char() -> spec_fn(char) -> bool {
    |c: char| unicode_xid_continue(c) || !is_ascii_char(c) || c == '\u{200d}'
}

/// The whitespace characters.
pub open spec fn whitespace_char() -> spec_fn(char) -> bool {
    |c: char| unicode_white_space(c)
}

/// The position of the first `c` at or after `i`, or the end.
pub open spec fn until_end(s: Seq<char>, i: int, c: char) -> int
    decreases s.len() - i,
{
    if 0 <= i < s.len() && s[i] != c {
        until_end(s, i + 1, c)
    } else if i < 0 {
        i
    } else if i > s.len() {
        s.len() as int
    } else {
        i
    }
}

/// The end of a block comment body from `i`, at nesting `depth`, and the
/// depth left open there.
pub open spec fn block_end(s: Seq<char>, i: int, depth: int) -> (int, int)
    decreases s.len() - i,
{
    if i < 0 || i >= s.len() {
        (s.len() as int, depth)
    } else if s[i] == '/' && at(s, i + 1) == '*' {
        block_end(s, i + 2, depth + 1)
    } else if s[i] == '*' && at(s, i + 1) == '/' {
        if depth - 1 == 0 {
            (i + 2, 0)
        } else {
            block_end(s, i + 2, depth - 1)
        }
    } else {
        block_end(s, i + 1, depth)
    }
}

/// The end of a run of decimal digits and underscores from `i`, and whether
/// it held a digit.
pub open spec fn dec_digits(s: Seq<char>, i: int) -> (int, bool)
    decreases s.len() - i,
{
    if 0 <= i < s.len() && s[i] == '_' {
        dec_digits(s, i + 1)
    } else if 0 <= i < s.len() && is_ascii_digit(s[i]) {
        (dec_digits(s, i + 1).0, true)
    } else {
        (i, false)
    }
}

/// Whether `c` is a hexadecimal digit.
pub open spec fn is_hex_digit(c: char) -> bool {
    is_ascii_digit(c) || ('a' <= c && c <= 'f') || ('A' <= c && c <= 'F')
}

/// The end of a run of hexadecimal digits and underscores from `i`, and
/// whether it held a digit.
pub open spec fn hex_digits(s: Seq<char>, i: int) -> (int, bool)
    decreases s.len() - i,
{
    if 0 <= i < s.len() && s[i] == '_' {
        hex_digits(s, i + 1)
    } else if 0 <= i < s.len() && is_hex_digit(s[i]) {
        (hex_digits(s, i + 1).0, true)
    } else {
        (i, false)
    }
}

/// The end of a float exponent after its `e`: an optional sign and digits,
/// and whether there were digits.
pub open spec fn float_exponent(s: Seq<char>, i: int) -> (int, bool) {
    if at(s, i) == '-' || at(s, i) == '+' {
        dec_digits(s, i + 1)
    } else {
        dec_digits(s, i)
    }
}

/// A token: its kind and its length in bytes.
#[derive(Clone, Copy, PartialEq, Eq, Debug, Structural)]
pub struct Token {
    pub kind: TokenKind,
    pub len: u32,
}

impl Token {
    pub fn new(kind: TokenKind, len: u32) -> (r: Token)
        ensures
            r.kind == kind,
            r.len == len,
    {
        Token { kind, len }
    }
}

/// The kinds of token.
#[derive(Clone, Copy, PartialEq, Eq, Debug, Structural)]
pub enum TokenKind {
    LineComment { doc_style: Option<DocStyle> },
    BlockComment { doc_style: Option<DocStyle>, terminated: bool },
    Whitespace,
    Ident,
    InvalidIdent,
    UnknownPrefix,
    Literal { kind: LiteralKind, suffix_start: u32 },
    Plus,
    Minus,
    Star,
    Slash,
    Eq,
    Ampersand,
    Pipe,
    Caret,
    DoubleAsterisk,
    Tilde,
    DoubleLessThan,
    DoubleGreaterThan,
    EqualsEquals,
    BangEquals,
    Lt,
    LessThanEquals,
    Gt,
    GreaterThanEquals,
    OpenParen,
    CloseParen,
    OpenBrace,
    CloseBrace,
    OpenBracket,
    CloseBracket,
    Comma,
    Colon,
    Arrow,
    Semi,
    Dot,
    At,
    Octothorpe,
    Eroteme,
    Bang,
    Dollar,
    Percent,
    Invalid,
    Eof,
}

/// An inner (`//!`, `/*!`) or outer (`///`, `/**`) doc comment.
#[derive(Clone, Copy, PartialEq, Eq, Debug, Structural)]
pub enum DocStyle {
    Outer,
    Inner,
}

/// The kinds of literal.
#[derive(Clone, Copy, PartialEq, Eq, Debug, Structural)]
pub enum LiteralKind {
    Int { base: Base, empty_int: bool },
    Float { base: Base, empty_exponent: bool },
    Char { terminated: bool },
    Byte { terminated: bool },
    Str { terminated: bool },
}

/// The base of a number literal, by its prefix.
#[derive(Clone, Copy, PartialEq, Eq, Debug, Structural)]
pub enum Base {
    Binary,
    Octal,
    Decimal,
    Hexadecimal,
}

/// The rest of a number literal from `i`, after its integer digits in base
/// `base`: a fraction, an exponent, or nothing.
pub open spec fn number_rest(s: Seq<char>, i: int, base: Base) -> (LiteralKind, int) {
    if at(s, i) == '.' && at(s, i + 1) != '.' && !unicode_alphabetic(at(s, i + 1)) {
        let j = i + 1;
        if is_ascii_digit(at(s, j)) {
            let e = dec_digits(s, j).0;
            if at(s, e) == 'e' || at(s, e) == 'E' {
                let x = float_exponent(s, e + 1);
                (LiteralKind::Float { base, empty_exponent: !x.1 }, x.0)
            } else {
                (LiteralKind::Float { base, empty_exponent: false }, e)
            }
        } else {
            (LiteralKind::Float { base, empty_exponent: false }, j)
        }
    } else if at(s, i) == 'e' || at(s, i) == 'E' {
        let x = float_exponent(s, i + 1);
        (LiteralKind::Float { base, empty_exponent: !x.1 }, x.0)
    } else {
        (LiteralKind::Int { base, empty_int: false }, i)
    }
}

/// A number literal whose first digit `first_digit` was read before `i`:
/// its kind and where its digits end.
pub open spec fn number(s: Seq<char>, i: int, first_digit: char) -> (LiteralKind, int) {
    if first_digit == '0' {
        let c = at(s, i);
        if c == 'b' || c == 'o' {
            let base = if c == 'b' { Base::Binary } else { Base::Octal };
            let d = dec_digits(s, i + 1);
            if !d.1 {
                (LiteralKind::Int { base, empty_int: true }, d.0)
            } else {
                number_rest(s, d.0, base)
            }
        } else if c == 'x' {
            let d = hex_digits(s, i + 1);
            if !d.1 {
                (LiteralKind::Int { base: Base::Hexadecimal, empty_int: true }, d.0)
            } else {
                number_rest(s, d.0, Base::Hexadecimal)
            }
        } else if is_ascii_digit(c) || c == '_' {
            number_rest(s, dec_digits(s, i).0, Base::Decimal)
        } else if c == '.' || c == 'e' || c == 'E' {
            number_rest(s, i, Base::Decimal)
        } else {
            (LiteralKind::Int { base: Base::Decimal, empty_int: false }, i)
        }
    } else {
        number_rest(s, dec_digits(s, i).0, Base::Decimal)
    }
}

/// The body of a single-quoted literal from `i`, after the quote: whether
/// it was closed, and where it ends.
pub open spec fn single_quoted_loop(s: Seq<char>, i: int) -> (bool, int)
    decreases s.len() - i,
{
    let c = at(s, i);
    if i < 0 || i > s.len() {
        (false, i)
    } else if c == '\'' {
        (true, i + 1)
    } else if c == '/' {
        (false, i)
    } else if c == '\n' && at(s, i + 1) != '\'' {
        (false, i)
    } else if c == '\0' && i >= s.len() {
        (false, i)
    } else if c == '\\' {
        single_quoted_loop(s, if i + 2 <= s.len() { i + 2 } else { s.len() as int })
    } else {
        single_quoted_loop(s, i + 1)
    }
}

pub open spec fn single_quoted(s: Seq<char>, i: int) -> (bool, int) {
    if at(s, i + 1) == '\'' && at(s, i) != '\\' {
        (true, i + 2)
    } else {
        single_quoted_loop(s, i)
    }
}

/// The body of a double-quoted literal from `i`, after the quote: whether
/// it was closed, and where it ends.
pub open spec fn double_quoted(s: Seq<char>, i: int) -> (bool, int)
    decreases s.len() - i,
{
    if i < 0 || i >= s.len() {
        (false, s.len() as int)
    } else if s[i] == '"' {
        (true, i + 1)
    } else if s[i] == '\\' && (at(s, i + 1) == '\\' || at(s, i + 1) == '"') {
        double_quoted(s, i + 2)
    } else {
        double_quoted(s, i + 1)
    }
}

/// The suffix of a literal from `i`: an identifier, if one starts there.
pub open spec fn literal_suffix_end(s: Seq<char>, i: int) -> int {
    if unicode_alphabetic(at(s, i)) {
        while_end(s, if i < s.len() { i + 1 } else { i }, xid_continue())
    } else {
        i
    }
}

/// An identifier (or what begins like one) whose first character was read
/// before `i`: its kind and end.
pub open spec fn identifier_or_prefix(s: Seq<char>, i: int) -> (TokenKind, int) {
    let e = while_end(s, i, xid_continue());
    let c = at(s, e);
    if c == '#' || c == '"' || c == '\'' {
        (TokenKind::UnknownPrefix, e)
    } else if !is_ascii_char(c) {
        (TokenKind::InvalidIdent, while_end(s, e, invalid_ident_char()))
    } else {
        (TokenKind::Ident, e)
    }
}

/// The kind of the single-character token `c`, if it is one.
pub open spec fn punct_kind(c: char) -> Option<TokenKind> {
    if c == ';' { Some(TokenKind::Semi) }
    else if c == ',' { Some(TokenKind::Comma) }
    else if c == '.' { Some(TokenKind::Dot) }
    else if c == '(' { Some(TokenKind::OpenParen) }
    else if c == ')' { Some(TokenKind::CloseParen) }
    else if c == '{' { Some(TokenKind::OpenBrace) }
    else if c == '}' { Some(TokenKind::CloseBrace) }
    else if c == '[' { Some(TokenKind::OpenBracket) }
    else if c == ']' { Some(TokenKind::CloseBracket) }
    else if c == '@' { Some(TokenKind::At) }
    else if c == '#' { Some(TokenKind::Octothorpe) }
    else if c == '~' { Some(TokenKind::Tilde) }
    else if c == '?' { Some(TokenKind::Eroteme) }
    else if c == ':' { Some(TokenKind::Colon) }
    else if c == '$' { Some(TokenKind::Dollar) }
    else if c == '=' { Some(TokenKind::Eq) }
    else if c == '!' { Some(TokenKind::Bang) }
    else if c == '<' { Some(TokenKind::Lt) }
    else if c == '>' { Some(TokenKind::Gt) }
    else if c == '-' { Some(TokenKind::Minus) }
    else if c == '&' { Some(TokenKind::Ampersand) }
    else if c == '|' { Some(TokenKind::Pipe) }
    else if c == '+' { Some(TokenKind::Plus) }
    else if c == '*' { Some(TokenKind::Star) }
    else if c == '^' { Some(TokenKind::Caret) }
    else if c == '%' { Some(TokenKind::Percent) }
    else { None }
}

/// The kind of the token that starts at `t` (inside `s`) and where it ends.
/// The suffix of a literal is placed in bytes from `ts`, where the token was
/// last started.
pub open spec fn token_at(s: Seq<char>, ts: int, t: int) -> (TokenKind, int) {
    let c = s[t];
    let i = t + 1;
    if c == '/' && at(s, i) == '/' {
        let j = i + 1;
        let doc = if at(s, j) == '!' {
            Some(DocStyle::Inner)
        } else if at(s, j) == '/' && at(s, j + 1) != '/' {
            Some(DocStyle::Outer)
        } else {
            None
        };
        (TokenKind::LineComment { doc_style: doc }, until_end(s, j, '\n'))
    } else if c == '/' && at(s, i) == '*' {
        let j = i + 1;
        let doc = if at(s, j) == '!' {
            Some(DocStyle::Inner)
        } else if at(s, j) == '*' && !(at(s, j + 1) == '*' || at(s, j + 1) == '/') {
            Some(DocStyle::Outer)
        } else {
            None
        };
        let b = block_end(s, j, 1);
        (TokenKind::BlockComment { doc_style: doc, terminated: b.1 == 0 }, b.0)
    } else if c == '/' {
        (TokenKind::Slash, i)
    } else if unicode_white_space(c) {
        (TokenKind::Whitespace, while_end(s, i, whitespace_char()))
    } else if unicode_alphabetic(c) {
        identifier_or_prefix(s, i)
    } else if is_ascii_digit(c) {
        let n = number(s, i, c);
        (TokenKind::Literal { kind: n.0, suffix_start: low32(utf8_bytes(s, ts, n.1)) }, literal_suffix_end(s, n.1))
    } else if c == '\'' {
        let q = single_quoted(s, i);
        let kind = TokenKind::Literal { kind: LiteralKind::Char { terminated: q.0 }, suffix_start: low32(utf8_bytes(s, ts, q.1)) };
        (kind, if q.0 { literal_suffix_end(s, q.1) } else { q.1 })
    } else if c == '"' {
        let q = double_quoted(s, i);
        let kind = TokenKind::Literal { kind: LiteralKind::Str { terminated: q.0 }, suffix_start: low32(utf8_bytes(s, ts, q.1)) };
        (kind, if q.0 { literal_suffix_end(s, q.1) } else { q.1 })
    } else if punct_kind(c) is Some {
        (punct_kind(c)->0, i)
    } else if !is_ascii_char(c) {
        (TokenKind::InvalidIdent, while_end(s, i, invalid_ident_char()))
    } else {
        (TokenKind::Invalid, i)
    }
}

pub proof fn lemma_while_end(s: Seq<char>, i: int, p: spec_fn(char) -> bool)
    requires
        0 <= i <= s.len(),
    ensures
        i <= while_end(s, i, p) <= s.len(),
    decreases s.len() - i,
{
    if i < s.len() && p(s[i]) {
        lemma_while_end(s, i + 1, p);
    }
}

pub proof fn lemma_until_end(s: Seq<char>, i: int, c: char)
    requires
        0 <= i <= s.len(),
    ensures
        i <= until_end(s, i, c) <= s.len(),
    decreases s.len() - i,
{
    if i < s.len() && s[i] != c {
        lemma_until_end(s, i + 1, c);
    }
}

pub proof fn lemma_block_end(s: Seq<char>, i: int, depth: int)
    requires
        0 <= i <= s.len(),
    ensures
        i <= block_end(s, i, depth).0 <= s.len(),
    decreases s.len() - i,
{
    if i < s.len() {
        if s[i] == '/' && at(s, i + 1) == '*' {
            lemma_block_end(s, i + 2, depth + 1);
        } else if s[i] == '*' && at(s, i + 1) == '/' {
            if depth - 1 != 0 {
                lemma_block_end(s, i + 2, depth - 1);
            }
        } else {
            lemma_block_end(s, i + 1, depth);
        }
    }
}

pub proof fn lemma_dec_digits(s: Seq<char>, i: int)
    requires
        0 <= i <= s.len(),
    ensures
        i <= dec_digits(s, i).0 <= s.len(),
    decreases s.len() - i,
{
    if i < s.len() && (s[i] == '_' || is_ascii_digit(s[i])) {
        lemma_dec_digits(s, i + 1);
    }
}

pub proof fn lemma_hex_digits(s: Seq<char>, i: int)
    requires
        0 <= i <= s.len(),
    ensures
        i <= hex_digits(s, i).0 <= s.len(),
    decreases s.len() - i,
{
    if i < s.len() && (s[i] == '_' || is_hex_digit(s[i])) {
        lemma_hex_digits(s, i + 1);
    }
}

pub proof fn lemma_float_exponent(s: Seq<char>, i: int)
    requires
        0 <= i <= s.len(),
    ensures
        i <= float_exponent(s, i).0 <= s.len(),
{
    if at(s, i) == '-' || at(s, i) == '+' {
        lemma_dec_digits(s, i + 1);
    } else {
        lemma_dec_digits(s, i);
    }
}

pub proof fn lemma_number_rest(s: Seq<char>, i: int, base: Base)
    requires
        0 <= i <= s.len(),
    ensures
        i <= number_rest(s, i, base).1 <= s.len(),
{
    if at(s, i) == '.' && at(s, i + 1) != '.' && !unicode_alphabetic(at(s, i + 1)) {
        let j = i + 1;
        if is_ascii_digit(at(s, j)) {
            lemma_dec_digits(s, j);
            let e = dec_digits(s, j).0;
            if at(s, e) == 'e' || at(s, e) == 'E' {
                lemma_float_exponent(s, e + 1);
            }
        }
    } else if at(s, i) == 'e' || at(s, i) == 'E' {
        lemma_float_exponent(s, i + 1);
    }
}

pub proof fn lemma_number(s: Seq<char>, i: int, first_digit: char)
    requires
        0 <= i <= s.len(),
    ensures
        i <= number(s, i, first_digit).1 <= s.len(),
{
    let c = at(s, i);
    if first_digit == '0' {
        if c == 'b' || c == 'o' {
            lemma_dec_digits(s, i + 1);
            lemma_number_rest(s, dec_digits(s, i + 1).0, if c == 'b' { Base::Binary } else { Base::Octal });
        } else if c == 'x' {
            lemma_hex_digits(s, i + 1);
            lemma_number_rest(s, hex_digits(s, i + 1).0, Base::Hexadecimal);
        } else if is_ascii_digit(c) || c == '_' {
            lemma_dec_digits(s, i);
            lemma_number_rest(s, dec_digits(s, i).0, Base::Decimal);
        } else if c == '.' || c == 'e' || c == 'E' {
            lemma_number_rest(s, i, Base::Decimal);
        }
    } else {
        lemma_dec_digits(s, i);
        lemma_number_rest(s, dec_digits(s, i).0, Base::Decimal);
    }
}

pub proof fn lemma_single_quoted_loop(s: Seq<char>, i: int)
    requires
        0 <= i <= s.len(),
    ensures
        i <= single_quoted_loop(s, i).1 <= s.len(),
    decreases s.len() - i,
{
    let c = at(s, i);
    if c == '\'' || c == '/' || (c == '\n' && at(s, i + 1) != '\'') || (c == '\0' && i >= s.len()) {
    } else if c == '\\' {
        lemma_single_quoted_loop(s, if i + 2 <= s.len() { i + 2 } else { s.len() as int });
    } else {
        lemma_single_quoted_loop(s, i + 1);
    }
}

pub proof fn lemma_double_quoted(s: Seq<char>, i: int)
    requires
        0 <= i <= s.len(),
    ensures
        i <= double_quoted(s, i).1 <= s.len(),
    decreases s.len() - i,
{
    if i < s.len() && s[i] != '"' {
        if s[i] == '\\' && (at(s, i + 1) == '\\' || at(s, i + 1) == '"') {
            lemma_double_quoted(s, i + 2);
        } else {
            lemma_double_quoted(s, i + 1);
        }
    }
}

pub proof fn lemma_literal_suffix_end(s: Seq<char>, i: int)
    requires
        0 <= i <= s.len(),
    ensures
        i <= literal_suffix_end(s, i) <= s.len(),
{
    lemma_while_end(s, if i < s.len() { i + 1 } else { i }, xid_continue());
}

/// The tokens of `s` from character `t` on, each read where the one before
/// it ended.
pub open spec fn tokens_from(s: Seq<char>, t: int) -> Seq<Token>
    decreases s.len() - t,
{
    if t < 0 || t >= s.len() {
        Seq::empty()
    } else {
        let (kind, end) = token_at(s, t, t);
        if end <= t || end > s.len() {
            Seq::empty()
        } else {
            seq![Token { kind, len: low32(utf8_bytes(s, t, end)) }] + tokens_from(s, end)
        }
    }
}

/// Every token but the end of file covers at least one character, within
/// the text.
pub proof fn lemma_token_progress(s: Seq<char>, ts: int, t: int)
    requires
        0 <= t < s.len(),
    ensures
        t < token_at(s, ts, t).1 <= s.len(),
        token_at(s, ts, t).0 != TokenKind::Eof,
{
    let i = t + 1;
    let c = s[t];
    lemma_while_end(s, i, whitespace_char());
    lemma_while_end(s, i, invalid_ident_char());
    lemma_while_end(s, i, xid_continue());
    if c == '/' && at(s, i) == '/' {
        lemma_until_end(s, i + 1, '\n');
    } else if c == '/' && at(s, i) == '*' {
        lemma_block_end(s, i + 1, 1);
    } else if unicode_alphabetic(c) && !unicode_white_space(c) && c != '/' {
        let e = while_end(s, i, xid_continue());
        lemma_while_end(s, e, invalid_ident_char());
    } else if is_ascii_digit(c) {
        lemma_number(s, i, c);
        lemma_literal_suffix_end(s, number(s, i, c).1);
    } else if c == '\'' {
        if at(s, i + 1) == '\'' && at(s, i) != '\\' {
            lemma_literal_suffix_end(s, i + 2);
        } else {
            lemma_single_quoted_loop(s, i);
            lemma_literal_suffix_end(s, single_quoted_loop(s, i).1);
        }
    } else if c == '"' {
        lemma_double_quoted(s, i);
        lemma_literal_suffix_end(s, double_quoted(s, i).1);
    }
}

} // verus!
