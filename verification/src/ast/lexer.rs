//! The lexer of the Terebinth language: it turns source text into tokens.

use vstd::prelude::*;

use crate::text::{
    TextSpan, unicode_alphabetic, unicode_white_space, chars_equal, chars_of, digit_value,
    is_alphabetic_char, is_ascii_digit, is_whitespace_char, string_from_chars,
};

verus! {

/// The kinds of token of the Terebinth language.
#[derive(Debug, Clone, Copy, PartialEq, Eq, Structural)]
pub enum TokenKind {
    // Literals
    Number(i64),
    // Operators
    Plus,
    Minus,
    Asterisk,
    Slash,
    Equals,
    Ampersand,
    Pipe,
    Caret,
    DoubleAsterisk,
    Tilde,
    DoubleLessThan,
    DoubleGreaterThan,
    EqualsEquals,
    BangEquals,
    LessThan,
    LessThanEquals,
    GreaterThan,
    GreaterThanEquals,
    // Keywords
    Let,
    If,
    Else,
    True,
    False,
    While,
    Func,
    Return,
    // Separators
    LeftParen,
    RightParen,
    OpenBrace,
    CloseBrace,
    Comma,
    Colon,
    Arrow,
    // Other
    Semicolon,
    Whitespace,
    Identifier,
    Eof,
    Invalid,
}

/// How a token kind is shown in messages.
pub open spec fn token_kind_text(kind: TokenKind) -> Seq<char> {
    match kind {
        TokenKind::Number(_) => "Number"@,
        TokenKind::Plus => "+"@,
        TokenKind::Minus => "-"@,
        TokenKind::Asterisk => "*"@,
        TokenKind::Slash => "/"@,
        TokenKind::LeftParen => "("@,
        TokenKind::RightParen => ")"@,
        TokenKind::Eof => "EOF"@,
        TokenKind::Semicolon => ";"@,
        TokenKind::Whitespace => "Whitespace"@,
        TokenKind::Invalid => "Invalid"@,
        TokenKind::Let => "let"@,
        TokenKind::Identifier => "Identifier"@,
        TokenKind::Equals => "="@,
        TokenKind::Ampersand => "&"@,
        TokenKind::Pipe => "|"@,
        TokenKind::Caret => "^"@,
        TokenKind::DoubleAsterisk => "**"@,
        TokenKind::Tilde => "~"@,
        TokenKind::DoubleLessThan => "<<"@,
        TokenKind::DoubleGreaterThan => ">>"@,
        TokenKind::If => "If"@,
        TokenKind::Else => "Else"@,
        TokenKind::GreaterThan => ">"@,
        TokenKind::LessThan => "<"@,
        TokenKind::GreaterThanEquals => ">="@,
        TokenKind::LessThanEquals => "<="@,
        TokenKind::EqualsEquals => "=="@,
        TokenKind::BangEquals => "!="@,
        TokenKind::OpenBrace => "{"@,
        TokenKind::CloseBrace => "}"@,
        TokenKind::True => "True"@,
        TokenKind::False => "False"@,
        TokenKind::While => "While"@,
        TokenKind::Func => "Func"@,
        TokenKind::Return => "Return"@,
        TokenKind::Comma => ","@,
        TokenKind::Colon => ":"@,
        TokenKind::Arrow => "->"@,
    }
}

impl TokenKind {
    /// The text by which messages show this kind of token.
    pub fn to_display_string(&self) -> (r: String)
        ensures
            r@ == token_kind_text(*self),
    {
        let s: &str = match self {
            TokenKind::Number(_) => "Number",
            TokenKind::Plus => "+",
            TokenKind::Minus => "-",
            TokenKind::Asterisk => "*",
            TokenKind::Slash => "/",
            TokenKind::LeftParen => "(",
            TokenKind::RightParen => ")",
            TokenKind::Eof => "EOF",
            TokenKind::Semicolon => ";",
            TokenKind::Whitespace => "Whitespace",
            TokenKind::Invalid => "Invalid",
            TokenKind::Let => "let",
            TokenKind::Identifier => "Identifier",
            TokenKind::Equals => "=",
            TokenKind::Ampersand => "&",
            TokenKind::Pipe => "|",
            TokenKind::Caret => "^",
            TokenKind::DoubleAsterisk => "**",
            TokenKind::Tilde => "~",
            TokenKind::DoubleLessThan => "<<",
            TokenKind::DoubleGreaterThan => ">>",
            TokenKind::If => "If",
            TokenKind::Else => "Else",
            TokenKind::GreaterThan => ">",
            TokenKind::LessThan => "<",
            TokenKind::GreaterThanEquals => ">=",
            TokenKind::LessThanEquals => "<=",
            TokenKind::EqualsEquals => "==",
            TokenKind::BangEquals => "!=",
            TokenKind::OpenBrace => "{",
            TokenKind::CloseBrace => "}",
            TokenKind::True => "True",
            TokenKind::False => "False",
            TokenKind::While => "While",
            TokenKind::Func => "Func",
            TokenKind::Return => "Return",
            TokenKind::Comma => ",",
            TokenKind::Colon => ":",
            TokenKind::Arrow => "->",
        };
        String::from_str(s)
    }
}

/// A token: its kind and the span of text it was made from.
#[derive(Debug)]
pub struct Token {
    pub kind: TokenKind,
    pub span: TextSpan,
}

impl Clone for Token {
    fn clone(&self) -> (r: Self)
        ensures
            r == *self,
    {
        Token { kind: self.kind, span: self.span.clone() }
    }
}

impl Token {
    pub fn new(kind: TokenKind, span: TextSpan) -> (r: Self)
        ensures
            r.kind == kind,
            r.span == span,
    {
        Self { kind, span }
    }
}

// ---------------------------------------------------------------------------
// The lexical grammar, over the characters of the input.

/// The end of the run of characters satisfying `is_digit` that starts at `pos`.
pub open spec fn digits_end(s: Seq<char>, pos: int) -> int
    decreases s.len() - pos,
{
    if pos < 0 || pos >= s.len() || !is_ascii_digit(s[pos]) {
        pos
    } else {
        digits_end(s, pos + 1)
    }
}

/// The end of the run of alphabetic characters that starts at `pos`.
pub open spec fn alphabetic_end(s: Seq<char>, pos: int) -> int
    decreases s.len() - pos,
{
    if pos < 0 || pos >= s.len() || !unicode_alphabetic(s[pos]) {
        pos
    } else {
        alphabetic_end(s, pos + 1)
    }
}

/// The number that the decimal digits `d` denote.
pub open spec fn digits_value(d: Seq<char>) -> int
    decreases d.len(),
{
    if d.len() == 0 {
        0
    } else {
        digits_value(d.drop_last()) * 10 + digit_value(d.last())
    }
}

/// Every run of ASCII digits in `s` denotes a number that fits in an `i64`.
pub open spec fn numbers_fit(s: Seq<char>) -> bool {
    forall|i: int, j: int|
        0 <= i <= j <= s.len() && (forall|k: int| i <= k < j ==> is_ascii_digit(#[trigger] s[k]))
            ==> digits_value(#[trigger] s.subrange(i, j)) <= i64::MAX
}

/// Whether every run of digits in `input` denotes a number that fits in an
/// `i64`, as the lexer needs to read them.
pub fn numbers_fit_exec(input: &str) -> (r: bool)
    ensures
        r == numbers_fit(input@),
{
    let chars = chars_of(input);
    let ghost s = input@;
    let n = chars.len();
    let mut i: usize = 0;
    while i < n
        invariant
            chars@ == s,
            s == input@,
            n == s.len(),
            i <= n,
            forall|a: int, b: int|
                0 <= a < i && a <= b <= n && (forall|k: int| a <= k < b ==> is_ascii_digit(#[trigger] s[k]))
                    ==> digits_value(#[trigger] s.subrange(a, b)) <= i64::MAX,
        decreases n - i,
    {
        let mut j: usize = i;
        let mut value: u128 = 0;
        assert(s.subrange(i as int, i as int) =~= Seq::<char>::empty());
        while j < n && '0' <= chars[j] && chars[j] <= '9'
            invariant
                chars@ == s,
                s == input@,
                n == s.len(),
                i < n,
                i <= j <= n,
                value == digits_value(s.subrange(i as int, j as int)),
                value <= i64::MAX,
                forall|k: int| i <= k < j ==> is_ascii_digit(#[trigger] s[k]),
                forall|b: int| i <= b <= j ==> digits_value(#[trigger] s.subrange(i as int, b)) <= i64::MAX,
            decreases n - j,
        {
            let d = chars[j];
            let ghost next = s.subrange(i as int, j + 1);
            assert(next.drop_last() =~= s.subrange(i as int, j as int));
            assert(next.last() == s[j as int]);
            value = value * 10 + ((d as u32) - ('0' as u32)) as u128;
            if value > 9223372036854775807u128 {
                assert(digits_value(s.subrange(i as int, j + 1)) > i64::MAX);
                assert(forall|k: int| i <= k < j + 1 ==> is_ascii_digit(#[trigger] s[k]));
                assert(!numbers_fit(s)) by {
                    if numbers_fit(s) {
                        assert(digits_value(s.subrange(i as int, j + 1)) <= i64::MAX);
                    }
                }
                return false;
            }
            j = j + 1;
        }
        assert forall|b: int|
            i <= b <= n && (forall|k: int| i <= k < b ==> is_ascii_digit(#[trigger] s[k]))
                implies digits_value(#[trigger] s.subrange(i as int, b)) <= i64::MAX by {
            if b > j {
                assert(is_ascii_digit(s[j as int]));
            }
        }
        i = i + 1;
    }
    assert forall|a: int, b: int|
        0 <= a <= b <= s.len() && (forall|k: int| a <= k < b ==> is_ascii_digit(#[trigger] s[k]))
            implies digits_value(#[trigger] s.subrange(a, b)) <= i64::MAX by {
        if a == s.len() {
            assert(s.subrange(a, b) =~= Seq::<char>::empty());
        }
    }
    true
}

/// The token kind of a word made of alphabetic characters.
pub open spec fn word_kind(w: Seq<char>) -> TokenKind {
    if w == "let"@ {
        TokenKind::Let
    } else if w == "if"@ {
        TokenKind::If
    } else if w == "else"@ {
        TokenKind::Else
    } else if w == "true"@ {
        TokenKind::True
    } else if w == "false"@ {
        TokenKind::False
    } else if w == "while"@ {
        TokenKind::While
    } else if w == "func"@ {
        TokenKind::Func
    } else if w == "return"@ {
        TokenKind::Return
    } else {
        TokenKind::Identifier
    }
}

/// The character after position `pos`, if there is one.
pub open spec fn next_char(s: Seq<char>, pos: int) -> Option<char> {
    if 0 <= pos + 1 < s.len() {
        Some(s[pos + 1])
    } else {
        None
    }
}

/// The operator or separator at `pos` (which is no digit, whitespace or letter),
/// and the position after it.
pub open spec fn punctuation(s: Seq<char>, pos: int) -> (TokenKind, int) {
    let c = s[pos];
    let next = next_char(s, pos);
    if c == '+' {
        (TokenKind::Plus, pos + 1)
    } else if c == '-' {
        if next == Some('>') { (TokenKind::Arrow, pos + 2) } else { (TokenKind::Minus, pos + 1) }
    } else if c == '*' {
        if next == Some('*') {
            (TokenKind::DoubleAsterisk, pos + 2)
        } else {
            (TokenKind::Asterisk, pos + 1)
        }
    } else if c == '/' {
        (TokenKind::Slash, pos + 1)
    } else if c == '(' {
        (TokenKind::LeftParen, pos + 1)
    } else if c == ')' {
        (TokenKind::RightParen, pos + 1)
    } else if c == '=' {
        if next == Some('=') {
            (TokenKind::EqualsEquals, pos + 2)
        } else {
            (TokenKind::Equals, pos + 1)
        }
    } else if c == ';' {
        (TokenKind::Semicolon, pos + 1)
    } else if c == '&' {
        (TokenKind::Ampersand, pos + 1)
    } else if c == '|' {
        (TokenKind::Pipe, pos + 1)
    } else if c == '^' {
        (TokenKind::Caret, pos + 1)
    } else if c == '~' {
        (TokenKind::Tilde, pos + 1)
    } else if c == '<' {
        if next == Some('=') {
            (TokenKind::LessThanEquals, pos + 2)
        } else if next == Some('<') {
            (TokenKind::DoubleLessThan, pos + 2)
        } else {
            (TokenKind::LessThan, pos + 1)
        }
    } else if c == '>' {
        if next == Some('=') {
            (TokenKind::GreaterThanEquals, pos + 2)
        } else if next == Some('>') {
            (TokenKind::DoubleGreaterThan, pos + 2)
        } else {
            (TokenKind::GreaterThan, pos + 1)
        }
    } else if c == '!' {
        if next == Some('=') {
            (TokenKind::BangEquals, pos + 2)
        } else {
            (TokenKind::Invalid, pos + 1)
        }
    } else if c == '{' {
        (TokenKind::OpenBrace, pos + 1)
    } else if c == '}' {
        (TokenKind::CloseBrace, pos + 1)
    } else if c == ',' {
        (TokenKind::Comma, pos + 1)
    } else if c == ':' {
        (TokenKind::Colon, pos + 1)
    } else {
        (TokenKind::Invalid, pos + 1)
    }
}

/// The kinds of token written with symbols: operators and separators.
pub open spec fn is_symbol_kind(kind: TokenKind) -> bool {
    matches!(
        kind,
        TokenKind::Plus | TokenKind::Minus | TokenKind::Asterisk | TokenKind::Slash | TokenKind::Equals
            | TokenKind::Ampersand | TokenKind::Pipe | TokenKind::Caret | TokenKind::DoubleAsterisk
            | TokenKind::Tilde | TokenKind::DoubleLessThan | TokenKind::DoubleGreaterThan
            | TokenKind::EqualsEquals | TokenKind::BangEquals | TokenKind::LessThan
            | TokenKind::LessThanEquals | TokenKind::GreaterThan | TokenKind::GreaterThanEquals
            | TokenKind::LeftParen | TokenKind::RightParen | TokenKind::OpenBrace | TokenKind::CloseBrace
            | TokenKind::Comma | TokenKind::Colon | TokenKind::Arrow | TokenKind::Semicolon
    )
}

/// The token that starts at `pos` (with `pos` inside `s`) and the position after it.
pub open spec fn token_at(s: Seq<char>, pos: int) -> (TokenKind, int) {
    let c = s[pos];
    if is_ascii_digit(c) {
        let end = digits_end(s, pos);
        (TokenKind::Number(digits_value(s.subrange(pos, end)) as i64), end)
    } else if unicode_white_space(c) {
        (TokenKind::Whitespace, pos + 1)
    } else if unicode_alphabetic(c) {
        let end = alphabetic_end(s, pos);
        (word_kind(s.subrange(pos, end)), end)
    } else {
        punctuation(s, pos)
    }
}

/// Each token read from `pos` on, but the end of file, is the token of the
/// grammar at its own start, inside the text.
proof fn lemma_lexed_entries(s: Seq<char>, pos: int)
    requires
        0 <= pos <= s.len(),
    ensures
        forall|i: int| 0 <= i < lexed(s, pos).len() && (#[trigger] lexed(s, pos)[i]).0 != TokenKind::Eof ==> {
            &&& 0 <= lexed(s, pos)[i].1 < s.len()
            &&& token_at(s, lexed(s, pos)[i].1) == (lexed(s, pos)[i].0, lexed(s, pos)[i].2)
        },
    decreases s.len() - pos,
{
    if pos < s.len() {
        lemma_token_at_progress(s, pos);
        let end = token_at(s, pos).1;
        lemma_lexed_entries(s, end);
        assert(lexed(s, pos) == seq![(token_at(s, pos).0, pos, end)] + lexed(s, end));
        assert forall|i: int| 0 <= i < lexed(s, pos).len() && (#[trigger] lexed(s, pos)[i]).0 != TokenKind::Eof implies {
            &&& 0 <= lexed(s, pos)[i].1 < s.len()
            &&& token_at(s, lexed(s, pos)[i].1) == (lexed(s, pos)[i].0, lexed(s, pos)[i].2)
        } by {
            if i > 0 {
                assert(lexed(s, pos)[i] == lexed(s, end)[i - 1]);
            }
        }
    }
}

/// A symbol token is what it is written as: the text that a token of an
/// operator or separator kind covers is exactly the text of that kind, so
/// the kind of such a token is fixed by its characters.
pub proof fn lemma_symbol_token_text(s: Seq<char>, pos: int)
    requires
        0 <= pos < s.len(),
    ensures
        is_symbol_kind(token_at(s, pos).0) ==> s.subrange(pos, token_at(s, pos).1) == token_kind_text(token_at(s, pos).0),
{
    reveal_strlit("+");
    reveal_strlit("-");
    reveal_strlit("*");
    reveal_strlit("/");
    reveal_strlit("=");
    reveal_strlit("&");
    reveal_strlit("|");
    reveal_strlit("^");
    reveal_strlit("**");
    reveal_strlit("~");
    reveal_strlit("<<");
    reveal_strlit(">>");
    reveal_strlit("==");
    reveal_strlit("!=");
    reveal_strlit("<");
    reveal_strlit("<=");
    reveal_strlit(">");
    reveal_strlit(">=");
    reveal_strlit("(");
    reveal_strlit(")");
    reveal_strlit("{");
    reveal_strlit("}");
    reveal_strlit(",");
    reveal_strlit(":");
    reveal_strlit("->");
    reveal_strlit(";");
    let c = s[pos];
    if !is_ascii_digit(c) && !unicode_white_space(c) && !unicode_alphabetic(c) {
        let (k, end) = punctuation(s, pos);
        if is_symbol_kind(k) {
            if end == pos + 1 {
                assert(s.subrange(pos, end) =~= seq![c]);
            } else {
                assert(s.subrange(pos, end) =~= seq![c, s[pos + 1]]);
            }
        }
    }
}

proof fn lemma_digits_end(s: Seq<char>, pos: int)
    requires
        0 <= pos <= s.len(),
    ensures
        pos <= digits_end(s, pos) <= s.len(),
        forall|k: int| pos <= k < digits_end(s, pos) ==> is_ascii_digit(#[trigger] s[k]),
        digits_end(s, pos) < s.len() ==> !is_ascii_digit(s[digits_end(s, pos)]),
    decreases s.len() - pos,
{
    if pos < s.len() && is_ascii_digit(s[pos]) {
        lemma_digits_end(s, pos + 1);
    }
}

proof fn lemma_alphabetic_end(s: Seq<char>, pos: int)
    requires
        0 <= pos <= s.len(),
    ensures
        pos <= alphabetic_end(s, pos) <= s.len(),
        forall|k: int| pos <= k < alphabetic_end(s, pos) ==> unicode_alphabetic(#[trigger] s[k]),
        alphabetic_end(s, pos) < s.len() ==> !unicode_alphabetic(s[alphabetic_end(s, pos)]),
    decreases s.len() - pos,
{
    if pos < s.len() && unicode_alphabetic(s[pos]) {
        lemma_alphabetic_end(s, pos + 1);
    }
}

proof fn lemma_digits_end_from(s: Seq<char>, start: int, pos: int)
    requires
        0 <= start <= pos <= s.len(),
        forall|k: int| start <= k < pos ==> is_ascii_digit(#[trigger] s[k]),
    ensures
        digits_end(s, start) == digits_end(s, pos),
    decreases pos - start,
{
    if start < pos {
        lemma_digits_end_from(s, start + 1, pos);
    }
}

proof fn lemma_alphabetic_end_from(s: Seq<char>, start: int, pos: int)
    requires
        0 <= start <= pos <= s.len(),
        forall|k: int| start <= k < pos ==> unicode_alphabetic(#[trigger] s[k]),
    ensures
        alphabetic_end(s, start) == alphabetic_end(s, pos),
    decreases pos - start,
{
    if start < pos {
        lemma_alphabetic_end_from(s, start + 1, pos);
    }
}

proof fn lemma_digits_value_monotone(d: Seq<char>, e: Seq<char>)
    requires
        forall|k: int| 0 <= k < e.len() ==> is_ascii_digit(#[trigger] e[k]),
    ensures
        digits_value(d) <= digits_value(d + e) || digits_value(d) < 0,
    decreases e.len(),
{
    if e.len() > 0 {
        let d2 = d + e.drop_last();
        lemma_digits_value_monotone(d, e.drop_last());
        assert(d + e =~= d2.push(e.last()));
        assert((d + e).drop_last() =~= d2);
        assert(is_ascii_digit(e[e.len() - 1]));
    }
}

proof fn lemma_digits_value_nonneg(d: Seq<char>)
    requires
        forall|k: int| 0 <= k < d.len() ==> is_ascii_digit(#[trigger] d[k]),
    ensures
        digits_value(d) >= 0,
    decreases d.len(),
{
    if d.len() > 0 {
        lemma_digits_value_nonneg(d.drop_last());
        assert(is_ascii_digit(d[d.len() - 1]));
    }
}

/// Each token starts where the one before it ended and covers at least one
/// character.
pub proof fn lemma_token_at_progress(s: Seq<char>, pos: int)
    requires
        0 <= pos < s.len(),
    ensures
        pos < token_at(s, pos).1 <= s.len(),
        token_at(s, pos).0 != TokenKind::Eof,
{
    lemma_digits_end(s, pos);
    lemma_alphabetic_end(s, pos);
    if unicode_alphabetic(s[pos]) && !is_ascii_digit(s[pos]) && !unicode_white_space(s[pos]) {
        let w = s.subrange(pos, alphabetic_end(s, pos));
        assert(word_kind(w) != TokenKind::Eof);
    }
}

/// The tokens of `s` from position `pos` on, as kind, start and end: the
/// token of the grammar at each position in turn, then the end-of-file token
/// with an empty span at 0.
pub open spec fn lexed(s: Seq<char>, pos: int) -> Seq<(TokenKind, int, int)>
    decreases s.len() - pos,
{
    if pos < 0 || pos >= s.len() {
        seq![(TokenKind::Eof, 0int, 0int)]
    } else {
        let (kind, end) = token_at(s, pos);
        if end <= pos || end > s.len() {
            Seq::empty()
        } else {
            seq![(kind, pos, end)] + lexed(s, end)
        }
    }
}

/// The token `t` is the token `x` of the text `s`: same kind and span, and
/// the text it covers (a NUL character for the end of file).
pub open spec fn token_is(t: Token, x: (TokenKind, int, int), s: Seq<char>) -> bool {
    &&& t.kind == x.0
    &&& t.span.start == x.1
    &&& t.span.end == x.2
    &&& t.span.literal@ == if x.0 == TokenKind::Eof { seq!['\0'] } else { s.subrange(x.1, x.2) }
}

proof fn lemma_lexed_shape(s: Seq<char>, pos: int)
    requires
        0 <= pos <= s.len(),
    ensures
        lexed(s, pos).len() >= 1,
        lexed(s, pos).len() <= s.len() - pos + 1,
        lexed(s, pos).last().0 == TokenKind::Eof,
        forall|i: int| 0 <= i < lexed(s, pos).len() - 1 ==> (#[trigger] lexed(s, pos)[i]).0 != TokenKind::Eof,
    decreases s.len() - pos,
{
    if pos < s.len() {
        lemma_token_at_progress(s, pos);
        let end = token_at(s, pos).1;
        lemma_lexed_shape(s, end);
        let rest = lexed(s, end);
        assert(lexed(s, pos) == seq![(token_at(s, pos).0, pos, end)] + rest);
        assert forall|i: int| 0 <= i < lexed(s, pos).len() - 1 implies (#[trigger] lexed(s, pos)[i]).0 != TokenKind::Eof by {
            if i > 0 {
                assert(lexed(s, pos)[i] == rest[i - 1]);
            }
        }
    }
}

/// `ts` are the tokens of `input`: one for each token that the lexical
/// grammar finds, of its kind, at its place and with its text.
pub open spec fn tokenized(input: Seq<char>, ts: Seq<Token>) -> bool {
    &&& ts.len() == lexed(input, 0).len()
    &&& forall|i: int| 0 <= i < ts.len() ==> token_is(#[trigger] ts[i], lexed(input, 0)[i], input)
}

/// All the tokens of `input`, the end-of-file token last, as
/// [`Lexer::next_token`] gives them one by one.
pub fn tokenize(input: &str) -> (r: Vec<Token>)
    requires
        numbers_fit(input@),
        input@.len() < usize::MAX,
    ensures
        r@.len() == lexed(input@, 0).len(),
        forall|i: int| 0 <= i < r@.len() ==> token_is(#[trigger] r@[i], lexed(input@, 0)[i], input@),
        r@.len() <= input@.len() + 1,
        r@.len() > 0,
        r@.last().kind == TokenKind::Eof,
        forall|i: int| 0 <= i < r@.len() - 1 ==> (#[trigger] r@[i]).kind != TokenKind::Eof,
        tokenized(input@, r@),
        forall|i: int| 0 <= i < r@.len() && is_symbol_kind((#[trigger] r@[i]).kind)
            ==> r@[i].span.literal@ == token_kind_text(r@[i].kind),
{
    let ghost s = input@;
    let mut lexer = Lexer::new(input);
    let mut tokens: Vec<Token> = Vec::new();
    let ghost mut done: Seq<(TokenKind, int, int)> = Seq::empty();
    proof { lemma_lexed_shape(s, 0); }
    loop
        invariant
            lexer.input() == s,
            numbers_fit(s),
            s.len() < usize::MAX,
            lexer.pos() <= s.len() + 1,
            tokens@.len() == done.len(),
            forall|i: int| 0 <= i < tokens@.len() ==> token_is(#[trigger] tokens@[i], done[i], s),
            lexer.pos() <= s.len() ==> lexed(s, 0) == done + lexed(s, lexer.pos() as int),
            lexer.pos() == s.len() + 1 ==> lexed(s, 0) == done,
        ensures
            lexed(s, 0) == done,
            tokens@.len() == done.len(),
            forall|i: int| 0 <= i < tokens@.len() ==> token_is(#[trigger] tokens@[i], done[i], s),
        decreases s.len() + 2 - lexer.pos(),
    {
        let ghost pos = lexer.pos() as int;
        match lexer.next_token() {
            Some(token) => {
                proof {
                    if pos < s.len() {
                        lemma_token_at_progress(s, pos);
                        let (kind, end) = token_at(s, pos);
                        assert(lexed(s, pos) == seq![(kind, pos, end)] + lexed(s, end));
                        assert(done + lexed(s, pos) == done.push((kind, pos, end)) + lexed(s, end));
                        done = done.push((kind, pos, end));
                    } else {
                        assert(lexed(s, pos) == seq![(TokenKind::Eof, 0int, 0int)]);
                        assert(done + lexed(s, pos) == done.push((TokenKind::Eof, 0int, 0int)));
                        done = done.push((TokenKind::Eof, 0int, 0int));
                    }
                }
                tokens.push(token);
            },
            None => {
                break;
            },
        }
    }
    proof {
        lemma_lexed_shape(s, 0);
        lemma_lexed_entries(s, 0);
        assert forall|i: int| 0 <= i < tokens@.len() && is_symbol_kind((#[trigger] tokens@[i]).kind)
            implies tokens@[i].span.literal@ == token_kind_text(tokens@[i].kind) by {
            let x = lexed(s, 0)[i];
            assert(token_is(tokens@[i], done[i], s));
            lemma_symbol_token_text(s, x.1);
        }
    }
    tokens
}

/// The Terebinth lexer: a position in the characters of the input.
pub struct Lexer {
    input: Vec<char>,
    current_pos: usize,
}

impl Lexer {
    /// The characters of the input.
    pub closed spec fn input(&self) -> Seq<char> {
        self.input@
    }

    /// The position of the next character to read.
    pub closed spec fn pos(&self) -> nat {
        self.current_pos as nat
    }

    pub fn new(input: &str) -> (r: Self)
        ensures
            r.input() == input@,
            r.pos() == 0,
    {
        Self { input: chars_of(input), current_pos: 0 }
    }

    /// The next token, or `None` once the end-of-file token has been returned.
    ///
    /// At the end of the input the end-of-file token comes, with an empty span at
    /// position 0; before it, each call returns the token of the grammar
    /// ([`token_at`]) that starts at the current position, with its span and text.
    pub fn next_token(&mut self) -> (r: Option<Token>)
        requires
            numbers_fit(old(self).input()),
            old(self).input().len() < usize::MAX,
        ensures
            final(self).input() == old(self).input(),
            old(self).pos() == old(self).input().len() ==> {
                &&& r matches Some(t)
                &&& t.kind == TokenKind::Eof
                &&& t.span.start == 0 && t.span.end == 0
                &&& t.span.literal@ == seq!['\0']
                &&& final(self).pos() == old(self).pos() + 1
            },
            old(self).pos() > old(self).input().len() ==> r is None && final(self).pos()
                == old(self).pos(),
            old(self).pos() < old(self).input().len() ==> {
                let (kind, end) = token_at(old(self).input(), old(self).pos() as int);
                &&& r matches Some(t)
                &&& t.kind == kind
                &&& t.span.start == old(self).pos()
                &&& t.span.end == end
                &&& t.span.literal@ == old(self).input().subrange(old(self).pos() as int, end)
                &&& final(self).pos() == end
                &&& old(self).pos() < end <= old(self).input().len()
            },
    {
        let n = self.input.len();
        if self.current_pos == n {
            self.current_pos = self.current_pos + 1;
            let mut lit = String::new();
            crate::text::push_char(&mut lit, '\0');
            assert(lit@ =~= seq!['\0']);
            return Some(Token::new(TokenKind::Eof, TextSpan::new(0, 0, lit)));
        }
        if self.current_pos > n {
            return None;
        }
        let c = self.input[self.current_pos];
        let start: usize = self.current_pos;
        let ghost s = self.input@;
        let kind;
        proof {
            lemma_digits_end(s, start as int);
            lemma_alphabetic_end(s, start as int);
        }
        if Self::is_number_start(c) {
            let number: i64 = self.consume_number();
            kind = TokenKind::Number(number);
        } else if Self::is_whitespace(c) {
            self.consume();
            kind = TokenKind::Whitespace;
        } else if Self::is_identifier_start(c) {
            let id_end = self.consume_identifier();
            kind = Self::keyword_kind(&self.input, start, id_end);
        } else {
            kind = self.consume_punctuation();
        }
        let end: usize = self.current_pos;
        let literal: String = string_from_chars(&self.input, start, end);
        let span: TextSpan = TextSpan::new(start, end, literal);
        Some(Token::new(kind, span))
    }


    fn is_number_start(c: char) -> (r: bool)
        ensures
            r == is_ascii_digit(c),
    {
        '0' <= c && c <= '9'
    }

    fn is_identifier_start(c: char) -> (r: bool)
        ensures
            r == unicode_alphabetic(c),
    {
        is_alphabetic_char(c)
    }

    fn is_whitespace(c: char) -> (r: bool)
        ensures
            r == unicode_white_space(c),
    {
        is_whitespace_char(c)
    }

    /// The character at the current position, if any.
    fn current_char(&self) -> (r: Option<char>)
        ensures
            self.pos() < self.input().len() ==> r == Some(self.input()[self.pos() as int]),
            self.pos() >= self.input().len() ==> r is None,
    {
        if self.current_pos < self.input.len() {
            Some(self.input[self.current_pos])
        } else {
            None
        }
    }

    /// Reads the character at the current position, if any, and moves past it.
    fn consume(&mut self) -> (r: Option<char>)
        ensures
            final(self).input() == old(self).input(),
            old(self).pos() < old(self).input().len() ==> r == Some(
                old(self).input()[old(self).pos() as int],
            ) && final(self).pos() == old(self).pos() + 1,
            old(self).pos() >= old(self).input().len() ==> r is None && final(self).pos()
                == old(self).pos(),
    {
        if self.current_pos >= self.input.len() {
            return None;
        }
        let c = self.current_char();
        self.current_pos = self.current_pos + 1;
        c
    }

    /// Moves past the run of alphabetic characters at the current position and
    /// returns the position after it.
    fn consume_identifier(&mut self) -> (r: usize)
        requires
            old(self).pos() <= old(self).input().len(),
        ensures
            final(self).input() == old(self).input(),
            r == final(self).pos(),
            final(self).pos() == alphabetic_end(old(self).input(), old(self).pos() as int),
    {
        let ghost s = self.input@;
        let ghost start = self.current_pos as int;
        proof { lemma_alphabetic_end(s, start); }
        while self.current_pos < self.input.len() && Self::is_identifier_start(self.input[self.current_pos])
            invariant
                self.input@ == s,
                0 <= start <= self.current_pos <= s.len(),
                forall|k: int| start <= k < self.current_pos ==> unicode_alphabetic(#[trigger] s[k]),
            decreases s.len() - self.current_pos,
        {
            self.consume();
        }
        proof {
            lemma_alphabetic_end_from(s, start, self.current_pos as int);
        }
        self.current_pos
    }

    /// Reads the run of digits at the current position and returns the number it denotes.
    fn consume_number(&mut self) -> (r: i64)
        requires
            old(self).pos() <= old(self).input().len(),
            numbers_fit(old(self).input()),
        ensures
            final(self).input() == old(self).input(),
            final(self).pos() == digits_end(old(self).input(), old(self).pos() as int),
            r == digits_value(old(self).input().subrange(old(self).pos() as int, final(self).pos() as int)),
    {
        let ghost s = self.input@;
        let ghost start = self.current_pos as int;
        let mut number: i64 = 0;
        assert(s.subrange(start, start) =~= Seq::<char>::empty());
        while self.current_pos < self.input.len() && Self::is_number_start(self.input[self.current_pos])
            invariant
                self.input@ == s,
                numbers_fit(s),
                0 <= start <= self.current_pos <= s.len(),
                forall|k: int| start <= k < self.current_pos ==> is_ascii_digit(#[trigger] s[k]),
                number == digits_value(s.subrange(start, self.current_pos as int)),
            decreases s.len() - self.current_pos,
        {
            let c = self.input[self.current_pos];
            let ghost p = self.current_pos as int;
            assert(c == s[p]);
            assert(start <= p < s.len());
            proof {
                let sub = s.subrange(start, p + 1);
                assert(sub.len() == p + 1 - start);
                assert(sub[p - start] == s[p]);
                assert(sub.drop_last() =~= s.subrange(start, p));
                assert(sub.last() == c);
            }
            assert(forall|k: int| start <= k < p + 1 ==> is_ascii_digit(#[trigger] s[k]));
            assert(digits_value(s.subrange(start, p + 1)) <= i64::MAX);
            proof { lemma_digits_value_nonneg(s.subrange(start, p)); }
            self.consume();
            let d = (c as u32 - '0' as u32) as i64;
            number = number * 10 + d;
        }
        proof {
            lemma_digits_end_from(s, start, self.current_pos as int);
            lemma_digits_end(s, self.current_pos as int);
        }
        number
    }

    /// Reads an operator or separator that may be one or two characters long:
    /// if the next character is `expected` it is read too and `double_char_kind`
    /// is returned, else `one_char_kind`.
    fn lex_potential_double_char_operator(
        &mut self,
        expected: char,
        one_char_kind: TokenKind,
        double_char_kind: TokenKind,
    ) -> (r: TokenKind)
        ensures
            final(self).input() == old(self).input(),
            old(self).pos() < old(self).input().len() && old(self).input()[old(self).pos() as int]
                == expected ==> r == double_char_kind && final(self).pos() == old(self).pos() + 1,
            !(old(self).pos() < old(self).input().len() && old(self).input()[old(self).pos() as int]
                == expected) ==> r == one_char_kind && final(self).pos() == old(self).pos(),
    {
        if let Some(next) = self.current_char() {
            if next == expected {
                self.consume();
                double_char_kind
            } else {
                one_char_kind
            }
        } else {
            one_char_kind
        }
    }

    /// Like [`Self::lex_potential_double_char_operator`], with several possible
    /// second characters: `double_char_kinds` pairs each with its kind.
    fn lex_potential_double_char_operator_multiple_kinds(
        &mut self,
        one_char_kind: TokenKind,
        double_char_kinds: &Vec<(char, TokenKind)>,
    ) -> (r: TokenKind)
        requires
            forall|i: int, j: int|
                0 <= i < j < double_char_kinds@.len() ==> (#[trigger] double_char_kinds@[i]).0
                    != (#[trigger] double_char_kinds@[j]).0,
        ensures
            final(self).input() == old(self).input(),
            ({
                let s = old(self).input();
                let p = old(self).pos() as int;
                if p < s.len() && exists|i: int|
                    0 <= i < double_char_kinds@.len() && (#[trigger] double_char_kinds@[i]).0 == s[p] {
                    exists|i: int|
                        0 <= i < double_char_kinds@.len() && (#[trigger] double_char_kinds@[i]).0 == s[p]
                            && r == double_char_kinds@[i].1 && final(self).pos() == p + 1
                } else {
                    r == one_char_kind && final(self).pos() == p
                }
            }),
    {
        if let Some(next) = self.current_char() {
            let mut kind = one_char_kind;
            let mut i: usize = 0;
            while i < double_char_kinds.len()
                invariant
                    self.input() == old(self).input(),
                    self.pos() == old(self).pos(),
                    self.current_char_is(next),
                    i <= double_char_kinds@.len(),
                    kind == one_char_kind,
                    forall|j: int| 0 <= j < i ==> (#[trigger] double_char_kinds@[j]).0 != next,
                decreases double_char_kinds@.len() - i,
            {
                let (expected, double_kind) = double_char_kinds[i];
                if next == expected {
                    self.consume();
                    kind = double_kind;
                    return kind;
                }
                i = i + 1;
            }
            kind
        } else {
            one_char_kind
        }
    }

    spec fn current_char_is(&self, c: char) -> bool {
        self.pos() < self.input().len() && self.input()[self.pos() as int] == c
    }

    /// Reads the operator or separator at the current position.
    fn consume_punctuation(&mut self) -> (r: TokenKind)
        requires
            old(self).pos() < old(self).input().len(),
        ensures
            final(self).input() == old(self).input(),
            (r, final(self).pos() as int) == punctuation(old(self).input(), old(self).pos() as int),
    {
        let c = self.consume().unwrap();
        match c {
            '+' => TokenKind::Plus,
            '-' => self.lex_potential_double_char_operator('>', TokenKind::Minus, TokenKind::Arrow),
            '*' => self.lex_potential_double_char_operator(
                '*',
                TokenKind::Asterisk,
                TokenKind::DoubleAsterisk,
            ),
            '/' => TokenKind::Slash,
            '(' => TokenKind::LeftParen,
            ')' => TokenKind::RightParen,
            '=' => self.lex_potential_double_char_operator(
                '=',
                TokenKind::Equals,
                TokenKind::EqualsEquals,
            ),
            ';' => TokenKind::Semicolon,
            '&' => TokenKind::Ampersand,
            '|' => TokenKind::Pipe,
            '^' => TokenKind::Caret,
            '~' => TokenKind::Tilde,
            '<' => {
                let kind_map = vec![('=', TokenKind::LessThanEquals), ('<', TokenKind::DoubleLessThan)];
                self.lex_potential_double_char_operator_multiple_kinds(TokenKind::LessThan, &kind_map)
            },
            '>' => {
                let kind_map = vec![('=', TokenKind::GreaterThanEquals), ('>', TokenKind::DoubleGreaterThan)];
                self.lex_potential_double_char_operator_multiple_kinds(TokenKind::GreaterThan, &kind_map)
            },
            '!' => self.lex_potential_double_char_operator(
                '=',
                TokenKind::Invalid,
                TokenKind::BangEquals,
            ),
            '{' => TokenKind::OpenBrace,
            '}' => TokenKind::CloseBrace,
            ',' => TokenKind::Comma,
            ':' => TokenKind::Colon,
            _ => TokenKind::Invalid,
        }
    }

    /// The kind of the word `input[start..end]`: a keyword or an identifier.
    fn keyword_kind(input: &Vec<char>, start: usize, end: usize) -> (r: TokenKind)
        requires
            start <= end <= input@.len(),
        ensures
            r == word_kind(input@.subrange(start as int, end as int)),
    {
        if chars_equal(input, start, end, &['l', 'e', 't']) {
            proof { reveal_strlit("let"); }
            assert(['l', 'e', 't']@ =~= "let"@);
            TokenKind::Let
        } else if chars_equal(input, start, end, &['i', 'f']) {
            proof { reveal_strlit("let"); reveal_strlit("if"); }
            assert(['i', 'f']@ =~= "if"@);
            TokenKind::If
        } else if chars_equal(input, start, end, &['e', 'l', 's', 'e']) {
            proof { reveal_strlit("let"); reveal_strlit("if"); reveal_strlit("else"); }
            assert(['e', 'l', 's', 'e']@ =~= "else"@);
            TokenKind::Else
        } else if chars_equal(input, start, end, &['t', 'r', 'u', 'e']) {
            proof { reveal_strlit("let"); reveal_strlit("if"); reveal_strlit("else"); reveal_strlit("true"); }
            assert(['t', 'r', 'u', 'e']@ =~= "true"@);
            TokenKind::True
        } else if chars_equal(input, start, end, &['f', 'a', 'l', 's', 'e']) {
            proof { reveal_strlit("let"); reveal_strlit("if"); reveal_strlit("else"); reveal_strlit("true"); reveal_strlit("false"); }
            assert(['f', 'a', 'l', 's', 'e']@ =~= "false"@);
            TokenKind::False
        } else if chars_equal(input, start, end, &['w', 'h', 'i', 'l', 'e']) {
            proof { reveal_strlit("let"); reveal_strlit("if"); reveal_strlit("else"); reveal_strlit("true"); reveal_strlit("false"); reveal_strlit("while"); }
            assert(['w', 'h', 'i', 'l', 'e']@ =~= "while"@);
            TokenKind::While
        } else if chars_equal(input, start, end, &['f', 'u', 'n', 'c']) {
            proof { reveal_strlit("let"); reveal_strlit("if"); reveal_strlit("else"); reveal_strlit("true"); reveal_strlit("false"); reveal_strlit("while"); reveal_strlit("func"); }
            assert(['f', 'u', 'n', 'c']@ =~= "func"@);
            TokenKind::Func
        } else if chars_equal(input, start, end, &['r', 'e', 't', 'u', 'r', 'n']) {
            proof { reveal_strlit("let"); reveal_strlit("if"); reveal_strlit("else"); reveal_strlit("true"); reveal_strlit("false"); reveal_strlit("while"); reveal_strlit("func"); reveal_strlit("return"); }
            assert(['r', 'e', 't', 'u', 'r', 'n']@ =~= "return"@);
            TokenKind::Return
        } else {
            proof {
                reveal_strlit("let"); reveal_strlit("if"); reveal_strlit("else"); reveal_strlit("true");
                reveal_strlit("false"); reveal_strlit("while"); reveal_strlit("func"); reveal_strlit("return");
                assert(['l', 'e', 't']@ =~= "let"@);
                assert(['i', 'f']@ =~= "if"@);
                assert(['e', 'l', 's', 'e']@ =~= "else"@);
                assert(['t', 'r', 'u', 'e']@ =~= "true"@);
                assert(['f', 'a', 'l', 's', 'e']@ =~= "false"@);
                assert(['w', 'h', 'i', 'l', 'e']@ =~= "while"@);
                assert(['f', 'u', 'n', 'c']@ =~= "func"@);
                assert(['r', 'e', 't', 'u', 'r', 'n']@ =~= "return"@);
            }
            TokenKind::Identifier
        }
    }
}

} // verus!
