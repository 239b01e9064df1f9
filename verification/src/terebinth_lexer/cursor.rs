//! A cursor over the characters of the input, and the lexer that moves it
//! token by token.

use vstd::prelude::*;

use crate::terebinth_lexer::grammar::{
    Base, DocStyle, LiteralKind, Token, TokenKind, at, block_end, char_is_xid_continue, unicode_xid_continue, dec_digits,
    double_quoted, float_exponent, hex_digits, identifier_or_prefix, invalid_ident_char,
    literal_suffix_end, number, number_rest, single_quoted, single_quoted_loop, token_at,
    until_end, utf8_bytes, utf8_len, whitespace_char, while_end, xid_continue, is_ascii_char,
    punct_kind, lemma_token_progress, tokens_from, token_lens_sum, utf8_len_sum, low32,
};
use crate::text::{unicode_alphabetic, unicode_white_space, chars_of, is_alphabetic_char, is_whitespace_char};

verus! {

/// Calls `UnicodeXID::is_xid_continue`. Its result depends on `c` alone: it is
/// named, and of the tables it consults only its ASCII fast path is restated:
/// letters, digits and `_` continue an identifier, no other ASCII character does.
#[verifier::external_body]
fn is_xid_continue_char(c: char) -> (r: bool)
    ensures
        r == char_is_xid_continue(c),
        (c as u32) < 128 ==> (r <==> (crate::text::is_ascii_letter(c) || ('0' <= c && c <= '9') || c == '_')),
{
    unicode_xid::UnicodeXID::is_xid_continue(c)
}

/// The number of bytes of `c` in UTF-8.
fn len_utf8(c: char) -> (r: u32)
    ensures
        r == utf8_len(c),
{
    let n = c as u32;
    if n < 0x80 {
        1
    } else if n < 0x800 {
        2
    } else if n < 0x10000 {
        3
    } else {
        4
    }
}

proof fn lemma_utf8_bytes_bound(s: Seq<char>, a: int, b: int)
    requires
        a <= b,
    ensures
        0 <= utf8_bytes(s, a, b) <= 4 * (b - a),
    decreases b - a,
{
    if b > a {
        lemma_utf8_bytes_bound(s, a, b - 1);
    }
}

/// Adding a character's length to the low 32 bits of a count, wrapping,
/// gives the low 32 bits of the sum.
proof fn lemma_low32_add(a: int, l: int)
    requires
        a >= 0,
        1 <= l <= 4,
    ensures
        vstd::wrapping::u32_specs::wrapping_add(low32(a), l as u32) == low32(a + l),
{
    let m: int = 0x1_0000_0000;
    vstd::arithmetic::div_mod::lemma_add_mod_noop(a, l, m);
    vstd::arithmetic::div_mod::lemma_small_mod(l as nat, m as nat);
    let r = a % m;
    assert(0 <= r < m);
    if r + l >= m {
        vstd::arithmetic::div_mod::lemma_mod_sub_multiples_vanish(r + l, m);
        vstd::arithmetic::div_mod::lemma_small_mod((r + l - m) as nat, m as nat);
    } else {
        vstd::arithmetic::div_mod::lemma_small_mod((r + l) as nat, m as nat);
    }
}

/// The bytes of `s[a..c]` are those of `s[a..b]` and then of `s[b..c]`: the
/// bytes read since a token started add up the lengths of the characters read.
pub proof fn lemma_utf8_bytes_split(s: Seq<char>, a: int, b: int, c: int)
    requires
        a <= b <= c,
    ensures
        utf8_bytes(s, a, c) == utf8_bytes(s, a, b) + utf8_bytes(s, b, c),
    decreases c - b,
{
    if c > b {
        lemma_utf8_bytes_split(s, a, b, c - 1);
    }
}

/// Over ASCII characters, bytes and characters are as many.
pub proof fn lemma_utf8_bytes_ascii(s: Seq<char>, a: int, b: int)
    requires
        a <= b,
        forall|k: int| a <= k < b ==> ((#[trigger] s[k]) as u32) < 128,
    ensures
        utf8_bytes(s, a, b) == b - a,
    decreases b - a,
{
    if b > a {
        lemma_utf8_bytes_ascii(s, a, b - 1);
    }
}

/// The bytes of `s[a..b]` are the sum of the UTF-8 lengths of its characters.
pub proof fn lemma_utf8_bytes_is_sum(s: Seq<char>, a: int, b: int)
    requires
        0 <= a <= b <= s.len(),
    ensures
        utf8_bytes(s, a, b) == utf8_len_sum(s.subrange(a, b)),
    decreases b - a,
{
    if b > a {
        lemma_utf8_bytes_is_sum(s, a, b - 1);
        assert(s.subrange(a, b).drop_last() =~= s.subrange(a, b - 1));
    } else {
        assert(s.subrange(a, b) =~= Seq::<char>::empty());
    }
}

proof fn lemma_token_lens_sum_prepend(t: Token, rest: Seq<Token>)
    ensures
        token_lens_sum(seq![t] + rest) == t.len + token_lens_sum(rest),
    decreases rest.len(),
{
    if rest.len() == 0 {
        assert(seq![t] + rest =~= seq![t]);
        assert(seq![t].drop_last() =~= Seq::<Token>::empty());
        assert(token_lens_sum(Seq::<Token>::empty()) == 0);
        assert(token_lens_sum(rest) == 0);
    } else {
        lemma_token_lens_sum_prepend(t, rest.drop_last());
        assert((seq![t] + rest).drop_last() =~= seq![t] + rest.drop_last());
        assert((seq![t] + rest).last() == rest.last());
    }
}

/// The tokens of a text partition it: each covers at least one byte, and
/// their lengths add up to the byte length of the text read from `t` on,
/// where that length fits in 32 bits.
pub proof fn lemma_tokens_partition(s: Seq<char>, t: int)
    requires
        0 <= t <= s.len(),
        utf8_bytes(s, t, s.len() as int) <= u32::MAX,
    ensures
        forall|i: int| 0 <= i < tokens_from(s, t).len() ==> (#[trigger] tokens_from(s, t)[i]).len >= 1,
        token_lens_sum(tokens_from(s, t)) == utf8_bytes(s, t, s.len() as int),
    decreases s.len() - t,
{
    if t < s.len() {
        lemma_token_progress(s, t, t);
        let end = token_at(s, t, t).1;
        lemma_utf8_bytes_bound(s, t, end);
        lemma_utf8_bytes_bound(s, end, s.len() as int);
        lemma_utf8_bytes_ascending(s, t, end);
        lemma_utf8_bytes_split(s, t, end, s.len() as int);
        lemma_tokens_partition(s, end);
        let head = Token { kind: token_at(s, t, t).0, len: low32(utf8_bytes(s, t, end)) };
        lemma_token_lens_sum_prepend(head, tokens_from(s, end));
        assert forall|i: int| 0 <= i < tokens_from(s, t).len() implies (#[trigger] tokens_from(s, t)[i]).len >= 1 by {
            if i > 0 {
                assert(tokens_from(s, t)[i] == tokens_from(s, end)[i - 1]);
            }
        }
    } else {
        assert(tokens_from(s, t) =~= Seq::<Token>::empty());
    }
}

proof fn lemma_utf8_bytes_ascending(s: Seq<char>, a: int, b: int)
    requires
        a <= b,
    ensures
        utf8_bytes(s, a, b) >= b - a,
    decreases b - a,
{
    if b > a {
        lemma_utf8_bytes_ascending(s, a, b - 1);
    }
}

/// A position in the characters of a text, and the start of the token being read.
pub struct Cursor<'a> {
    input: &'a str,
    chars: Vec<char>,
    pos: usize,
    token_start: usize,
    token_bytes: u32,
    prev: char,
}

impl<'a> Cursor<'a> {
    /// The characters of the text.
    pub closed spec fn text(&self) -> Seq<char> {
        self.chars@
    }

    /// The position of the next character.
    pub closed spec fn pos(&self) -> int {
        self.pos as int
    }

    /// The character that the last successful `bump` read, NUL before any.
    pub closed spec fn last_bumped(&self) -> char {
        self.prev
    }

    /// Where the token being read started.
    pub closed spec fn token_start(&self) -> int {
        self.token_start as int
    }

    pub closed spec fn wf(&self) -> bool {
        &&& self.chars@ == self.input@
        &&& self.token_start <= self.pos <= self.chars@.len()
        &&& self.token_bytes == low32(utf8_bytes(self.chars@, self.token_start as int, self.pos as int))
    }

    /// A well-formed cursor stands within its text, at or after the start
    /// of its token.
    pub proof fn lemma_wf_bounds(&self)
        requires
            self.wf(),
        ensures
            0 <= self.token_start() <= self.pos() <= self.text().len(),
    {
    }

    /// The bytes read since the token started are the sum of the UTF-8
    /// lengths of the characters read since then, which `bump` handed out in
    /// this order.
    pub proof fn lemma_pos_within_token_sum(&self)
        requires
            self.wf(),
        ensures
            utf8_bytes(self.text(), self.token_start(), self.pos())
                == utf8_len_sum(self.text().subrange(self.token_start(), self.pos())),
    {
        lemma_utf8_bytes_is_sum(self.chars@, self.token_start as int, self.pos as int);
    }

    /// A cursor at the start of `input`.
    pub fn new(input: &'a str) -> (r: Cursor<'a>)
        ensures
            r.wf(),
            r.text() == input@,
            r.pos() == 0,
            r.token_start() == 0,
            r.last_bumped() == '\0',
    {
        Cursor { input, chars: chars_of(input), pos: 0, token_start: 0, token_bytes: 0, prev: '\0' }
    }

    /// The character that the last successful `bump` read, NUL before any.
    pub fn prev(&self) -> (r: char)
        ensures
            r == self.last_bumped(),
    {
        self.prev
    }

    /// The text not yet read.
    pub fn as_str(&self) -> (r: &'a str)
        requires
            self.wf(),
        ensures
            r@ == self.text().subrange(self.pos(), self.text().len() as int),
    {
        self.input.substring_char(self.pos, self.chars.len())
    }

    /// The next character, or NUL at the end.
    pub fn first(&self) -> (r: char)
        requires
            self.wf(),
        ensures
            r == at(self.text(), self.pos()),
            0 <= self.pos() <= self.text().len(),
    {
        if self.pos < self.chars.len() { self.chars[self.pos] } else { '\0' }
    }

    /// The character after the next, or NUL past the end.
    pub fn second(&self) -> (r: char)
        requires
            self.wf(),
        ensures
            r == at(self.text(), self.pos() + 1),
            0 <= self.pos() <= self.text().len(),
    {
        if self.chars.len() - self.pos > 1 { self.chars[self.pos + 1] } else { '\0' }
    }

    /// The third character from here, or NUL past the end.
    pub fn third(&self) -> (r: char)
        requires
            self.wf(),
        ensures
            r == at(self.text(), self.pos() + 2),
            0 <= self.pos() <= self.text().len(),
    {
        if self.chars.len() - self.pos > 2 { self.chars[self.pos + 2] } else { '\0' }
    }

    /// Whether the whole text was read.
    pub fn is_eof(&self) -> (r: bool)
        requires
            self.wf(),
        ensures
            r == (self.pos() >= self.text().len()),
    {
        self.pos >= self.chars.len()
    }

    /// The number of bytes read since the token started, kept in 32 bits as a
    /// cast to `u32` keeps it.
    pub fn pos_within_token(&self) -> (r: u32)
        requires
            self.wf(),
        ensures
            r == low32(utf8_bytes(self.text(), self.token_start(), self.pos())),
    {
        self.token_bytes
    }

    /// Starts a new token here.
    pub fn reset_pos_within_token(&mut self)
        requires
            old(self).wf(),
        ensures
            final(self).wf(),
            final(self).text() == old(self).text(),
            final(self).pos() == old(self).pos(),
            final(self).token_start() == old(self).pos(),
    {
        self.token_start = self.pos;
        self.token_bytes = 0;
    }

    /// Reads the next character, if there is one.
    pub fn bump(&mut self) -> (r: Option<char>)
        requires
            old(self).wf(),
        ensures
            final(self).wf(),
            final(self).text() == old(self).text(),
            final(self).token_start() == old(self).token_start(),
            old(self).pos() < old(self).text().len() ==> r == Some(old(self).text()[old(self).pos()])
                && final(self).pos() == old(self).pos() + 1,
            old(self).pos() >= old(self).text().len() ==> r is None && final(self).pos() == old(self).pos(),
            r matches Some(c) ==> final(self).last_bumped() == c,
            r is None ==> final(self).last_bumped() == old(self).last_bumped(),
            0 <= final(self).token_start() <= final(self).pos() <= final(self).text().len(),
            r matches Some(c) ==> utf8_bytes(final(self).text(), final(self).token_start(), final(self).pos())
                == utf8_bytes(old(self).text(), old(self).token_start(), old(self).pos()) + utf8_len(c),
            r is None ==> *final(self) == *old(self),
    {
        if self.pos >= self.chars.len() {
            return None;
        }
        let c = self.chars[self.pos];
        let ghost read = utf8_bytes(self.chars@, self.token_start as int, self.pos as int);
        proof {
            lemma_utf8_bytes_bound(self.chars@, self.token_start as int, self.pos as int);
            lemma_low32_add(read, utf8_len(c));
        }
        self.token_bytes = self.token_bytes.wrapping_add(len_utf8(c));
        self.pos = self.pos + 1;
        self.prev = c;
        Some(c)
    }

    /// Reads characters while `predicate` holds of the next one.
    pub fn consume_while(&mut self, predicate: impl Fn(char) -> bool, Ghost(p): Ghost<spec_fn(char) -> bool>)
        requires
            old(self).wf(),
            forall|c: char| #[trigger] call_requires(predicate, (c,)),
            forall|c: char, b: bool| call_ensures(predicate, (c,), b) ==> b == p(c),
        ensures
            final(self).wf(),
            final(self).text() == old(self).text(),
            final(self).token_start() == old(self).token_start(),
            final(self).pos() == while_end(old(self).text(), old(self).pos(), p),
    {
        let ghost start = self.pos();
        while predicate(self.first()) && !self.is_eof()
            invariant
                self.wf(),
                self.text() == old(self).text(),
                self.token_start() == old(self).token_start(),
                forall|c: char| #[trigger] call_requires(predicate, (c,)),
                forall|c: char, b: bool| call_ensures(predicate, (c,), b) ==> b == p(c),
                while_end(self.text(), self.pos(), p) == while_end(self.text(), start, p),
                start <= self.pos(),
            decreases self.text().len() - self.pos(),
        {
            self.bump();
        }
    }

    /// Reads up to the first `byte` (an ASCII character), or to the end.
    pub fn consume_until(&mut self, byte: u8)
        requires
            old(self).wf(),
            byte < 128,
        ensures
            final(self).wf(),
            final(self).text() == old(self).text(),
            final(self).token_start() == old(self).token_start(),
            final(self).pos() == until_end(old(self).text(), old(self).pos(), byte as char),
    {
        let target = byte as char;
        let ghost start = self.pos();
        while self.pos < self.chars.len() && self.chars[self.pos] != target
            invariant
                self.wf(),
                self.text() == old(self).text(),
                self.token_start() == old(self).token_start(),
                until_end(self.text(), self.pos(), target) == until_end(self.text(), start, target),
                start <= self.pos(),
            decreases self.text().len() - self.pos(),
        {
            self.bump();
        }
    }
}

/// Whether `c` may start an identifier: it is alphabetic.
pub fn is_identifier_start(c: char) -> (r: bool)
    ensures
        r == unicode_alphabetic(c),
{
    is_alphabetic_char(c)
}

/// Whether `c` may continue an identifier.
pub fn is_identifier_continue(c: char) -> (r: bool)
    ensures
        r == unicode_xid_continue(c),
{
    is_xid_continue_char(c)
}

/// Whether `c` is whitespace.
pub fn is_whitespace(c: char) -> (r: bool)
    ensures
        r == unicode_white_space(c),
{
    is_whitespace_char(c)
}

/// Whether `string` is an identifier: a first character that may start
/// one, and others that may continue it.
pub fn is_identifier(string: &str) -> (r: bool)
    ensures
        r == (string@.len() > 0 && unicode_alphabetic(string@[0])
            && forall|i: int| 1 <= i < string@.len() ==> unicode_xid_continue(#[trigger] string@[i])),
{
    let n = string.unicode_len();
    if n == 0 {
        return false;
    }
    if !is_identifier_start(string.get_char(0)) {
        return false;
    }
    let mut i: usize = 1;
    while i < n
        invariant
            n == string@.len(),
            1 <= i <= n,
            forall|k: int| 1 <= k < i ==> unicode_xid_continue(#[trigger] string@[k]),
        decreases n - i,
    {
        if !is_identifier_continue(string.get_char(i)) {
            return false;
        }
        i = i + 1;
    }
    true
}

/// What the lexer's steps owe: the cursor stays well formed over the same
/// text, in the same token, and moves to `end`.
pub open spec fn moved_to(cur: Cursor, prev: Cursor, end: int) -> bool {
    &&& cur.wf()
    &&& cur.text() == prev.text()
    &&& cur.token_start() == prev.token_start()
    &&& cur.pos() == end
}

impl<'a> Cursor<'a> {
    /// Reads the next token and starts the one after it. At the end of the
    /// text it gives the end-of-file token, of length 0; otherwise the token
    /// of the grammar ([`token_at`]) that starts here, with its length in bytes.
    pub fn advance_token(&mut self) -> (r: Token)
        requires
            old(self).wf(),
        ensures
            final(self).wf(),
            final(self).text() == old(self).text(),
            final(self).token_start() == final(self).pos(),
            old(self).pos() >= old(self).text().len() ==> r == (Token { kind: TokenKind::Eof, len: 0 })
                && final(self).pos() == old(self).pos(),
            old(self).pos() < old(self).text().len() ==> ({
                let (kind, end) = token_at(old(self).text(), old(self).token_start(), old(self).pos());
                &&& r.kind == kind
                &&& final(self).pos() == end
                &&& r.len == low32(utf8_bytes(old(self).text(), old(self).token_start(), end))
            }),
    {
        let first_char = match self.bump() {
            Some(c) => c,
            None => {
                self.reset_pos_within_token();
                return Token::new(TokenKind::Eof, 0);
            },
        };
        let token_kind = if first_char == '/' {
            let next = self.first();
            if next == '/' {
                self.line_comment()
            } else if next == '*' {
                self.block_comment()
            } else {
                TokenKind::Slash
            }
        } else if is_whitespace(first_char) {
            self.whitespace()
        } else if is_identifier_start(first_char) {
            self.identifier_or_unknown_prefix()
        } else if '0' <= first_char && first_char <= '9' {
            let literal_kind = self.number(first_char);
            let suffix_start = self.pos_within_token();
            self.consume_literal_suffix();
            TokenKind::Literal { kind: literal_kind, suffix_start }
        } else if first_char == '\'' {
            let terminated = self.single_quoted_string();
            let suffix_start = self.pos_within_token();
            if terminated {
                self.consume_literal_suffix();
            }
            TokenKind::Literal { kind: LiteralKind::Char { terminated }, suffix_start }
        } else if first_char == '"' {
            let terminated = self.double_quoted_string();
            let suffix_start = self.pos_within_token();
            if terminated {
                self.consume_literal_suffix();
            }
            TokenKind::Literal { kind: LiteralKind::Str { terminated }, suffix_start }
        } else {
            match punctuation_kind(first_char) {
                Some(kind) => kind,
                None => {
                    if (first_char as u32) >= 128 {
                        self.invalid_identifier()
                    } else {
                        TokenKind::Invalid
                    }
                },
            }
        };
        let res = Token::new(token_kind, self.pos_within_token());
        self.reset_pos_within_token();
        res
    }

    /// A line comment, after its first `/`: its doc style; it runs to the
    /// end of the line.
    fn line_comment(&mut self) -> (r: TokenKind)
        requires
            old(self).wf(),
            at(old(self).text(), old(self).pos()) == '/',
        ensures
            ({
                let s = old(self).text();
                let j = old(self).pos() + 1;
                let doc = if at(s, j) == '!' {
                    Some(DocStyle::Inner)
                } else if at(s, j) == '/' && at(s, j + 1) != '/' {
                    Some(DocStyle::Outer)
                } else {
                    None
                };
                &&& r == TokenKind::LineComment { doc_style: doc }
                &&& moved_to(*final(self), *old(self), until_end(s, j, '\n'))
            }),
    {
        self.bump();
        let doc_style = if self.first() == '!' {
            Some(DocStyle::Inner)
        } else if self.first() == '/' && self.second() != '/' {
            Some(DocStyle::Outer)
        } else {
            None
        };
        self.consume_until(10u8);
        TokenKind::LineComment { doc_style }
    }

    /// A block comment, after its first `/`: its doc style, and whether it
    /// was closed; block comments nest.
    fn block_comment(&mut self) -> (r: TokenKind)
        requires
            old(self).wf(),
            at(old(self).text(), old(self).pos()) == '*',
        ensures
            ({
                let s = old(self).text();
                let j = old(self).pos() + 1;
                let doc = if at(s, j) == '!' {
                    Some(DocStyle::Inner)
                } else if at(s, j) == '*' && !(at(s, j + 1) == '*' || at(s, j + 1) == '/') {
                    Some(DocStyle::Outer)
                } else {
                    None
                };
                let b = block_end(s, j, 1);
                &&& r == TokenKind::BlockComment { doc_style: doc, terminated: b.1 == 0 }
                &&& moved_to(*final(self), *old(self), b.0)
            }),
    {
        let ghost s = self.text();
        self.bump();
        let ghost j = self.pos();
        let doc_style = if self.first() == '!' {
            Some(DocStyle::Inner)
        } else if self.first() == '*' && !(self.second() == '*' || self.second() == '/') {
            Some(DocStyle::Outer)
        } else {
            None
        };
        let mut depth: usize = 1;
        loop
            invariant_except_break
                depth >= 1,
                block_end(s, self.pos(), depth as int) == block_end(s, j, 1),
            invariant
                self.wf(),
                self.text() == s,
                self.token_start() == old(self).token_start(),
                depth <= self.pos() + 1,
            ensures
                self.wf(),
                self.text() == s,
                self.token_start() == old(self).token_start(),
                (self.pos(), depth as int) == block_end(s, j, 1),
            decreases s.len() - self.pos(),
        {
            let c = match self.bump() {
                Some(c) => c,
                None => {
                    break;
                },
            };
            if c == '/' && self.first() == '*' {
                self.bump();
                depth = depth + 1;
            } else if c == '*' && self.first() == '/' {
                self.bump();
                depth = depth - 1;
                if depth == 0 {
                    break;
                }
            }
        }
        TokenKind::BlockComment { doc_style, terminated: depth == 0 }
    }

    /// Whitespace, after its first character.
    fn whitespace(&mut self) -> (r: TokenKind)
        requires
            old(self).wf(),
        ensures
            r == TokenKind::Whitespace,
            moved_to(*final(self), *old(self), while_end(old(self).text(), old(self).pos(), whitespace_char())),
    {
        let pred = |c: char| -> (b: bool)
            ensures
                b == unicode_white_space(c),
        { is_whitespace(c) };
        self.consume_while(pred, Ghost(whitespace_char()));
        TokenKind::Whitespace
    }

    /// An identifier, or a prefix the lexer does not know, after its first character.
    fn identifier_or_unknown_prefix(&mut self) -> (r: TokenKind)
        requires
            old(self).wf(),
        ensures
            ({
                let x = identifier_or_prefix(old(self).text(), old(self).pos());
                r == x.0 && moved_to(*final(self), *old(self), x.1)
            }),
    {
        let pred = |c: char| -> (b: bool)
            ensures
                b == unicode_xid_continue(c),
        { is_identifier_continue(c) };
        self.consume_while(pred, Ghost(xid_continue()));
        let c = self.first();
        if c == '#' || c == '"' || c == '\'' {
            TokenKind::UnknownPrefix
        } else if (c as u32) >= 128 {
            self.invalid_identifier()
        } else {
            TokenKind::Ident
        }
    }

    /// The rest of an identifier that holds characters identifiers may not.
    fn invalid_identifier(&mut self) -> (r: TokenKind)
        requires
            old(self).wf(),
        ensures
            r == TokenKind::InvalidIdent,
            moved_to(*final(self), *old(self), while_end(old(self).text(), old(self).pos(), invalid_ident_char())),
    {
        let pred = |c: char| -> (b: bool)
            ensures
                b == (unicode_xid_continue(c) || !is_ascii_char(c) || c == '\u{200d}'),
        { is_identifier_continue(c) || (c as u32) >= 128 || c == '\u{200d}' };
        self.consume_while(pred, Ghost(invalid_ident_char()));
        TokenKind::InvalidIdent
    }

    /// Decimal digits and underscores; whether there was a digit.
    fn consume_decimal_digits(&mut self) -> (r: bool)
        requires
            old(self).wf(),
        ensures
            ({
                let d = dec_digits(old(self).text(), old(self).pos());
                r == d.1 && moved_to(*final(self), *old(self), d.0)
            }),
    {
        let ghost s = self.text();
        let ghost start = self.pos();
        let mut has_digits = false;
        loop
            invariant
                self.wf(),
                self.text() == s,
                self.token_start() == old(self).token_start(),
                start <= self.pos(),
                dec_digits(s, self.pos()).0 == dec_digits(s, start).0,
                dec_digits(s, start).1 == (has_digits || dec_digits(s, self.pos()).1),
            ensures
                self.wf(),
                self.text() == s,
                self.token_start() == old(self).token_start(),
                self.pos() == dec_digits(s, start).0,
                has_digits == dec_digits(s, start).1,
            decreases s.len() - self.pos(),
        {
            let c = self.first();
            if c == '_' {
                self.bump();
            } else if '0' <= c && c <= '9' {
                has_digits = true;
                self.bump();
            } else {
                break;
            }
        }
        has_digits
    }

    /// Hexadecimal digits and underscores; whether there was a digit.
    fn consume_hexadecimal_digits(&mut self) -> (r: bool)
        requires
            old(self).wf(),
        ensures
            ({
                let d = hex_digits(old(self).text(), old(self).pos());
                r == d.1 && moved_to(*final(self), *old(self), d.0)
            }),
    {
        let ghost s = self.text();
        let ghost start = self.pos();
        let mut has_digits = false;
        loop
            invariant
                self.wf(),
                self.text() == s,
                self.token_start() == old(self).token_start(),
                start <= self.pos(),
                hex_digits(s, self.pos()).0 == hex_digits(s, start).0,
                hex_digits(s, start).1 == (has_digits || hex_digits(s, self.pos()).1),
            ensures
                self.wf(),
                self.text() == s,
                self.token_start() == old(self).token_start(),
                self.pos() == hex_digits(s, start).0,
                has_digits == hex_digits(s, start).1,
            decreases s.len() - self.pos(),
        {
            let c = self.first();
            if c == '_' {
                self.bump();
            } else if ('0' <= c && c <= '9') || ('a' <= c && c <= 'f') || ('A' <= c && c <= 'F') {
                has_digits = true;
                self.bump();
            } else {
                break;
            }
        }
        has_digits
    }

    /// A float exponent after its `e`: a sign, maybe, and digits; whether
    /// there were digits.
    fn consume_float_exponent(&mut self) -> (r: bool)
        requires
            old(self).wf(),
        ensures
            ({
                let x = float_exponent(old(self).text(), old(self).pos());
                r == x.1 && moved_to(*final(self), *old(self), x.0)
            }),
    {
        if self.first() == '-' || self.first() == '+' {
            self.bump();
        }
        self.consume_decimal_digits()
    }

    /// The fraction or exponent of a number, after its digits in `base`.
    fn number_rest(&mut self, base: Base) -> (r: LiteralKind)
        requires
            old(self).wf(),
        ensures
            ({
                let x = number_rest(old(self).text(), old(self).pos(), base);
                r == x.0 && moved_to(*final(self), *old(self), x.1)
            }),
    {
        if self.first() == '.' && self.second() != '.' && !is_identifier_start(self.second()) {
            self.bump();
            let mut empty_exponent = false;
            if '0' <= self.first() && self.first() <= '9' {
                self.consume_decimal_digits();
                if self.first() == 'e' || self.first() == 'E' {
                    self.bump();
                    empty_exponent = !self.consume_float_exponent();
                }
            }
            LiteralKind::Float { base, empty_exponent }
        } else if self.first() == 'e' || self.first() == 'E' {
            self.bump();
            let empty_exponent = !self.consume_float_exponent();
            LiteralKind::Float { base, empty_exponent }
        } else {
            LiteralKind::Int { base, empty_int: false }
        }
    }

    /// A number literal, after its first digit `first_digit`.
    fn number(&mut self, first_digit: char) -> (r: LiteralKind)
        requires
            old(self).wf(),
        ensures
            ({
                let x = number(old(self).text(), old(self).pos(), first_digit);
                r == x.0 && moved_to(*final(self), *old(self), x.1)
            }),
    {
        if first_digit == '0' {
            let c = self.first();
            if c == 'b' || c == 'o' {
                let base = if c == 'b' { Base::Binary } else { Base::Octal };
                self.bump();
                if !self.consume_decimal_digits() {
                    return LiteralKind::Int { base, empty_int: true };
                }
                self.number_rest(base)
            } else if c == 'x' {
                self.bump();
                if !self.consume_hexadecimal_digits() {
                    return LiteralKind::Int { base: Base::Hexadecimal, empty_int: true };
                }
                self.number_rest(Base::Hexadecimal)
            } else if ('0' <= c && c <= '9') || c == '_' {
                self.consume_decimal_digits();
                self.number_rest(Base::Decimal)
            } else if c == '.' || c == 'e' || c == 'E' {
                self.number_rest(Base::Decimal)
            } else {
                LiteralKind::Int { base: Base::Decimal, empty_int: false }
            }
        } else {
            self.consume_decimal_digits();
            self.number_rest(Base::Decimal)
        }
    }

    /// The body of a character literal, after its quote; whether it was closed.
    fn single_quoted_string(&mut self) -> (r: bool)
        requires
            old(self).wf(),
        ensures
            ({
                let q = single_quoted(old(self).text(), old(self).pos());
                r == q.0 && moved_to(*final(self), *old(self), q.1)
            }),
    {
        let ghost s = self.text();
        if self.second() == '\'' && self.first() != '\\' {
            self.bump();
            self.bump();
            return true;
        }
        let ghost start = self.pos();
        loop
            invariant
                self.wf(),
                self.text() == s,
                self.token_start() == old(self).token_start(),
                single_quoted_loop(s, self.pos()) == single_quoted_loop(s, start),
                start == old(self).pos(),
                s == old(self).text(),
                single_quoted(s, start) == single_quoted_loop(s, start),
            ensures
                self.wf(),
                self.text() == s,
                self.token_start() == old(self).token_start(),
                false == single_quoted_loop(s, start).0,
                self.pos() == single_quoted_loop(s, start).1,
            decreases s.len() - self.pos(),
        {
            let c = self.first();
            if c == '\'' {
                self.bump();
                return true;
            } else if c == '/' {
                break;
            } else if c == '\n' && self.second() != '\'' {
                break;
            } else if c == '\0' && self.is_eof() {
                break;
            } else if c == '\\' {
                self.bump();
                self.bump();
            } else {
                self.bump();
            }
        }
        false
    }

    /// The body of a string literal, after its quote; whether it was closed.
    fn double_quoted_string(&mut self) -> (r: bool)
        requires
            old(self).wf(),
        ensures
            ({
                let q = double_quoted(old(self).text(), old(self).pos());
                r == q.0 && moved_to(*final(self), *old(self), q.1)
            }),
    {
        let ghost s = self.text();
        let ghost start = self.pos();
        loop
            invariant
                self.wf(),
                self.text() == s,
                self.token_start() == old(self).token_start(),
                double_quoted(s, self.pos()) == double_quoted(s, start),
                start == old(self).pos(),
                s == old(self).text(),
            ensures
                self.wf(),
                self.text() == s,
                self.token_start() == old(self).token_start(),
                false == double_quoted(s, start).0,
                self.pos() == double_quoted(s, start).1,
            decreases s.len() - self.pos(),
        {
            let c = match self.bump() {
                Some(c) => c,
                None => {
                    break;
                },
            };
            if c == '"' {
                return true;
            } else if c == '\\' && (self.first() == '\\' || self.first() == '"') {
                self.bump();
            }
        }
        false
    }

    /// The suffix of a literal: an identifier, if one starts here.
    fn consume_literal_suffix(&mut self)
        requires
            old(self).wf(),
        ensures
            moved_to(*final(self), *old(self), literal_suffix_end(old(self).text(), old(self).pos())),
    {
        self.consume_identifier();
    }

    /// An identifier, if one starts here.
    fn consume_identifier(&mut self)
        requires
            old(self).wf(),
        ensures
            moved_to(*final(self), *old(self), literal_suffix_end(old(self).text(), old(self).pos())),
    {
        if !is_identifier_start(self.first()) {
            return;
        }
        self.bump();
        let pred = |c: char| -> (b: bool)
            ensures
                b == unicode_xid_continue(c),
        { is_identifier_continue(c) };
        self.consume_while(pred, Ghost(xid_continue()));
    }
}

/// The kind of the single-character token `c`, if it is one.
fn punctuation_kind(c: char) -> (r: Option<TokenKind>)
    ensures
        r == punct_kind(c),
{
    match c {
        ';' => Some(TokenKind::Semi),
        ',' => Some(TokenKind::Comma),
        '.' => Some(TokenKind::Dot),
        '(' => Some(TokenKind::OpenParen),
        ')' => Some(TokenKind::CloseParen),
        '{' => Some(TokenKind::OpenBrace),
        '}' => Some(TokenKind::CloseBrace),
        '[' => Some(TokenKind::OpenBracket),
        ']' => Some(TokenKind::CloseBracket),
        '@' => Some(TokenKind::At),
        '#' => Some(TokenKind::Octothorpe),
        '~' => Some(TokenKind::Tilde),
        '?' => Some(TokenKind::Eroteme),
        ':' => Some(TokenKind::Colon),
        '$' => Some(TokenKind::Dollar),
        '=' => Some(TokenKind::Eq),
        '!' => Some(TokenKind::Bang),
        '<' => Some(TokenKind::Lt),
        '>' => Some(TokenKind::Gt),
        '-' => Some(TokenKind::Minus),
        '&' => Some(TokenKind::Ampersand),
        '|' => Some(TokenKind::Pipe),
        '+' => Some(TokenKind::Plus),
        '*' => Some(TokenKind::Star),
        '^' => Some(TokenKind::Caret),
        '%' => Some(TokenKind::Percent),
        _ => None,
    }
}

/// The tokens of `input`, in order, without the end-of-file token. A
/// token's length is kept in 32 bits; on a text whose UTF-8 byte length fits
/// there, the tokens cover the text, each at least one byte.
pub fn tokenize(input: &str) -> (r: Vec<Token>)
    ensures
        r@ == tokens_from(input@, 0),
        forall|i: int| 0 <= i < r@.len() ==> (#[trigger] r@[i]).kind != TokenKind::Eof,
        utf8_bytes(input@, 0, input@.len() as int) <= u32::MAX ==> forall|i: int| 0 <= i < r@.len() ==> (#[trigger] r@[i]).len >= 1,
        utf8_bytes(input@, 0, input@.len() as int) <= u32::MAX ==> token_lens_sum(r@) == utf8_bytes(input@, 0, input@.len() as int),
{
    proof {
        if utf8_bytes(input@, 0, input@.len() as int) <= u32::MAX {
            lemma_tokens_partition(input@, 0);
        }
    }
    let mut cursor = Cursor::new(input);
    let mut tokens: Vec<Token> = Vec::new();
    loop
        invariant
            cursor.wf(),
            cursor.text() == input@,
            cursor.token_start() == cursor.pos(),
            0 <= cursor.pos() <= cursor.text().len(),
            tokens@ + tokens_from(input@, cursor.pos()) == tokens_from(input@, 0),
            forall|i: int| 0 <= i < tokens@.len() ==> (#[trigger] tokens@[i]).kind != TokenKind::Eof,
        ensures
            tokens@ == tokens_from(input@, 0),
            forall|i: int| 0 <= i < tokens@.len() ==> (#[trigger] tokens@[i]).kind != TokenKind::Eof,
        decreases cursor.text().len() - cursor.pos(),
    {
        let ghost before = cursor.pos();
        let ghost prev = tokens@;
        let token = cursor.advance_token();
        if token.kind == TokenKind::Eof {
            proof {
                if before < cursor.text().len() {
                    lemma_token_progress(cursor.text(), before, before);
                }
                assert(tokens_from(input@, before) =~= Seq::<Token>::empty());
                assert(tokens@ + Seq::<Token>::empty() =~= tokens@);
            }
            break;
        }
        proof {
            if before < cursor.text().len() {
                lemma_token_progress(cursor.text(), before, before);
            }
            assert(tokens_from(input@, before) == seq![token] + tokens_from(input@, cursor.pos()));
            assert(prev.push(token) + tokens_from(input@, cursor.pos()) =~= prev + (seq![token] + tokens_from(input@, cursor.pos())));
        }
        tokens.push(token);
    }
    tokens
}

} // verus!
