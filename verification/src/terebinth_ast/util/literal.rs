//! Escaping the text of literals, as symbols.

use vstd::prelude::*;

use crate::terebinth_span::symbol::{Interner, Symbol};
use crate::text::{push_char, str_equal};

verus! {

/// The lowercase hexadecimal digit of `d`, which is below 16.
pub open spec fn hex_digit(d: nat) -> char {
    if d < 10 {
        (('0' as nat) + d) as char
    } else {
        (('a' as nat) + d - 10) as char
    }
}

/// `n` in lowercase hexadecimal, with no leading zeros.
pub open spec fn hex_text(n: nat) -> Seq<char>
    decreases n,
{
    if n < 16 {
        seq![hex_digit(n)]
    } else {
        hex_text(n / 16).push(hex_digit(n % 16))
    }
}

/// Whether `c` is printable ASCII, from space to `~`.
pub open spec fn printable_ascii(c: nat) -> bool {
    0x20 <= c <= 0x7e
}

/// What `char::escape_default` makes of `c`: a backslash escape for tab,
/// carriage return, line feed, quotes and backslash; printable ASCII as it
/// is; any other character as `\u{...}` with its code point in hexadecimal.
pub open spec fn char_escape(c: char) -> Seq<char> {
    if c == '\t' {
        seq!['\\', 't']
    } else if c == '\r' {
        seq!['\\', 'r']
    } else if c == '\n' {
        seq!['\\', 'n']
    } else if c == '\'' {
        seq!['\\', '\'']
    } else if c == '"' {
        seq!['\\', '"']
    } else if c == '\\' {
        seq!['\\', '\\']
    } else if printable_ascii(c as nat) {
        seq![c]
    } else {
        seq!['\\', 'u', '{'] + hex_text(c as nat) + seq!['}']
    }
}

/// What `str::escape_default` makes of `s`: each character escaped in turn.
pub open spec fn str_escape(s: Seq<char>) -> Seq<char>
    decreases s.len(),
{
    if s.len() == 0 {
        Seq::empty()
    } else {
        str_escape(s.drop_last()) + char_escape(s.last())
    }
}

/// What `u8::escape_ascii` makes of `b`: the escapes of `char_escape` for
/// tab, carriage return, line feed, quotes and backslash; printable ASCII as
/// it is; any other byte as `\x` and two hexadecimal digits.
pub open spec fn byte_escape(b: u8) -> Seq<char> {
    let c = b as char;
    if b == 0x09 || b == 0x0d || b == 0x0a || b == 0x27 || b == 0x22 || b == 0x5c {
        char_escape(c)
    } else if printable_ascii(b as nat) {
        seq![c]
    } else {
        seq!['\\', 'x', hex_digit(b as nat / 16), hex_digit(b as nat % 16)]
    }
}

/// What `<[u8]>::escape_ascii` makes of `bytes`: each byte escaped in turn.
pub open spec fn bytes_escape(bytes: Seq<u8>) -> Seq<char>
    decreases bytes.len(),
{
    if bytes.len() == 0 {
        Seq::empty()
    } else {
        bytes_escape(bytes.drop_last()) + byte_escape(bytes.last())
    }
}

fn hex_digit_char(d: u32) -> (r: char)
    requires
        d < 16,
    ensures
        r == hex_digit(d as nat),
{
    match d {
        0 => '0',
        1 => '1',
        2 => '2',
        3 => '3',
        4 => '4',
        5 => '5',
        6 => '6',
        7 => '7',
        8 => '8',
        9 => '9',
        10 => 'a',
        11 => 'b',
        12 => 'c',
        13 => 'd',
        14 => 'e',
        _ => 'f',
    }
}

/// Appends `n` in lowercase hexadecimal.
fn push_hex(s: &mut String, n: u32)
    ensures
        final(s)@ == old(s)@ + hex_text(n as nat),
    decreases n,
{
    if n >= 16 {
        push_hex(s, n / 16);
    }
    push_char(s, hex_digit_char(n % 16));
    assert(final(s)@ == old(s)@ + hex_text(n as nat)) by {
        if n < 16 {
            assert(hex_text(n as nat) =~= seq![hex_digit(n as nat)]);
        }
    }
}

/// Appends the two characters `a` and `b`.
fn push_pair(s: &mut String, a: char, b: char)
    ensures
        final(s)@ == old(s)@ + seq![a, b],
{
    push_char(s, a);
    push_char(s, b);
    assert(final(s)@ =~= old(s)@ + seq![a, b]);
}

/// Appends `char_escape(c)`.
fn push_char_escape(s: &mut String, c: char)
    ensures
        final(s)@ == old(s)@ + char_escape(c),
{
    if c == '\t' {
        push_pair(s, '\\', 't');
    } else if c == '\r' {
        push_pair(s, '\\', 'r');
    } else if c == '\n' {
        push_pair(s, '\\', 'n');
    } else if c == '\'' {
        push_pair(s, '\\', '\'');
    } else if c == '"' {
        push_pair(s, '\\', '"');
    } else if c == '\\' {
        push_pair(s, '\\', '\\');
    } else if ' ' <= c && c <= '~' {
        push_char(s, c);
        assert(final(s)@ =~= old(s)@ + char_escape(c));
    } else {
        let ghost start = s@;
        push_char(s, '\\');
        push_char(s, 'u');
        push_char(s, '{');
        push_hex(s, c as u32);
        push_char(s, '}');
        assert(s@ =~= start + char_escape(c));
    }
}

/// Appends `byte_escape(b)`.
fn push_byte_escape(s: &mut String, b: u8)
    ensures
        final(s)@ == old(s)@ + byte_escape(b),
{
    if b == 0x09 || b == 0x0d || b == 0x0a || b == 0x27 || b == 0x22 || b == 0x5c {
        push_char_escape(s, b as char);
    } else if 0x20 <= b && b <= 0x7e {
        push_char(s, b as char);
        assert(final(s)@ =~= old(s)@ + byte_escape(b));
    } else {
        let ghost start = s@;
        push_pair(s, '\\', 'x');
        push_pair(s, hex_digit_char((b / 16) as u32), hex_digit_char((b % 16) as u32));
        assert(s@ =~= start + byte_escape(b));
    }
}

/// The symbol of `symbol`'s text escaped as `str::escape_default` does:
/// `symbol` itself when escaping changes nothing, else the escaped text interned.
pub fn escape_string_symbol(symbol: Symbol, interner: &mut Interner) -> (r: Symbol)
    requires
        old(interner).wf(),
        symbol.0 < old(interner)@.len(),
        old(interner)@.len() < u32::MAX,
    ensures
        final(interner).wf(),
        old(interner)@.is_prefix_of(final(interner)@),
        r.0 < final(interner)@.len(),
        final(interner)@[r.0 as int] == str_escape(old(interner)@[symbol.0 as int]),
        str_escape(old(interner)@[symbol.0 as int]) == old(interner)@[symbol.0 as int] ==> r == symbol
            && final(interner)@ == old(interner)@,
{
    let s = symbol.as_str(interner);
    let n = s.unicode_len();
    let mut escaped = String::new();
    for i in 0..n
        invariant
            n == s@.len(),
            escaped@ == str_escape(s@.subrange(0, i as int)),
    {
        push_char_escape(&mut escaped, s.get_char(i));
        assert(s@.subrange(0, i + 1).drop_last() =~= s@.subrange(0, i as int));
    }
    assert(s@.subrange(0, n as int) =~= s@);
    if str_equal(s, escaped.as_str()) {
        symbol
    } else {
        Symbol::intern(escaped.as_str(), interner)
    }
}

/// The symbol of `ch` escaped as `char::escape_default` does.
pub fn escape_char_symbol(ch: char, interner: &mut Interner) -> (r: Symbol)
    requires
        old(interner).wf(),
        old(interner)@.len() < u32::MAX,
    ensures
        final(interner).wf(),
        old(interner)@.is_prefix_of(final(interner)@),
        r.0 < final(interner)@.len(),
        final(interner)@[r.0 as int] == char_escape(ch),
{
    let mut escaped = String::new();
    push_char_escape(&mut escaped, ch);
    assert(escaped@ =~= char_escape(ch));
    Symbol::intern(escaped.as_str(), interner)
}

/// The symbol of `bytes` escaped as `<[u8]>::escape_ascii` does.
pub fn escape_byte_str_symbol(bytes: &[u8], interner: &mut Interner) -> (r: Symbol)
    requires
        old(interner).wf(),
        old(interner)@.len() < u32::MAX,
    ensures
        final(interner).wf(),
        old(interner)@.is_prefix_of(final(interner)@),
        r.0 < final(interner)@.len(),
        final(interner)@[r.0 as int] == bytes_escape(bytes@),
{
    let mut escaped = String::new();
    for i in 0..bytes.len()
        invariant
            escaped@ == bytes_escape(bytes@.subrange(0, i as int)),
    {
        push_byte_escape(&mut escaped, bytes[i]);
        assert(bytes@.subrange(0, i + 1).drop_last() =~= bytes@.subrange(0, i as int));
    }
    assert(bytes@.subrange(0, bytes@.len() as int) =~= bytes@);
    Symbol::intern(escaped.as_str(), interner)
}

/// Why the text of a literal could not be read.
#[derive(Debug)]
pub enum LitError {
    InvalidSuffix(Symbol),
    InvalidIntSuffix(Symbol),
    InvalidFloatSuffix(Symbol),
    NonDecimalFloat(u32),
    IntTooLarge(u32),
}

} // verus!
