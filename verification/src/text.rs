//! Characters, strings and text spans shared by the lexers and the parser.

use vstd::prelude::*;

verus! {

/// Whether `c` has the Unicode `White_Space` property, as `char::is_whitespace` reports it.
pub uninterp spec fn char_is_whitespace(c: char) -> bool;

/// Whether `c` has the Unicode `Alphabetic` property, as `char::is_alphabetic` reports it.
pub uninterp spec fn char_is_alphabetic(c: char) -> bool;

/// The ASCII characters with the `White_Space` property: tab, line feed,
/// vertical tab, form feed, carriage return and space.
pub open spec fn is_ascii_white_space(c: char) -> bool {
    (9 <= (c as u32) <= 13) || (c as u32) == 32
}

/// The ASCII characters with the `Alphabetic` property: the letters.
pub open spec fn is_ascii_letter(c: char) -> bool {
    ('a' <= c && c <= 'z') || ('A' <= c && c <= 'Z')
}

/// `char::is_whitespace`, with its ASCII part written out.
pub open spec fn unicode_white_space(c: char) -> bool {
    if (c as u32) < 128 {
        is_ascii_white_space(c)
    } else {
        char_is_whitespace(c)
    }
}

/// `char::is_alphabetic`, with its ASCII part written out.
pub open spec fn unicode_alphabetic(c: char) -> bool {
    if (c as u32) < 128 {
        is_ascii_letter(c)
    } else {
        char_is_alphabetic(c)
    }
}

/// Calls `char::is_whitespace`. Its result depends on `c` alone: it is named,
/// and of the Unicode tables it consults only the ASCII part is restated:
/// there the white space is tab to carriage return, and space.
#[verifier::external_body]
pub(crate) fn is_whitespace_char(c: char) -> (r: bool)
    ensures
        r == char_is_whitespace(c),
        (c as u32) < 128 ==> (r <==> is_ascii_white_space(c)),
{
    c.is_whitespace()
}

/// Calls `char::is_alphabetic`. Its result depends on `c` alone: it is named,
/// and of the Unicode tables it consults only the ASCII part is restated:
/// there the alphabetic characters are the letters.
#[verifier::external_body]
pub(crate) fn is_alphabetic_char(c: char) -> (r: bool)
    ensures
        r == char_is_alphabetic(c),
        (c as u32) < 128 ==> (r <==> is_ascii_letter(c)),
{
    c.is_alphabetic()
}

/// Whether `c` is one of the ASCII digits `0` to `9`.
pub open spec fn is_ascii_digit(c: char) -> bool {
    '0' <= c && c <= '9'
}

/// The value of an ASCII digit.
pub open spec fn digit_value(c: char) -> int {
    (c as int) - ('0' as int)
}

/// Calls `String::push`, which appends one character.
#[verifier::external_body]
pub(crate) fn push_char(s: &mut String, c: char)
    ensures
        final(s)@ == old(s)@.push(c),
{
    s.push(c)
}

/// Appends the characters of `t` to `s`.
pub(crate) fn push_str(s: &mut String, t: &str)
    ensures
        final(s)@ == old(s)@ + t@,
{
    let n = t.unicode_len();
    let ghost start = s@;
    for i in 0..n
        invariant
            n == t@.len(),
            s@ == start + t@.subrange(0, i as int),
    {
        push_char(s, t.get_char(i));
        assert(s@ =~= start + t@.subrange(0, (i + 1) as int));
    }
    assert(t@.subrange(0, n as int) =~= t@);
}

/// The characters of `s`, in order.
pub fn chars_of(s: &str) -> (r: Vec<char>)
    ensures
        r@ == s@,
{
    let n = s.unicode_len();
    let mut r: Vec<char> = Vec::new();
    for i in 0..n
        invariant
            n == s@.len(),
            r@ == s@.subrange(0, i as int),
    {
        r.push(s.get_char(i));
        assert(r@ =~= s@.subrange(0, (i + 1) as int));
    }
    assert(r@ =~= s@);
    r
}

/// The string made of `v[start..end]`.
pub fn string_from_chars(v: &Vec<char>, start: usize, end: usize) -> (r: String)
    requires
        start <= end <= v@.len(),
    ensures
        r@ == v@.subrange(start as int, end as int),
{
    let mut r = String::new();
    let mut i = start;
    while i < end
        invariant
            start <= i <= end <= v@.len(),
            r@ == v@.subrange(start as int, i as int),
        decreases end - i,
    {
        push_char(&mut r, v[i]);
        assert(r@ =~= v@.subrange(start as int, (i + 1) as int));
        i = i + 1;
    }
    r
}

/// Whether the two strings hold the same characters.
pub fn str_equal(a: &str, b: &str) -> (r: bool)
    ensures
        r == (a@ == b@),
{
    let n = a.unicode_len();
    if n != b.unicode_len() {
        return false;
    }
    let mut i: usize = 0;
    while i < n
        invariant
            n == a@.len(),
            n == b@.len(),
            i <= n,
            forall|j: int| 0 <= j < i ==> a@[j] == b@[j],
        decreases n - i,
    {
        if a.get_char(i) != b.get_char(i) {
            return false;
        }
        i = i + 1;
    }
    assert(a@ =~= b@);
    true
}

/// Whether `v[start..end]` is exactly the word `w`.
pub fn chars_equal(v: &Vec<char>, start: usize, end: usize, w: &[char]) -> (r: bool)
    requires
        start <= end <= v@.len(),
    ensures
        r == (v@.subrange(start as int, end as int) == w@),
{
    if end - start != w.len() {
        assert(v@.subrange(start as int, end as int).len() != w@.len());
        return false;
    }
    let mut i: usize = 0;
    while i < w.len()
        invariant
            start <= end <= v@.len(),
            end - start == w@.len(),
            i <= w@.len(),
            forall|j: int| 0 <= j < i ==> v@[start + j] == w@[j],
        decreases w@.len() - i,
    {
        if v[start + i] != w[i] {
            assert(v@.subrange(start as int, end as int)[i as int] != w@[i as int]);
            return false;
        }
        i = i + 1;
    }
    assert(v@.subrange(start as int, end as int) =~= w@);
    true
}

/// A region of source text: the positions `start..end` and the text they hold.
#[derive(Debug)]
pub struct TextSpan {
    pub start: usize,
    pub end: usize,
    pub literal: String,
}

impl Clone for TextSpan {
    fn clone(&self) -> (r: Self)
        ensures
            r == *self,
    {
        TextSpan { start: self.start, end: self.end, literal: self.literal.clone() }
    }
}

/// A span as a mathematical value: start, end and text.
pub type SpanModel = (usize, usize, Seq<char>);

/// The text that [`TextSpan::combine`] gives to `spans`: their texts in order,
/// each separated from the one before it by as many spaces as lie between them.
pub open spec fn combined_literal(spans: Seq<SpanModel>) -> Seq<char>
    decreases spans.len(),
{
    if spans.len() == 0 {
        Seq::empty()
    } else if spans.len() == 1 {
        spans[0].2
    } else {
        let init = spans.drop_last();
        let prev = init.last();
        let cur = spans.last();
        let gap: int = if cur.0 > prev.1 { cur.0 - prev.1 } else { 0 };
        combined_literal(init) + Seq::new(gap as nat, |_i: int| ' ') + cur.2
    }
}

/// The least start among `spans`.
pub open spec fn min_start(spans: Seq<SpanModel>) -> usize
    decreases spans.len(),
{
    if spans.len() <= 1 {
        spans[0].0
    } else {
        let m = min_start(spans.drop_last());
        if spans.last().0 < m { spans.last().0 } else { m }
    }
}

/// The greatest end among `spans`.
pub open spec fn max_end(spans: Seq<SpanModel>) -> usize
    decreases spans.len(),
{
    if spans.len() <= 1 {
        spans[0].1
    } else {
        let m = max_end(spans.drop_last());
        if spans.last().1 > m { spans.last().1 } else { m }
    }
}

/// The span that covers all of `spans` (which must not be empty).
pub open spec fn combine_models(spans: Seq<SpanModel>) -> SpanModel {
    (min_start(spans), max_end(spans), combined_literal(spans))
}

/// The model of each span of `spans`.
pub open spec fn span_models(spans: Seq<TextSpan>) -> Seq<SpanModel> {
    spans.map_values(|t: TextSpan| t.model())
}

impl TextSpan {
    /// This span as a mathematical value.
    pub open spec fn model(&self) -> SpanModel {
        (self.start, self.end, self.literal@)
    }

    pub fn new(start: usize, end: usize, literal: String) -> (r: Self)
        ensures
            r.start == start,
            r.end == end,
            r.literal == literal,
    {
        TextSpan { start, end, literal }
    }

    /// The length of the span.
    pub fn length(&self) -> (r: usize)
        requires
            self.start <= self.end,
        ensures
            r == self.end - self.start,
    {
        self.end - self.start
    }

    /// The span that covers all of `spans`: from the least start to the greatest
    /// end, with their texts joined in order.
    pub fn combine(spans: Vec<TextSpan>) -> (r: TextSpan)
        requires
            spans@.len() > 0,
        ensures
            r.model() == combine_models(span_models(spans@)),
    {
        let mut start = spans[0].start;
        let mut end = spans[0].end;
        let mut literal = spans[0].literal.clone();
        let ghost m = span_models(spans@);
        assert(m.subrange(0, 1).drop_last() =~= Seq::<SpanModel>::empty());
        let mut i: usize = 1;
        while i < spans.len()
            invariant
                1 <= i <= spans@.len(),
                m == span_models(spans@),
                start == min_start(m.subrange(0, i as int)),
                end == max_end(m.subrange(0, i as int)),
                literal@ == combined_literal(m.subrange(0, i as int)),
            decreases spans@.len() - i,
        {
            let prev_end = spans[i - 1].end;
            let cur = &spans[i];
            let ghost prefix = m.subrange(0, i as int);
            let ghost next = m.subrange(0, (i + 1) as int);
            assert(next.drop_last() =~= prefix);
            assert(next.last() == cur.model());
            assert(prefix.last() == spans@[i - 1].model());
            if cur.start > prev_end {
                let mut k = prev_end;
                let ghost before = literal@;
                while k < cur.start
                    invariant
                        prev_end <= k <= cur.start,
                        literal@ == before + Seq::new((k - prev_end) as nat, |_i: int| ' '),
                    decreases cur.start - k,
                {
                    push_char(&mut literal, ' ');
                    assert(literal@ =~= before + Seq::new((k + 1 - prev_end) as nat, |_i: int| ' '));
                    k = k + 1;
                }
            } else {
                assert(Seq::new(0nat, |_i: int| ' ') =~= Seq::<char>::empty());
                assert(literal@ + Seq::new(0nat, |_i: int| ' ') =~= literal@);
            }
            literal.append(cur.literal.as_str());
            if cur.start < start {
                start = cur.start;
            }
            if cur.end > end {
                end = cur.end;
            }
            i = i + 1;
        }
        assert(m.subrange(0, spans@.len() as int) =~= m);
        TextSpan { start, end, literal }
    }
}

} // verus!
