//! A source file as the source map keeps it: its text, where it starts in
//! the map, where its lines start, its multi-byte characters and the records
//! of its normalization; and the lookups from a position to a line and a
//! column.

use vstd::prelude::*;

use vstd::string::StringSliceAdditionalSpecFns;
use vstd::utf8::{decode_utf8, encode_utf8, encode_utf8_decode_utf8, is_char_boundary};

use crate::terebinth_span::pos::{BytePos, CharPos, RelativeBytePos};
use crate::terebinth_span::source_file::{
    ExternalSource, ExternalSourceKind, MultiByteChar, NormalizedPos, SourceFileDiffs, SourceFileHash,
    SourceFileLines, char_width, str_width_spec,
};
use crate::text::push_char;

verus! {

// ---------------------------------------------------------------------------
// Line starts kept as differences

/// The `i`-th difference of `raw`, read little-endian from `width` bytes.
pub open spec fn diff_value(raw: Seq<u8>, width: int, i: int) -> int {
    if width == 1 {
        raw[i] as int
    } else if width == 2 {
        raw[2 * i] + 256 * raw[2 * i + 1]
    } else {
        raw[4 * i] + 256 * raw[4 * i + 1] + 65536 * raw[4 * i + 2] + 16777216 * raw[4 * i + 3]
    }
}

/// Where line `k` starts: the sum of the first `k` differences.
pub open spec fn diff_line_start(raw: Seq<u8>, width: int, k: int) -> int
    decreases k,
{
    if k <= 0 {
        0
    } else {
        diff_line_start(raw, width, k - 1) + diff_value(raw, width, k - 1)
    }
}

/// Differences that can be read: one, two or four bytes each, as many as the
/// bytes hold, and every line start within 32 bits.
pub open spec fn diffs_wf(d: SourceFileDiffs) -> bool {
    &&& (d.bytes_per_diff == 1 || d.bytes_per_diff == 2 || d.bytes_per_diff == 4)
    &&& d.num_diffs == d.raw_diffs@.len() / (d.bytes_per_diff as nat)
    &&& d.num_diffs < usize::MAX
    &&& diff_line_start(d.raw_diffs@, d.bytes_per_diff as int, d.num_diffs as int) <= u32::MAX
}

/// The line starts that differences stand for: zero, then the running sums.
pub open spec fn decoded_lines(d: SourceFileDiffs) -> Seq<RelativeBytePos> {
    Seq::new(
        (d.num_diffs + 1) as nat,
        |k: int| RelativeBytePos(diff_line_start(d.raw_diffs@, d.bytes_per_diff as int, k) as u32),
    )
}

/// The line starts, in whichever form they are kept.
pub open spec fn lines_of(l: SourceFileLines) -> Seq<RelativeBytePos> {
    match l {
        SourceFileLines::Lines(v) => v@,
        SourceFileLines::Diffs(d) => decoded_lines(d),
    }
}

/// Line starts that can be read.
pub open spec fn lines_wf(l: SourceFileLines) -> bool {
    match l {
        SourceFileLines::Lines(_) => true,
        SourceFileLines::Diffs(d) => diffs_wf(d),
    }
}

proof fn lemma_diff_value_bounds(raw: Seq<u8>, width: int, i: int)
    ensures
        0 <= diff_value(raw, width, i) <= u32::MAX,
{
}

proof fn lemma_diff_line_start_mono(raw: Seq<u8>, width: int, k: int, n: int)
    requires
        0 <= k <= n,
    ensures
        0 <= diff_line_start(raw, width, k) <= diff_line_start(raw, width, n),
    decreases n - k,
{
    if k < n {
        lemma_diff_line_start_mono(raw, width, k, n - 1);
        lemma_diff_value_bounds(raw, width, n - 1);
    } else {
        lemma_diff_line_start_nonneg(raw, width, k);
    }
}

proof fn lemma_diff_line_start_nonneg(raw: Seq<u8>, width: int, k: int)
    ensures
        0 <= diff_line_start(raw, width, k),
    decreases k,
{
    if k > 0 {
        lemma_diff_line_start_nonneg(raw, width, k - 1);
        lemma_diff_value_bounds(raw, width, k - 1);
    }
}

/// The difference at `i`, read from its bytes.
fn read_diff(d: &SourceFileDiffs, i: usize) -> (r: u32)
    requires
        diffs_wf(*d),
        i < d.num_diffs,
    ensures
        r == diff_value(d.raw_diffs@, d.bytes_per_diff as int, i as int),
{
    let width = d.bytes_per_diff;
    let len = d.raw_diffs.len();
    assert(width * i + width <= len) by (nonlinear_arith)
        requires
            width >= 1,
            i < len / width,
    ;
    if width == 1 {
        d.raw_diffs[i] as u32
    } else if width == 2 {
        let pos = 2 * i;
        d.raw_diffs[pos] as u32 + 256 * (d.raw_diffs[pos + 1] as u32)
    } else {
        let pos = 4 * i;
        d.raw_diffs[pos] as u32 + 256 * (d.raw_diffs[pos + 1] as u32) + 65536 * (d.raw_diffs[pos + 2] as u32)
            + 16777216 * (d.raw_diffs[pos + 3] as u32)
    }
}

/// The line starts that differences stand for.
fn decode_diffs(d: &SourceFileDiffs) -> (r: Vec<RelativeBytePos>)
    requires
        diffs_wf(*d),
    ensures
        r@ == decoded_lines(*d),
{
    let ghost raw = d.raw_diffs@;
    let ghost width = d.bytes_per_diff as int;
    let num_lines = d.num_diffs + 1;
    let mut lines: Vec<RelativeBytePos> = Vec::with_capacity(num_lines);
    let mut line_start: u32 = 0;
    lines.push(RelativeBytePos(line_start));
    let mut i: usize = 0;
    while i < d.num_diffs
        invariant
            diffs_wf(*d),
            raw == d.raw_diffs@,
            width == d.bytes_per_diff as int,
            i <= d.num_diffs,
            lines@.len() == i + 1,
            line_start == diff_line_start(raw, width, i as int),
            forall|k: int| 0 <= k <= i ==> #[trigger] lines@[k] == RelativeBytePos(diff_line_start(raw, width, k) as u32),
        decreases d.num_diffs - i,
    {
        let diff = read_diff(d, i);
        proof {
            lemma_diff_line_start_mono(raw, width, i + 1, d.num_diffs as int);
        }
        line_start = line_start + diff;
        lines.push(RelativeBytePos(line_start));
        i = i + 1;
    }
    assert(lines@ =~= decoded_lines(*d));
    lines
}

/// Line starts that can be kept as differences: the first line starts at
/// zero and no line starts before the one above it.
pub open spec fn encodable_lines(lines: Seq<RelativeBytePos>) -> bool {
    &&& lines.len() >= 1
    &&& lines[0].0 == 0
    &&& forall|k: int| 0 <= k < lines.len() - 1 ==> lines[k].0 <= (#[trigger] lines[k + 1]).0
}

/// Whether every line of `lines` but the last is at most `bound` bytes long.
pub open spec fn line_lengths_at_most(lines: Seq<RelativeBytePos>, bound: int) -> bool {
    forall|k: int| 0 <= k < lines.len() - 1 ==> (#[trigger] lines[k + 1]).0 - lines[k].0 <= bound
}

/// The width of each difference: the fewest of one, two or four bytes that
/// hold the longest line.
pub open spec fn diff_width(lines: Seq<RelativeBytePos>) -> usize {
    if line_lengths_at_most(lines, 0xFF) {
        1
    } else if line_lengths_at_most(lines, 0xFFFF) {
        2
    } else {
        4
    }
}

proof fn lemma_line_starts_from_diffs(raw: Seq<u8>, width: int, lines: Seq<RelativeBytePos>, n: int)
    requires
        0 <= n < lines.len(),
        lines[0].0 == 0,
        forall|k: int| 0 <= k < n ==> #[trigger] diff_value(raw, width, k) == lines[k + 1].0 - lines[k].0,
    ensures
        forall|k: int| 0 <= k <= n ==> #[trigger] diff_line_start(raw, width, k) == lines[k].0,
    decreases n,
{
    if n > 0 {
        lemma_line_starts_from_diffs(raw, width, lines, n - 1);
        assert(diff_line_start(raw, width, n) == diff_line_start(raw, width, n - 1) + diff_value(raw, width, n - 1));
    }
}

/// The line starts kept as differences, each in the fewest bytes that hold
/// the longest line, little-endian.
pub fn encode_line_diffs(lines: &Vec<RelativeBytePos>) -> (r: SourceFileDiffs)
    requires
        encodable_lines(lines@),
        4 * lines@.len() < usize::MAX,
    ensures
        diffs_wf(r),
        r.bytes_per_diff == diff_width(lines@),
        r.num_diffs == lines@.len() - 1,
        decoded_lines(r) == lines@,
{
    let n = lines.len();
    let mut longest: u32 = 0;
    let mut i: usize = 0;
    while i + 1 < n
        invariant
            encodable_lines(lines@),
            n == lines@.len(),
            i < n,
            forall|k: int| 0 <= k < i ==> (#[trigger] lines@[k + 1]).0 - lines@[k].0 <= longest,
            i == 0 ==> longest == 0,
            i > 0 ==> exists|k: int| 0 <= k < i && (#[trigger] lines@[k + 1]).0 - lines@[k].0 == longest,
        decreases n - i,
    {
        let diff = lines[i + 1].0 - lines[i].0;
        if diff > longest {
            longest = diff;
        }
        i = i + 1;
    }
    let width: usize = if longest <= 0xFF {
        1
    } else if longest <= 0xFFFF {
        2
    } else {
        4
    };
    proof {
        if longest > 0xFF {
            let k = choose|k: int| 0 <= k < i && (#[trigger] lines@[k + 1]).0 - lines@[k].0 == longest;
            assert(!line_lengths_at_most(lines@, 0xFF));
            if longest > 0xFFFF {
                assert(!line_lengths_at_most(lines@, 0xFFFF));
            }
        }
    }
    let ghost w = width as int;
    let mut raw: Vec<u8> = Vec::new();
    let mut j: usize = 0;
    while j + 1 < n
        invariant
            encodable_lines(lines@),
            n == lines@.len(),
            4 * n < usize::MAX,
            w == width as int,
            w == 1 || w == 2 || w == 4,
            line_lengths_at_most(lines@, longest as int),
            w == 1 ==> longest <= 0xFF,
            w == 2 ==> longest <= 0xFFFF,
            j < n,
            raw@.len() == w * j,
            forall|k: int| 0 <= k < j ==> #[trigger] diff_value(raw@, w, k) == lines@[k + 1].0 - lines@[k].0,
        decreases n - j,
    {
        let diff = lines[j + 1].0 - lines[j].0;
        assert(diff <= longest);
        let ghost before = raw@;
        if width == 1 {
            raw.push(diff as u8);
        } else if width == 2 {
            raw.push((diff % 256) as u8);
            raw.push((diff / 256) as u8);
        } else {
            raw.push((diff % 256) as u8);
            raw.push(((diff / 256) % 256) as u8);
            raw.push(((diff / 65536) % 256) as u8);
            raw.push((diff / 16777216) as u8);
        }
        proof {
            assert forall|k: int| 0 <= k < j implies #[trigger] diff_value(raw@, w, k) == diff_value(before, w, k) by {
                assert(w * k + w <= w * j) by (nonlinear_arith)
                    requires
                        w >= 1,
                        k < j,
                ;
                assert(w * k + (w - 1) < before.len());
                if w == 2 {
                    assert(raw@[2 * k] == before[2 * k]);
                    assert(raw@[2 * k + 1] == before[2 * k + 1]);
                } else if w == 4 {
                    assert(raw@[4 * k] == before[4 * k]);
                    assert(raw@[4 * k + 1] == before[4 * k + 1]);
                    assert(raw@[4 * k + 2] == before[4 * k + 2]);
                    assert(raw@[4 * k + 3] == before[4 * k + 3]);
                } else {
                    assert(raw@[k] == before[k]);
                }
            }
            assert(diff_value(raw@, w, j as int) == diff);
        }
        j = j + 1;
    }
    proof {
        lemma_line_starts_from_diffs(raw@, w, lines@, (n - 1) as int);
        assert(raw@.len() / (w as nat) == n - 1) by (nonlinear_arith)
            requires
                raw@.len() == w * (n - 1),
                w >= 1,
                n >= 1,
        ;
    }
    let r = SourceFileDiffs { bytes_per_diff: width, num_diffs: n - 1, raw_diffs: raw };
    assert(decoded_lines(r) =~= lines@);
    r
}

// ---------------------------------------------------------------------------
// Searching sorted keys

/// One more than the index of the last of `keys` that is at most `p`, or
/// zero when none is.
pub open spec fn last_at_most(keys: Seq<int>, p: int) -> int
    decreases keys.len(),
{
    if keys.len() == 0 {
        0
    } else if keys.last() <= p {
        keys.len() as int
    } else {
        last_at_most(keys.drop_last(), p)
    }
}

/// Keys in ascending order.
pub open spec fn ascending(keys: Seq<int>) -> bool {
    forall|i: int, j: int| 0 <= i <= j < keys.len() ==> keys[i] <= keys[j]
}

/// Keys in strictly ascending order.
pub open spec fn strictly_ascending(keys: Seq<int>) -> bool {
    forall|i: int, j: int| 0 <= i < j < keys.len() ==> keys[i] < keys[j]
}

/// Where keys at most `p` end, when they all come first.
proof fn lemma_last_at_most_split(keys: Seq<int>, p: int, m: int)
    requires
        0 <= m <= keys.len(),
        forall|j: int| 0 <= j < m ==> keys[j] <= p,
        forall|j: int| m <= j < keys.len() ==> keys[j] > p,
    ensures
        last_at_most(keys, p) == m,
    decreases keys.len(),
{
    if keys.len() > 0 && m < keys.len() {
        lemma_last_at_most_split(keys.drop_last(), p, m);
    }
}

/// The last key at most `p` is indeed at most `p`.
proof fn lemma_last_at_most_le(keys: Seq<int>, p: int)
    ensures
        0 <= last_at_most(keys, p) <= keys.len(),
        last_at_most(keys, p) > 0 ==> keys[last_at_most(keys, p) - 1] <= p,
    decreases keys.len(),
{
    if keys.len() > 0 && keys.last() > p {
        lemma_last_at_most_le(keys.drop_last(), p);
    }
}

/// The key just past the last one at most `p` is above `p`.
proof fn lemma_last_at_most_next(keys: Seq<int>, p: int)
    ensures
        last_at_most(keys, p) < keys.len() ==> keys[last_at_most(keys, p)] > p,
    decreases keys.len(),
{
    if keys.len() > 0 && keys.last() > p {
        lemma_last_at_most_next(keys.drop_last(), p);
        lemma_last_at_most_le(keys.drop_last(), p);
    }
}

/// The starts of lines as plain integers.
pub open spec fn line_keys(lines: Seq<RelativeBytePos>) -> Seq<int> {
    Seq::new(lines.len(), |i: int| lines[i].0 as int)
}

/// The positions of normalization records as plain integers.
pub open spec fn record_keys(records: Seq<NormalizedPos>) -> Seq<int> {
    Seq::new(records.len(), |i: int| records[i].pos.0 as int)
}

/// The positions in the original text of normalization records.
pub open spec fn original_keys(records: Seq<NormalizedPos>) -> Seq<int> {
    Seq::new(records.len(), |i: int| records[i].pos.0 + records[i].diff)
}

/// The line that position `p` lies on: the last that starts at or before it.
pub open spec fn line_index_of(lines: Seq<RelativeBytePos>, p: int) -> Option<int> {
    let k = last_at_most(line_keys(lines), p);
    if k == 0 {
        None
    } else {
        Some(k - 1)
    }
}

/// The bytes removed before the `k`-th record: that record's count, or none
/// before the first.
pub open spec fn removed_before(records: Seq<NormalizedPos>, k: int) -> int {
    if k == 0 {
        0
    } else {
        records[k - 1].diff as int
    }
}

/// How many line starts are at most `p`.
fn count_line_starts_at_most(lines: &Vec<RelativeBytePos>, p: u32) -> (r: usize)
    requires
        ascending(line_keys(lines@)),
    ensures
        r == last_at_most(line_keys(lines@), p as int),
        r <= lines@.len(),
{
    let ghost keys = line_keys(lines@);
    let mut lo: usize = 0;
    let mut hi: usize = lines.len();
    while lo < hi
        invariant
            keys == line_keys(lines@),
            ascending(keys),
            lo <= hi <= lines@.len(),
            forall|j: int| 0 <= j < lo ==> keys[j] <= p,
            forall|j: int| hi <= j < lines@.len() ==> keys[j] > p,
        decreases hi - lo,
    {
        let mid = lo + (hi - lo) / 2;
        if lines[mid].0 <= p {
            assert(keys[mid as int] <= p);
            lo = mid + 1;
        } else {
            assert(keys[mid as int] > p);
            hi = mid;
        }
    }
    proof { lemma_last_at_most_split(keys, p as int, lo as int); }
    lo
}

/// How many normalization records are at positions at most `p`.
fn count_records_at_most(records: &Vec<NormalizedPos>, p: u32) -> (r: usize)
    requires
        ascending(record_keys(records@)),
    ensures
        r == last_at_most(record_keys(records@), p as int),
        r <= records@.len(),
{
    let ghost keys = record_keys(records@);
    let mut lo: usize = 0;
    let mut hi: usize = records.len();
    while lo < hi
        invariant
            keys == record_keys(records@),
            ascending(keys),
            lo <= hi <= records@.len(),
            forall|j: int| 0 <= j < lo ==> keys[j] <= p,
            forall|j: int| hi <= j < records@.len() ==> keys[j] > p,
        decreases hi - lo,
    {
        let mid = lo + (hi - lo) / 2;
        if records[mid].pos.0 <= p {
            assert(keys[mid as int] <= p);
            lo = mid + 1;
        } else {
            assert(keys[mid as int] > p);
            hi = mid;
        }
    }
    proof { lemma_last_at_most_split(keys, p as int, lo as int); }
    lo
}

/// How many normalization records are at original positions at most `p`.
fn count_original_records_at_most(records: &Vec<NormalizedPos>, p: u32) -> (r: usize)
    requires
        ascending(original_keys(records@)),
        forall|i: int| 0 <= i < records@.len() ==> #[trigger] original_keys(records@)[i] <= u32::MAX,
    ensures
        r == last_at_most(original_keys(records@), p as int),
        r <= records@.len(),
{
    let ghost keys = original_keys(records@);
    let mut lo: usize = 0;
    let mut hi: usize = records.len();
    while lo < hi
        invariant
            keys == original_keys(records@),
            ascending(keys),
            forall|i: int| 0 <= i < records@.len() ==> #[trigger] keys[i] <= u32::MAX,
            lo <= hi <= records@.len(),
            forall|j: int| 0 <= j < lo ==> keys[j] <= p,
            forall|j: int| hi <= j < records@.len() ==> keys[j] > p,
        decreases hi - lo,
    {
        let mid = lo + (hi - lo) / 2;
        assert(keys[mid as int] <= u32::MAX);
        if records[mid].pos.0 + records[mid].diff <= p {
            lo = mid + 1;
        } else {
            hi = mid;
        }
    }
    proof { lemma_last_at_most_split(keys, p as int, lo as int); }
    lo
}

/// Line starts decoded from differences come in order.
pub proof fn lemma_decoded_lines_ascending(d: SourceFileDiffs)
    requires
        diffs_wf(d),
    ensures
        ascending(line_keys(decoded_lines(d))),
{
    let lines = decoded_lines(d);
    let raw = d.raw_diffs@;
    let width = d.bytes_per_diff as int;
    assert forall|i: int, j: int| 0 <= i <= j < lines.len() implies line_keys(lines)[i] <= line_keys(lines)[j] by {
        lemma_diff_line_start_mono(raw, width, i, j);
        lemma_diff_line_start_mono(raw, width, j, d.num_diffs as int);
    }
}

/// The line that a position lies on starts at or before it, and the line
/// after it, if any, starts after it.
pub proof fn lemma_line_index_brackets(lines: Seq<RelativeBytePos>, p: int)
    requires
        line_index_of(lines, p) is Some,
    ensures
        ({
            let a = line_index_of(lines, p)->0;
            &&& 0 <= a < lines.len()
            &&& lines[a].0 <= p
            &&& a + 1 < lines.len() ==> p < lines[a + 1].0
        }),
{
    lemma_last_at_most_le(line_keys(lines), p);
    lemma_last_at_most_next(line_keys(lines), p);
}

// ---------------------------------------------------------------------------
// Characters of more than one byte

/// The bytes beyond their first of the multi-byte characters that start
/// before `b`, read from the front until one starts at or after `b`.
pub open spec fn extra_bytes_before(chars: Seq<MultiByteChar>, b: int) -> int
    decreases chars.len(),
{
    if chars.len() == 0 || chars[0].pos.0 >= b {
        0
    } else {
        (chars[0].bytes - 1) + extra_bytes_before(chars.drop_first(), b)
    }
}

/// The multi-byte characters read before `b` have a byte at least and end
/// at or before `b`: `b` does not fall inside one.
pub open spec fn ends_by(chars: Seq<MultiByteChar>, b: int) -> bool
    decreases chars.len(),
{
    if chars.len() == 0 || chars[0].pos.0 >= b {
        true
    } else {
        &&& chars[0].bytes >= 1
        &&& chars[0].pos.0 + chars[0].bytes <= b
        &&& ends_by(chars.drop_first(), b)
    }
}

/// Multi-byte characters in the order of the text, none overlapping the next.
pub open spec fn chars_wf(chars: Seq<MultiByteChar>) -> bool {
    &&& forall|i: int| 0 <= i < chars.len() ==> #[trigger] chars[i].bytes >= 1
    &&& forall|i: int| 0 <= i < chars.len() - 1 ==> #[trigger] chars[i].pos.0 + chars[i].bytes <= chars[i + 1].pos.0
}

/// The character position of the byte position `b`.
pub open spec fn char_pos_of(chars: Seq<MultiByteChar>, b: int) -> int {
    b - extra_bytes_before(chars, b)
}

proof fn lemma_chars_wf_rest(chars: Seq<MultiByteChar>)
    requires
        chars_wf(chars),
        chars.len() > 0,
    ensures
        chars_wf(chars.drop_first()),
{
    let rest = chars.drop_first();
    assert forall|i: int| 0 <= i < rest.len() - 1 implies #[trigger] rest[i].pos.0 + rest[i].bytes <= rest[i + 1].pos.0 by {
        assert(chars[i + 1].pos.0 + chars[i + 1].bytes <= chars[i + 2].pos.0);
    }
    assert forall|i: int| 0 <= i < rest.len() implies #[trigger] rest[i].bytes >= 1 by {
        assert(chars[i + 1].bytes >= 1);
    }
}

/// The extra bytes before `b` of characters that start at or after `lo` fit
/// between `lo` and `b`.
proof fn lemma_extra_bytes_fit(chars: Seq<MultiByteChar>, b: int, lo: int)
    requires
        chars_wf(chars),
        ends_by(chars, b),
        lo <= b,
        chars.len() > 0 ==> lo <= chars[0].pos.0,
    ensures
        0 <= extra_bytes_before(chars, b) <= b - lo,
    decreases chars.len(),
{
    if chars.len() > 0 && chars[0].pos.0 < b {
        lemma_chars_wf_rest(chars);
        let rest = chars.drop_first();
        if rest.len() > 0 {
            assert(chars[0].pos.0 + chars[0].bytes <= chars[1].pos.0);
        }
        lemma_extra_bytes_fit(rest, b, chars[0].pos.0 + chars[0].bytes);
    }
}

/// Character positions grow with byte positions.
proof fn lemma_char_pos_mono(chars: Seq<MultiByteChar>, b1: int, b2: int)
    requires
        chars_wf(chars),
        ends_by(chars, b1),
        ends_by(chars, b2),
        0 <= b1 <= b2,
    ensures
        char_pos_of(chars, b1) <= char_pos_of(chars, b2),
    decreases chars.len(),
{
    if chars.len() == 0 || chars[0].pos.0 >= b2 {
    } else if chars[0].pos.0 >= b1 {
        lemma_extra_bytes_fit(chars, b2, b1);
    } else {
        lemma_chars_wf_rest(chars);
        lemma_char_pos_mono(chars.drop_first(), b1, b2);
    }
}

// ---------------------------------------------------------------------------
// Lines of text

/// The characters of `s` up to its first line feed, or all of them.
pub open spec fn until_newline(s: Seq<char>) -> Seq<char>
    decreases s.len(),
{
    if s.len() == 0 || s[0] == '\n' {
        Seq::empty()
    } else {
        seq![s[0]] + until_newline(s.drop_first())
    }
}

/// The line of the text `t` that starts at byte `begin`.
pub open spec fn line_text(t: Seq<char>, begin: int) -> Seq<char> {
    let bytes = encode_utf8(t);
    until_newline(decode_utf8(bytes.subrange(begin, bytes.len() as int)))
}

proof fn lemma_until_newline_at(s: Seq<char>, i: int)
    requires
        0 <= i <= s.len(),
        i < s.len() ==> s[i] == '\n',
        forall|j: int| 0 <= j < i ==> s[j] != '\n',
    ensures
        until_newline(s) == s.subrange(0, i),
    decreases i,
{
    if i > 0 {
        lemma_until_newline_at(s.drop_first(), i - 1);
        assert(s.subrange(0, i) =~= seq![s[0]] + s.drop_first().subrange(0, i - 1));
    } else {
        assert(s.subrange(0, 0) =~= Seq::<char>::empty());
    }
}

/// The text of `src` from byte `begin` up to the next line feed.
fn get_until_newline(src: &str, begin: usize) -> (r: String)
    requires
        is_char_boundary(src.spec_bytes(), begin as int),
    ensures
        r@ == line_text(src@, begin as int),
{
    let (_, slice) = src.split_at(begin);
    proof {
        encode_utf8_decode_utf8(slice@);
        assert(slice@ == decode_utf8(src.spec_bytes().subrange(begin as int, src.spec_bytes().len() as int)));
    }
    let n = slice.unicode_len();
    let mut line = String::new();
    let mut i: usize = 0;
    while i < n
        invariant_except_break
            n == slice@.len(),
            i <= n,
            line@ == slice@.subrange(0, i as int),
            forall|j: int| 0 <= j < i ==> slice@[j] != '\n',
        ensures
            i <= n,
            line@ == slice@.subrange(0, i as int),
            forall|j: int| 0 <= j < i ==> slice@[j] != '\n',
            i < n ==> slice@[i as int] == '\n',
        decreases n - i,
    {
        let c = slice.get_char(i);
        if c == '\n' {
            break;
        }
        push_char(&mut line, c);
        assert(line@ =~= slice@.subrange(0, i + 1));
        i = i + 1;
    }
    proof { lemma_until_newline_at(slice@, i as int); }
    line
}

// ---------------------------------------------------------------------------
// The source file

/// A source file of the source map. Its text is `src`, or, for a file that
/// comes from elsewhere, the text that `external_src` holds; its bytes take
/// the positions from `start_pos` on, `source_len` of them.
pub struct SourceFile {
    pub src: Option<String>,
    pub src_hash: SourceFileHash,
    pub checksum_hash: Option<SourceFileHash>,
    pub external_src: ExternalSource,
    pub start_pos: BytePos,
    pub source_len: RelativeBytePos,
    pub lines: SourceFileLines,
    pub multibyte_chars: Vec<MultiByteChar>,
    pub normalized_pos: Vec<NormalizedPos>,
}

impl SourceFile {
    /// Where the lines start, relative to the file.
    pub fn lines(&self) -> (r: Vec<RelativeBytePos>)
        requires
            lines_wf(self.lines),
        ensures
            r@ == lines_of(self.lines),
    {
        match &self.lines {
            SourceFileLines::Lines(lines) => {
                let mut r: Vec<RelativeBytePos> = Vec::with_capacity(lines.len());
                let mut i: usize = 0;
                while i < lines.len()
                    invariant
                        i <= lines@.len(),
                        r@ == lines@.subrange(0, i as int),
                    decreases lines@.len() - i,
                {
                    r.push(lines[i]);
                    i = i + 1;
                }
                assert(r@ =~= lines@);
                r
            },
            SourceFileLines::Diffs(diffs) => decode_diffs(diffs),
        }
    }

    /// Where the line that `pos` lies on starts.
    pub fn line_begin_pos(&self, pos: BytePos) -> (r: BytePos)
        requires
            lines_wf(self.lines),
            ascending(line_keys(lines_of(self.lines))),
            self.start_pos.0 <= pos.0,
            line_index_of(lines_of(self.lines), pos.0 - self.start_pos.0) is Some,
            lines_of(self.lines)[line_index_of(lines_of(self.lines), pos.0 - self.start_pos.0)->0].0 + self.start_pos.0
                <= u32::MAX,
        ensures
            r.0 == lines_of(self.lines)[line_index_of(lines_of(self.lines), pos.0 - self.start_pos.0)->0].0
                + self.start_pos.0,
    {
        let pos = self.relative_position(pos);
        let line_index = self.lookup_line(pos).unwrap();
        let lines = self.lines();
        let line_start_pos = lines[line_index];
        self.absolute_position(line_start_pos)
    }

    /// Whether the text came from elsewhere.
    pub fn is_imported(&self) -> (r: bool)
        ensures
            r == (self.src is None),
    {
        self.src.is_none()
    }

    /// How many lines the file has.
    pub fn count_lines(&self) -> (r: usize)
        requires
            lines_wf(self.lines),
        ensures
            r == lines_of(self.lines).len(),
    {
        self.lines().len()
    }

    /// The position in the source map of the position `pos` of the file.
    pub fn absolute_position(&self, pos: RelativeBytePos) -> (r: BytePos)
        requires
            pos.0 + self.start_pos.0 <= u32::MAX,
        ensures
            r.0 == pos.0 + self.start_pos.0,
    {
        BytePos(pos.0 + self.start_pos.0)
    }

    /// The position in the file of the position `pos` of the source map.
    pub fn relative_position(&self, pos: BytePos) -> (r: RelativeBytePos)
        requires
            self.start_pos.0 <= pos.0,
        ensures
            r.0 == pos.0 - self.start_pos.0,
    {
        RelativeBytePos(pos.0 - self.start_pos.0)
    }

    /// The position in the source map just past the file.
    pub fn end_position(&self) -> (r: BytePos)
        requires
            self.source_len.0 + self.start_pos.0 <= u32::MAX,
        ensures
            r.0 == self.source_len.0 + self.start_pos.0,
    {
        self.absolute_position(self.source_len)
    }

    /// The index of the line that `pos` lies on; `None` before the first line.
    pub fn lookup_line(&self, pos: RelativeBytePos) -> (r: Option<usize>)
        requires
            lines_wf(self.lines),
            ascending(line_keys(lines_of(self.lines))),
        ensures
            r is None <==> line_index_of(lines_of(self.lines), pos.0 as int) is None,
            r matches Some(i) ==> line_index_of(lines_of(self.lines), pos.0 as int) == Some(i as int),
            r matches Some(i) ==> i < lines_of(self.lines).len(),
    {
        let lines = self.lines();
        let k = count_line_starts_at_most(&lines, pos.0);
        k.checked_sub(1)
    }

    /// The positions in the source map that line `line_index` covers, its
    /// line break included; nothing for an empty file.
    pub fn line_bounds(&self, line_index: usize) -> (r: core::ops::Range<BytePos>)
        requires
            lines_wf(self.lines),
            self.source_len.0 + self.start_pos.0 <= u32::MAX,
            self.source_len.0 != 0 ==> line_index < lines_of(self.lines).len(),
            self.source_len.0 != 0 ==> lines_of(self.lines)[line_index as int].0 + self.start_pos.0 <= u32::MAX,
            self.source_len.0 != 0 && line_index + 1 < lines_of(self.lines).len()
                ==> lines_of(self.lines)[line_index + 1].0 + self.start_pos.0 <= u32::MAX,
        ensures
            self.source_len.0 == 0 ==> r.start == self.start_pos && r.end == self.start_pos,
            self.source_len.0 != 0 ==> r.start.0 == lines_of(self.lines)[line_index as int].0 + self.start_pos.0,
            self.source_len.0 != 0 && line_index + 1 == lines_of(self.lines).len()
                ==> r.end.0 == self.source_len.0 + self.start_pos.0,
            self.source_len.0 != 0 && line_index + 1 < lines_of(self.lines).len()
                ==> r.end.0 == lines_of(self.lines)[line_index + 1].0 + self.start_pos.0,
    {
        if self.is_empty() {
            return self.start_pos..self.start_pos;
        }
        let lines = self.lines();
        if line_index == lines.len() - 1 {
            self.absolute_position(lines[line_index])..self.end_position()
        } else {
            self.absolute_position(lines[line_index])..self.absolute_position(lines[line_index + 1])
        }
    }

    /// Whether `byte_pos` lies in the file or just past it.
    pub fn contains(&self, byte_pos: BytePos) -> (r: bool)
        requires
            self.source_len.0 + self.start_pos.0 <= u32::MAX,
        ensures
            r == (self.start_pos.0 <= byte_pos.0 && byte_pos.0 <= self.source_len.0 + self.start_pos.0),
    {
        byte_pos.0 >= self.start_pos.0 && byte_pos.0 <= self.end_position().0
    }

    /// Whether the file has no bytes.
    pub fn is_empty(&self) -> (r: bool)
        ensures
            r == (self.source_len.0 == 0),
    {
        self.source_len.0 == 0
    }

    /// The position in the text as it was before normalization of the
    /// position `pos` of the source map: the bytes removed before it are
    /// those the last record at or before it counts.
    pub fn original_relative_byte_pos(&self, pos: BytePos) -> (r: RelativeBytePos)
        requires
            self.start_pos.0 <= pos.0,
            strictly_ascending(record_keys(self.normalized_pos@)),
            pos.0 - self.start_pos.0 + removed_before(
                self.normalized_pos@,
                last_at_most(record_keys(self.normalized_pos@), pos.0 - self.start_pos.0),
            ) <= u32::MAX,
        ensures
            r.0 == pos.0 - self.start_pos.0 + removed_before(
                self.normalized_pos@,
                last_at_most(record_keys(self.normalized_pos@), pos.0 - self.start_pos.0),
            ),
    {
        let pos = self.relative_position(pos);
        let k = count_records_at_most(&self.normalized_pos, pos.0);
        let diff: u32 = if k == 0 {
            0
        } else {
            self.normalized_pos[k - 1].diff
        };
        RelativeBytePos(pos.0 + diff)
    }

    /// The position in the source map of the byte at `offset` in the text
    /// as it was before normalization: the bytes removed before it are those
    /// the last record at or before it counts.
    pub fn normalized_byte_pos(&self, offset: u32) -> (r: BytePos)
        requires
            self.start_pos.0 + offset <= u32::MAX,
            strictly_ascending(original_keys(self.normalized_pos@)),
            forall|i: int| 0 <= i < self.normalized_pos@.len() ==> #[trigger] original_keys(self.normalized_pos@)[i] <= u32::MAX,
            removed_before(
                self.normalized_pos@,
                last_at_most(original_keys(self.normalized_pos@), self.start_pos.0 + offset),
            ) <= self.start_pos.0 + offset,
        ensures
            r.0 == self.start_pos.0 + offset - removed_before(
                self.normalized_pos@,
                last_at_most(original_keys(self.normalized_pos@), self.start_pos.0 + offset),
            ),
    {
        let k = count_original_records_at_most(&self.normalized_pos, self.start_pos.0 + offset);
        let diff: u32 = if k == 0 {
            0
        } else {
            self.normalized_pos[k - 1].diff
        };
        BytePos(self.start_pos.0 + offset - diff)
    }

    /// The character position of the byte position `bpos` of the file.
    fn bytepos_to_file_charpos(&self, bpos: RelativeBytePos) -> (r: CharPos)
        requires
            chars_wf(self.multibyte_chars@),
            ends_by(self.multibyte_chars@, bpos.0 as int),
        ensures
            r.0 == char_pos_of(self.multibyte_chars@, bpos.0 as int),
            0 <= char_pos_of(self.multibyte_chars@, bpos.0 as int) <= bpos.0,
    {
        let ghost chars = self.multibyte_chars@;
        let ghost b = bpos.0 as int;
        proof { lemma_extra_bytes_fit(chars, b, 0); }
        let mut total_extra_bytes: u32 = 0;
        let mut i: usize = 0;
        assert(chars.skip(0) =~= chars);
        while i < self.multibyte_chars.len()
            invariant_except_break
                chars == self.multibyte_chars@,
                b == bpos.0,
                i <= chars.len(),
                chars_wf(chars.skip(i as int)),
                ends_by(chars.skip(i as int), b),
                total_extra_bytes + extra_bytes_before(chars.skip(i as int), b) == extra_bytes_before(chars, b),
                extra_bytes_before(chars, b) <= b,
            ensures
                total_extra_bytes == extra_bytes_before(chars, b),
            decreases chars.len() - i,
        {
            let mbc = self.multibyte_chars[i];
            let ghost rest = chars.skip(i as int);
            assert(rest[0] == mbc);
            if mbc.pos.0 < bpos.0 {
                assert(rest.drop_first() =~= chars.skip(i + 1));
                proof {
                    lemma_chars_wf_rest(rest);
                    lemma_extra_bytes_fit(rest.drop_first(), b, 0);
                }
                total_extra_bytes = total_extra_bytes + (mbc.bytes as u32 - 1);
                i = i + 1;
            } else {
                break;
            }
        }
        CharPos(bpos.0 as usize - total_extra_bytes as usize)
    }

    /// The text of the file: its own, or the one that came from elsewhere.
    pub open spec fn text(&self) -> Option<Seq<char>> {
        match self.src {
            Some(s) => Some(s@),
            None => match self.external_src {
                ExternalSource::Foreign { kind: ExternalSourceKind::Present(s), .. } => Some(s@),
                _ => None,
            },
        }
    }

    /// The line of the text at `pos`, and its column counted in characters;
    /// line zero and the character position before the first line.
    pub open spec fn file_pos(&self, pos: int) -> (int, int) {
        let lines = lines_of(self.lines);
        let chars = self.multibyte_chars@;
        match line_index_of(lines, pos) {
            Some(a) => (a + 1, char_pos_of(chars, pos) - char_pos_of(chars, lines[a].0 as int)),
            None => (0, char_pos_of(chars, pos)),
        }
    }

    /// What the lookups of the column of `pos` need: line starts that can be
    /// read, in order, and neither `pos` nor the start of its line inside a
    /// multi-byte character.
    pub open spec fn can_locate(&self, pos: int) -> bool {
        let lines = lines_of(self.lines);
        let chars = self.multibyte_chars@;
        &&& lines_wf(self.lines)
        &&& ascending(line_keys(lines))
        &&& chars_wf(chars)
        &&& 0 <= pos
        &&& ends_by(chars, pos)
        &&& (line_index_of(lines, pos) matches Some(a) ==> ends_by(chars, lines[a].0 as int))
    }

    /// The text of line `line_number`, up to its line feed; `None` for a line
    /// past the last, or when the text is not there.
    pub fn get_line(&self, line_number: usize) -> (r: Option<String>)
        requires
            lines_wf(self.lines),
            line_number < lines_of(self.lines).len() && self.text() is Some ==> is_char_boundary(
                encode_utf8(self.text()->0),
                lines_of(self.lines)[line_number as int].0 as int,
            ),
        ensures
            r is Some <==> (line_number < lines_of(self.lines).len() && self.text() is Some),
            r matches Some(s) ==> s@ == line_text(self.text()->0, lines_of(self.lines)[line_number as int].0 as int),
    {
        let lines = self.lines();
        if line_number >= lines.len() {
            return None;
        }
        let begin = lines[line_number].0 as usize;
        match &self.src {
            Some(src) => Some(get_until_newline(src.as_str(), begin)),
            None => match self.external_src.get_source() {
                Some(src) => Some(get_until_newline(src, begin)),
                None => None,
            },
        }
    }

    /// The line of `pos` and its column counted in characters.
    fn lookup_file_pos(&self, pos: RelativeBytePos) -> (r: (usize, CharPos))
        requires
            self.can_locate(pos.0 as int),
        ensures
            r.0 == self.file_pos(pos.0 as int).0,
            r.1.0 == self.file_pos(pos.0 as int).1,
    {
        let chpos = self.bytepos_to_file_charpos(pos);
        proof { lemma_last_at_most_le(line_keys(lines_of(self.lines)), pos.0 as int); }
        let lines = self.lines();
        let nlines = lines.len();
        match self.lookup_line(pos) {
            Some(a) => {
                assert(a < nlines);
                let line = a + 1;
                let linebpos = lines[a];
                let linechpos = self.bytepos_to_file_charpos(linebpos);
                proof {
                    assert(line_keys(lines@)[a as int] == linebpos.0);
                    lemma_char_pos_mono(self.multibyte_chars@, linebpos.0 as int, pos.0 as int);
                }
                let col = CharPos(chpos.0 - linechpos.0);
                (line, col)
            },
            None => (0, chpos),
        }
    }

    /// The line of `pos`, its column counted in characters, and its column
    /// as shown: the width of the characters of its line before it (the
    /// character count when the text is not there).
    pub fn lookup_file_pos_with_col_display(&self, pos: BytePos) -> (r: (usize, CharPos, usize))
        requires
            self.start_pos.0 <= pos.0,
            self.can_locate(pos.0 - self.start_pos.0),
            self.file_pos(pos.0 - self.start_pos.0).1 * 255 <= usize::MAX,
            ({
                let line = self.file_pos(pos.0 - self.start_pos.0).0;
                line > 0 && self.text() is Some ==> is_char_boundary(
                    encode_utf8(self.text()->0),
                    lines_of(self.lines)[line - 1].0 as int,
                )
            }),
        ensures
            ({
                let (line, col) = self.file_pos(pos.0 - self.start_pos.0);
                &&& r.0 == line
                &&& r.1.0 == col
                &&& r.2 == if line > 0 && self.text() is Some {
                    let code = line_text(self.text()->0, lines_of(self.lines)[line - 1].0 as int);
                    str_width_spec(code.take(if col < code.len() { col } else { code.len() as int }))
                } else {
                    col
                }
            }),
    {
        let pos = self.relative_position(pos);
        let (line, col_or_chpos) = self.lookup_file_pos(pos);
        proof { lemma_last_at_most_le(line_keys(lines_of(self.lines)), pos.0 as int); }
        if line > 0 {
            match self.get_line(line - 1) {
                None => (line, col_or_chpos, col_or_chpos.0),
                Some(code) => {
                    let n = code.as_str().unicode_len();
                    let take = if col_or_chpos.0 < n {
                        col_or_chpos.0
                    } else {
                        n
                    };
                    let mut display_col: usize = 0;
                    let mut i: usize = 0;
                    while i < take
                        invariant
                            n == code@.len(),
                            take <= n,
                            take <= col_or_chpos.0,
                            col_or_chpos.0 * 255 <= usize::MAX,
                            i <= take,
                            display_col == str_width_spec(code@.take(i as int)),
                            display_col <= i * 255,
                        decreases take - i,
                    {
                        let c = code.as_str().get_char(i);
                        let w = char_width(c);
                        proof {
                            assert(code@.take((i + 1) as int).drop_last() =~= code@.take(i as int));
                            assert(display_col + w <= (i + 1) * 255) by (nonlinear_arith)
                                requires
                                    display_col <= i * 255,
                                    w <= 255,
                            ;
                            assert((i + 1) * 255 <= col_or_chpos.0 * 255) by (nonlinear_arith)
                                requires
                                    i < take,
                                    take <= col_or_chpos.0,
                            ;
                        }
                        display_col = display_col + w;
                        i = i + 1;
                    }
                    (line, col_or_chpos, display_col)
                },
            }
        } else {
            (0, col_or_chpos, col_or_chpos.0)
        }
    }
}

} // verus!
