//! What is known of a source file apart from its spans: the hash of its
//! text, the display width of its characters, and the records kept while
//! its text is normalized.

use vstd::prelude::*;

use sha2::Digest;
use vstd::string::StringSliceAdditionalSpecFns;
use unicode_width::UnicodeWidthChar;

use crate::terebinth_span::pos::RelativeBytePos;

verus! {

// ---------------------------------------------------------------------------
// Display width

/// The display width that the `unicode-width` tables give `c`, or `None` for
/// a control character.
pub uninterp spec fn unicode_width_of(c: char) -> Option<usize>;

/// Calls `UnicodeWidthChar::width`. Its result depends on `c` alone and is
/// named, not described, but for what its source shows plainly: control
/// characters (below U+0020, and U+007F to U+009F) have none, the other ASCII
/// characters are one column wide, and every width comes from a table of bytes.
#[verifier::external_body]
fn unicode_char_width(c: char) -> (r: Option<usize>)
    ensures
        r == unicode_width_of(c),
        r is None <==> ((c as u32) < 0x20 || (0x7f <= (c as u32) && (c as u32) < 0xa0)),
        0x20 <= (c as u32) < 0x7f ==> r == Some(1usize),
        r matches Some(w) ==> w <= 255,
{
    UnicodeWidthChar::width(c)
}

/// The characters that are shown one column wide whatever the tables say:
/// the control characters but tab, line feed and the controls above 0x7F,
/// and the bidirectional formatting characters.
pub open spec fn is_narrow_control(c: char) -> bool {
    let n = c as u32;
    ||| (n <= 0x08)
    ||| (0x0b <= n <= 0x1f)
    ||| n == 0x7f
    ||| (0x202a <= n <= 0x202e)
    ||| (0x2066 <= n <= 0x2069)
}

/// The number of columns `c` takes when shown: four for a tab.
pub open spec fn char_width_spec(c: char) -> int {
    if c == '\t' {
        4
    } else if is_narrow_control(c) {
        1
    } else {
        match unicode_width_of(c) {
            Some(w) => w as int,
            None => 1,
        }
    }
}

/// The number of columns `s` takes when shown: the sum of its characters' widths.
pub open spec fn str_width_spec(s: Seq<char>) -> int
    decreases s.len(),
{
    if s.len() == 0 {
        0
    } else {
        str_width_spec(s.drop_last()) + char_width_spec(s.last())
    }
}

/// The number of columns `ch` takes when shown.
pub fn char_width(ch: char) -> (r: usize)
    ensures
        r == char_width_spec(ch),
        r <= 255,
{
    let n = ch as u32;
    if ch == '\t' {
        4
    } else if n <= 0x08 || (0x0b <= n && n <= 0x1f) || n == 0x7f || (0x202a <= n && n <= 0x202e)
        || (0x2066 <= n && n <= 0x2069) {
        1
    } else {
        match unicode_char_width(ch) {
            Some(w) => w,
            None => 1,
        }
    }
}

/// The number of columns `s` takes when shown.
pub fn str_width(s: &str) -> (r: usize)
    requires
        s@.len() * 255 <= usize::MAX,
    ensures
        r == str_width_spec(s@),
{
    let n = s.unicode_len();
    let mut total: usize = 0;
    let mut i: usize = 0;
    while i < n
        invariant
            n == s@.len(),
            n * 255 <= usize::MAX,
            i <= n,
            total == str_width_spec(s@.subrange(0, i as int)),
            total <= i * 255,
        decreases n - i,
    {
        let c = s.get_char(i);
        let w = char_width(c);
        proof {
            assert(s@.subrange(0, (i + 1) as int).drop_last() =~= s@.subrange(0, i as int));
            assert(total + w <= (i + 1) * 255) by (nonlinear_arith)
                requires
                    total <= i * 255,
                    w <= 255,
            ;
            assert((i + 1) * 255 <= n * 255) by (nonlinear_arith)
                requires
                    i < n,
            ;
        }
        total = total + w;
        i = i + 1;
    }
    assert(s@.subrange(0, n as int) =~= s@);
    total
}

// ---------------------------------------------------------------------------
// Hashes of source text

/// The digests that the hash functions give the bytes `data`.
pub uninterp spec fn md5_digest_of(data: Seq<u8>) -> Seq<u8>;

pub uninterp spec fn sha1_digest_of(data: Seq<u8>) -> Seq<u8>;

pub uninterp spec fn sha256_digest_of(data: Seq<u8>) -> Seq<u8>;

pub uninterp spec fn blake3_digest_of(data: Seq<u8>) -> Seq<u8>;

/// Calls `md5::Md5::digest`: the MD5 digest of `data`, 16 bytes long.
#[verifier::external_body]
fn md5_digest(data: &[u8]) -> (r: Vec<u8>)
    ensures
        r@ == md5_digest_of(data@),
        r@.len() == 16,
{
    md5::Md5::digest(data).to_vec()
}

/// Calls `sha1::Sha1::digest`: the SHA-1 digest of `data`, 20 bytes long.
#[verifier::external_body]
fn sha1_digest(data: &[u8]) -> (r: Vec<u8>)
    ensures
        r@ == sha1_digest_of(data@),
        r@.len() == 20,
{
    sha1::Sha1::digest(data).to_vec()
}

/// Calls `sha2::Sha256::digest`: the SHA-256 digest of `data`, 32 bytes long.
#[verifier::external_body]
fn sha256_digest(data: &[u8]) -> (r: Vec<u8>)
    ensures
        r@ == sha256_digest_of(data@),
        r@.len() == 32,
{
    sha2::Sha256::digest(data).to_vec()
}

/// Calls `blake3::hash`: the BLAKE3 hash of `data`, 32 bytes long.
#[verifier::external_body]
fn blake3_digest(data: &[u8]) -> (r: Vec<u8>)
    ensures
        r@ == blake3_digest_of(data@),
        r@.len() == 32,
{
    blake3::hash(data).as_bytes().to_vec()
}

/// The hash functions a source file's text can be hashed with.
#[derive(Clone, Copy, PartialEq, Eq, Hash, Debug, Structural)]
pub enum SourceFileHashAlgorithm {
    Md5,
    Sha1,
    Sha256,
    Blake3,
}

/// The name under which a hash function is written.
pub open spec fn algorithm_name(kind: SourceFileHashAlgorithm) -> Seq<char> {
    match kind {
        SourceFileHashAlgorithm::Md5 => "md5"@,
        SourceFileHashAlgorithm::Sha1 => "sha1"@,
        SourceFileHashAlgorithm::Sha256 => "sha256"@,
        SourceFileHashAlgorithm::Blake3 => "blake3"@,
    }
}

/// The length in bytes of a hash of this kind.
pub open spec fn hash_len_of(kind: SourceFileHashAlgorithm) -> nat {
    match kind {
        SourceFileHashAlgorithm::Md5 => 16,
        SourceFileHashAlgorithm::Sha1 => 20,
        SourceFileHashAlgorithm::Sha256 | SourceFileHashAlgorithm::Blake3 => 32,
    }
}

/// The digest of `data` by the hash function `kind`.
pub open spec fn digest_of(kind: SourceFileHashAlgorithm, data: Seq<u8>) -> Seq<u8> {
    match kind {
        SourceFileHashAlgorithm::Md5 => md5_digest_of(data),
        SourceFileHashAlgorithm::Sha1 => sha1_digest_of(data),
        SourceFileHashAlgorithm::Sha256 => sha256_digest_of(data),
        SourceFileHashAlgorithm::Blake3 => blake3_digest_of(data),
    }
}

impl SourceFileHashAlgorithm {
    /// The name under which the hash function is written.
    pub fn to_display_string(self) -> (r: String)
        ensures
            r@ == algorithm_name(self),
    {
        match self {
            SourceFileHashAlgorithm::Md5 => String::from_str("md5"),
            SourceFileHashAlgorithm::Sha1 => String::from_str("sha1"),
            SourceFileHashAlgorithm::Sha256 => String::from_str("sha256"),
            SourceFileHashAlgorithm::Blake3 => String::from_str("blake3"),
        }
    }

    /// The hash function written `s`, if any.
    pub fn from_str(s: &str) -> (r: Result<SourceFileHashAlgorithm, ()>)
        ensures
            r matches Ok(k) ==> algorithm_name(k) == s@,
            r is Err ==> forall|k: SourceFileHashAlgorithm| algorithm_name(k) != s@,
    {
        proof {
            reveal_strlit("md5");
            reveal_strlit("sha1");
            reveal_strlit("sha256");
            reveal_strlit("blake3");
        }
        if crate::text::str_equal(s, "md5") {
            Ok(SourceFileHashAlgorithm::Md5)
        } else if crate::text::str_equal(s, "sha1") {
            Ok(SourceFileHashAlgorithm::Sha1)
        } else if crate::text::str_equal(s, "sha256") {
            Ok(SourceFileHashAlgorithm::Sha256)
        } else if crate::text::str_equal(s, "blake3") {
            Ok(SourceFileHashAlgorithm::Blake3)
        } else {
            Err(())
        }
    }
}

/// The hash of a source file's text: the function used and the digest,
/// padded with zeros to 32 bytes.
#[derive(Clone, Copy, PartialEq, Eq, Hash, Debug)]
pub struct SourceFileHash {
    pub kind: SourceFileHashAlgorithm,
    pub value: [u8; 32],
}

/// The 32 bytes that hold `digest` followed by zeros.
pub open spec fn padded(digest: Seq<u8>) -> Seq<u8> {
    Seq::new(32, |i: int| if i < digest.len() { digest[i] } else { 0u8 })
}

impl SourceFileHash {
    /// The hash of the bytes `src` by the function `kind`.
    pub fn new_in_memory(kind: SourceFileHashAlgorithm, src: &[u8]) -> (r: SourceFileHash)
        ensures
            r.kind == kind,
            r.value@ == padded(digest_of(kind, src@)),
            digest_of(kind, src@).len() == hash_len_of(kind),
    {
        let digest = match kind {
            SourceFileHashAlgorithm::Md5 => md5_digest(src),
            SourceFileHashAlgorithm::Sha1 => sha1_digest(src),
            SourceFileHashAlgorithm::Sha256 => sha256_digest(src),
            SourceFileHashAlgorithm::Blake3 => blake3_digest(src),
        };
        let mut value: [u8; 32] = [0u8; 32];
        let mut i: usize = 0;
        while i < digest.len()
            invariant
                digest@.len() <= 32,
                i <= digest@.len(),
                value@.len() == 32,
                forall|j: int| 0 <= j < i ==> value@[j] == digest@[j],
                forall|j: int| digest@.len() <= j < 32 ==> value@[j] == 0u8,
            decreases digest@.len() - i,
        {
            value.set(i, digest[i]);
            i = i + 1;
        }
        assert(value@ =~= padded(digest@));
        SourceFileHash { kind, value }
    }

    /// Whether `src` hashes to this hash.
    pub fn matches(&self, src: &str) -> (r: bool)
        ensures
            r == (self.value@ == padded(digest_of(self.kind, src.spec_bytes()))),
    {
        let other = Self::new_in_memory(self.kind, src.as_bytes());
        let mut i: usize = 0;
        while i < 32
            invariant
                i <= 32,
                self.value@.len() == 32,
                other.value@.len() == 32,
                other.value@ == padded(digest_of(self.kind, src.spec_bytes())),
                forall|j: int| 0 <= j < i ==> self.value@[j] == other.value@[j],
            decreases 32 - i,
        {
            if self.value[i] != other.value[i] {
                assert(self.value@[i as int] != other.value@[i as int]);
                return false;
            }
            i = i + 1;
        }
        assert(self.value@ =~= other.value@);
        true
    }

    /// The digest, without its padding.
    pub fn hash_bytes(&self) -> (r: &[u8])
        ensures
            r@ == self.value@.subrange(0, hash_len_of(self.kind) as int),
    {
        let len = self.hash_len();
        vstd::slice::slice_subrange(self.value.as_slice(), 0, len)
    }

    /// The length in bytes of the digest.
    pub fn hash_len(&self) -> (r: usize)
        ensures
            r == hash_len_of(self.kind),
    {
        match self.kind {
            SourceFileHashAlgorithm::Md5 => 16,
            SourceFileHashAlgorithm::Sha1 => 20,
            SourceFileHashAlgorithm::Sha256 | SourceFileHashAlgorithm::Blake3 => 32,
        }
    }
}

// ---------------------------------------------------------------------------
// Records of a source file

/// A character that takes more than one byte.
#[derive(Clone, Copy, PartialEq, Eq, Debug, Structural)]
pub struct MultiByteChar {
    pub pos: RelativeBytePos,
    pub bytes: u8,
}

/// A place where normalization removed bytes: from `pos` on, positions in the
/// original text lie `diff` bytes further.
#[derive(Clone, Copy, PartialEq, Eq, Debug, Structural)]
pub struct NormalizedPos {
    pub pos: RelativeBytePos,
    pub diff: u32,
}

/// Whether the text of a file that comes from elsewhere is there.
#[derive(Clone, PartialEq, Eq, Debug)]
pub enum ExternalSourceKind {
    Present(String),
    AbsentOk,
    AbsentErr,
}

/// Where the text of a source file comes from.
#[derive(Clone, PartialEq, Eq, Debug)]
pub enum ExternalSource {
    Unneeded,
    Foreign { kind: ExternalSourceKind, metadata_index: u32 },
}

impl ExternalSource {
    /// The text, when it came from elsewhere and is there.
    pub fn get_source(&self) -> (r: Option<&str>)
        ensures
            match self {
                ExternalSource::Foreign { kind: ExternalSourceKind::Present(src), .. } => r matches Some(s) && s@ == src@,
                _ => r is None,
            },
    {
        match self {
            ExternalSource::Foreign { kind: ExternalSourceKind::Present(src), .. } => Some(src.as_str()),
            _ => None,
        }
    }
}

/// A position did not fit in 32 bits.
#[derive(Debug)]
pub struct OffsetOverflowError;

/// The lines of a file, as the positions where they start or in a compact
/// form of differences between them.
#[derive(Clone)]
pub enum SourceFileLines {
    Lines(Vec<RelativeBytePos>),
    Diffs(SourceFileDiffs),
}

impl SourceFileLines {
    pub fn is_lines(&self) -> (r: bool)
        ensures
            r == (self is Lines),
    {
        match self {
            SourceFileLines::Lines(_) => true,
            SourceFileLines::Diffs(_) => false,
        }
    }
}

/// The starts of a file's lines as differences between them, each in
/// `bytes_per_diff` bytes.
#[derive(Clone)]
pub struct SourceFileDiffs {
    pub bytes_per_diff: usize,
    pub num_diffs: usize,
    pub raw_diffs: Vec<u8>,
}

/// A line of a span: its index and the columns the span covers on it.
#[derive(Clone, Copy, PartialEq, Eq, Debug, Structural)]
pub struct LineInfo {
    pub line_index: usize,
    pub start_col: crate::terebinth_span::pos::CharPos,
    pub end_col: crate::terebinth_span::pos::CharPos,
}

// ---------------------------------------------------------------------------
// Normalization of source text

/// A carriage return that a line feed follows starts at `i`.
pub open spec fn crlf_at(s: Seq<u8>, i: int) -> bool {
    0 <= i && i + 1 < s.len() && s[i] == 13u8 && s[i + 1] == 10u8
}

/// The bytes of `s` from `i` on, without the carriage returns that a line
/// feed follows.
pub open spec fn without_crlf(s: Seq<u8>, i: int) -> Seq<u8>
    decreases s.len() - i,
{
    if i < 0 || i >= s.len() {
        Seq::empty()
    } else if crlf_at(s, i) {
        without_crlf(s, i + 1)
    } else {
        seq![s[i]] + without_crlf(s, i + 1)
    }
}

/// The records of the carriage returns removed from `s` from `i` on, when
/// `kept` bytes were kept and `removed` removed before `i` and `gap` bytes
/// were removed before normalization began: each gives the position, in the
/// normalized text, just after the line feed, and how many bytes were
/// removed up to there.
pub open spec fn crlf_records(s: Seq<u8>, i: int, kept: int, removed: int, gap: int) -> Seq<NormalizedPos>
    decreases s.len() - i,
{
    if i < 0 || i >= s.len() {
        Seq::empty()
    } else if crlf_at(s, i) {
        seq![NormalizedPos { pos: RelativeBytePos((kept + 1) as u32), diff: (gap + removed + 1) as u32 }]
            + crlf_records(s, i + 1, kept, removed + 1, gap)
    } else {
        crlf_records(s, i + 1, kept + 1, removed, gap)
    }
}

/// The byte-order mark, encoded in UTF-8.
pub open spec fn starts_with_bom(s: Seq<u8>) -> bool {
    s.len() >= 3 && s[0] == 0xefu8 && s[1] == 0xbbu8 && s[2] == 0xbfu8
}

/// Removes a byte-order mark at the start of `src`, and records it.
pub fn remove_bom(src: &mut Vec<u8>, normalized_pos: &mut Vec<NormalizedPos>)
    ensures
        starts_with_bom(old(src)@) ==> final(src)@ == old(src)@.subrange(3, old(src)@.len() as int)
            && final(normalized_pos)@ == old(normalized_pos)@.push(NormalizedPos { pos: RelativeBytePos(0), diff: 3 }),
        !starts_with_bom(old(src)@) ==> final(src)@ == old(src)@ && final(normalized_pos)@ == old(normalized_pos)@,
{
    if src.len() >= 3 && src[0] == 0xef && src[1] == 0xbb && src[2] == 0xbf {
        let mut rest: Vec<u8> = Vec::new();
        let mut i: usize = 3;
        while i < src.len()
            invariant
                3 <= i <= src@.len(),
                rest@ == src@.subrange(3, i as int),
            decreases src@.len() - i,
        {
            rest.push(src[i]);
            assert(rest@ =~= src@.subrange(3, (i + 1) as int));
            i = i + 1;
        }
        *src = rest;
        normalized_pos.push(NormalizedPos { pos: RelativeBytePos(0), diff: 3 });
    }
}

/// Replaces every carriage return and line feed in `src` by the line feed
/// alone, and records each removal after those already in `normalized_pos`.
pub fn normalize_newlines(src: &mut Vec<u8>, normalized_pos: &mut Vec<NormalizedPos>)
    requires
        old(src)@.len() < u32::MAX,
        old(normalized_pos)@.len() > 0 ==> old(normalized_pos)@.last().diff + old(src)@.len() < u32::MAX,
    ensures
        ({
            let gap: int = if old(normalized_pos)@.len() > 0 { old(normalized_pos)@.last().diff as int } else { 0 };
            &&& final(src)@ == without_crlf(old(src)@, 0)
            &&& final(normalized_pos)@ == old(normalized_pos)@ + crlf_records(old(src)@, 0, 0, 0, gap)
        }),
{
    let original_gap: u32 = match normalized_pos.last() {
        Some(l) => l.diff,
        None => 0,
    };
    let ghost s = src@;
    let ghost records0 = normalized_pos@;
    let n = src.len();
    let mut out: Vec<u8> = Vec::new();
    let mut removed: u32 = 0;
    let mut i: usize = 0;
    while i < n
        invariant
            n == s.len(),
            s == src@,
            n < u32::MAX,
            original_gap + n < u32::MAX,
            i <= n,
            out@.len() + removed == i,
            out@ + without_crlf(s, i as int) == without_crlf(s, 0),
            normalized_pos@ + crlf_records(s, i as int, out@.len() as int, removed as int, original_gap as int)
                == records0 + crlf_records(s, 0, 0, 0, original_gap as int),
        decreases n - i,
    {
        if src[i] == 13 && i + 1 < n && src[i + 1] == 10 {
            removed = removed + 1;
            let pos = RelativeBytePos((out.len() + 1) as u32);
            let ghost before = normalized_pos@;
            normalized_pos.push(NormalizedPos { pos, diff: original_gap + removed });
            proof {
                assert(normalized_pos@ == before.push(NormalizedPos { pos, diff: (original_gap + removed) as u32 }));
                assert(before + crlf_records(s, i as int, out@.len() as int, removed - 1, original_gap as int)
                    =~= normalized_pos@ + crlf_records(s, i + 1, out@.len() as int, removed as int, original_gap as int));
            }
        } else {
            let ghost before = out@;
            out.push(src[i]);
            proof {
                assert(before + without_crlf(s, i as int) =~= out@ + without_crlf(s, i + 1));
            }
        }
        i = i + 1;
    }
    *src = out;
}

/// Removes a byte-order mark at the start of `src` and the carriage returns
/// that line feeds follow, and returns the records of what was removed.
pub fn normalize_src(src: &mut Vec<u8>) -> (r: Vec<NormalizedPos>)
    requires
        old(src)@.len() + 3 < u32::MAX,
    ensures
        ({
            let bom = starts_with_bom(old(src)@);
            let body = if bom { old(src)@.subrange(3, old(src)@.len() as int) } else { old(src)@ };
            let first: Seq<NormalizedPos> = if bom { seq![NormalizedPos { pos: RelativeBytePos(0), diff: 3 }] } else { Seq::empty() };
            &&& final(src)@ == without_crlf(body, 0)
            &&& r@ == first + crlf_records(body, 0, 0, 0, if bom { 3 } else { 0 })
        }),
{
    let mut normalized_pos: Vec<NormalizedPos> = Vec::new();
    remove_bom(src, &mut normalized_pos);
    normalize_newlines(src, &mut normalized_pos);
    proof {
        if starts_with_bom(old(src)@) {
            assert(seq![NormalizedPos { pos: RelativeBytePos(0), diff: 3 }] =~= Seq::<NormalizedPos>::empty().push(NormalizedPos { pos: RelativeBytePos(0), diff: 3 }));
        } else {
            assert(Seq::<NormalizedPos>::empty() + crlf_records(old(src)@, 0, 0, 0, 0) =~= crlf_records(old(src)@, 0, 0, 0, 0));
        }
    }
    normalized_pos
}

} // verus!
