use terebinth::terebinth_span::file::{encode_line_diffs, SourceFile};
use terebinth::terebinth_span::pos::{BytePos, CharPos, RelativeBytePos};
use terebinth::terebinth_span::source_file::{
    ExternalSource, ExternalSourceKind, MultiByteChar, NormalizedPos, SourceFileDiffs,
    SourceFileHash, SourceFileHashAlgorithm, SourceFileLines,
};

fn file_with(src: Option<&str>, start: u32, len: u32, lines: SourceFileLines) -> SourceFile {
    let text = src.unwrap_or("");
    SourceFile {
        src: src.map(|s| s.to_string()),
        src_hash: SourceFileHash::new_in_memory(SourceFileHashAlgorithm::Sha256, text.as_bytes()),
        checksum_hash: None,
        external_src: ExternalSource::Unneeded,
        start_pos: BytePos(start),
        source_len: RelativeBytePos(len),
        lines,
        multibyte_chars: vec![],
        normalized_pos: vec![],
    }
}

fn starts(v: &[u32]) -> SourceFileLines {
    SourceFileLines::Lines(v.iter().map(|&p| RelativeBytePos(p)).collect())
}

#[test]
fn line_starts_decoded_from_differences() {
    let one = SourceFileDiffs { bytes_per_diff: 1, num_diffs: 3, raw_diffs: vec![4, 2, 7] };
    let f = file_with(None, 0, 20, SourceFileLines::Diffs(one));
    assert_eq!(
        f.lines(),
        vec![RelativeBytePos(0), RelativeBytePos(4), RelativeBytePos(6), RelativeBytePos(13)]
    );
    assert_eq!(f.count_lines(), 4);

    let two = SourceFileDiffs { bytes_per_diff: 2, num_diffs: 2, raw_diffs: vec![0x00, 0x01, 0x05, 0x00] };
    let f = file_with(None, 0, 400, SourceFileLines::Diffs(two));
    assert_eq!(f.lines(), vec![RelativeBytePos(0), RelativeBytePos(256), RelativeBytePos(261)]);

    let four = SourceFileDiffs { bytes_per_diff: 4, num_diffs: 1, raw_diffs: vec![0x01, 0x00, 0x01, 0x00] };
    let f = file_with(None, 0, 70000, SourceFileLines::Diffs(four));
    assert_eq!(f.lines(), vec![RelativeBytePos(0), RelativeBytePos(65537)]);
}

#[test]
fn lines_of_positions() {
    let f = file_with(None, 100, 15, starts(&[0, 5, 10]));
    assert_eq!(f.lookup_line(RelativeBytePos(0)), Some(0));
    assert_eq!(f.lookup_line(RelativeBytePos(4)), Some(0));
    assert_eq!(f.lookup_line(RelativeBytePos(5)), Some(1));
    assert_eq!(f.lookup_line(RelativeBytePos(12)), Some(2));
    assert_eq!(f.line_begin_pos(BytePos(107)), BytePos(105));
    assert_eq!(f.line_begin_pos(BytePos(100)), BytePos(100));

    let late = file_with(None, 0, 15, starts(&[3, 8]));
    assert_eq!(late.lookup_line(RelativeBytePos(1)), None);
    assert_eq!(late.lookup_line(RelativeBytePos(3)), Some(0));
}

#[test]
fn positions_in_the_map() {
    let f = file_with(None, 100, 15, starts(&[0, 5, 10]));
    assert_eq!(f.absolute_position(RelativeBytePos(7)), BytePos(107));
    assert_eq!(f.relative_position(BytePos(107)), RelativeBytePos(7));
    assert_eq!(f.end_position(), BytePos(115));
    assert!(f.contains(BytePos(100)));
    assert!(f.contains(BytePos(115)));
    assert!(!f.contains(BytePos(116)));
    assert!(!f.contains(BytePos(99)));
    assert!(!f.is_empty());
    assert!(f.is_imported());
}

#[test]
fn bounds_of_lines() {
    let f = file_with(None, 100, 15, starts(&[0, 5, 10]));
    assert_eq!(f.line_bounds(0), BytePos(100)..BytePos(105));
    assert_eq!(f.line_bounds(1), BytePos(105)..BytePos(110));
    assert_eq!(f.line_bounds(2), BytePos(110)..BytePos(115));

    let empty = file_with(Some(""), 40, 0, starts(&[0]));
    assert!(empty.is_empty());
    assert_eq!(empty.line_bounds(0), BytePos(40)..BytePos(40));
}

#[test]
fn positions_before_normalization() {
    let mut f = file_with(None, 10, 20, starts(&[0]));
    f.normalized_pos = vec![
        NormalizedPos { pos: RelativeBytePos(5), diff: 1 },
        NormalizedPos { pos: RelativeBytePos(10), diff: 2 },
    ];
    assert_eq!(f.original_relative_byte_pos(BytePos(13)), RelativeBytePos(3));
    assert_eq!(f.original_relative_byte_pos(BytePos(15)), RelativeBytePos(6));
    assert_eq!(f.original_relative_byte_pos(BytePos(17)), RelativeBytePos(8));
    assert_eq!(f.original_relative_byte_pos(BytePos(20)), RelativeBytePos(12));


    let mut g = file_with(None, 0, 20, starts(&[0]));
    g.normalized_pos = f.normalized_pos.clone();
    assert_eq!(g.normalized_byte_pos(3), BytePos(3));
    assert_eq!(g.normalized_byte_pos(6), BytePos(5));
    assert_eq!(g.normalized_byte_pos(8), BytePos(7));
    assert_eq!(g.normalized_byte_pos(12), BytePos(10));
    assert_eq!(g.original_relative_byte_pos(BytePos(5)), RelativeBytePos(6));
}

#[test]
fn text_of_lines() {
    let f = file_with(Some("ab\ncd\n"), 0, 6, starts(&[0, 3, 6]));
    assert_eq!(f.get_line(0), Some("ab".to_string()));
    assert_eq!(f.get_line(1), Some("cd".to_string()));
    assert_eq!(f.get_line(2), Some(String::new()));
    assert_eq!(f.get_line(3), None);

    let mut imported = file_with(None, 0, 6, starts(&[0, 3]));
    assert_eq!(imported.get_line(0), None);
    imported.external_src = ExternalSource::Foreign {
        kind: ExternalSourceKind::Present("xy\nz".to_string()),
        metadata_index: 0,
    };
    assert_eq!(imported.get_line(1), Some("z".to_string()));
}

#[test]
fn columns_of_positions() {
    let src = "a\tb\n日本語x\n";
    let mut f = file_with(Some(src), 0, 15, starts(&[0, 4, 15]));
    f.multibyte_chars = vec![
        MultiByteChar { pos: RelativeBytePos(4), bytes: 3 },
        MultiByteChar { pos: RelativeBytePos(7), bytes: 3 },
        MultiByteChar { pos: RelativeBytePos(10), bytes: 3 },
    ];
    assert_eq!(f.lookup_file_pos_with_col_display(BytePos(2)), (1, CharPos(2), 5));
    assert_eq!(f.lookup_file_pos_with_col_display(BytePos(13)), (2, CharPos(3), 6));
    assert_eq!(f.lookup_file_pos_with_col_display(BytePos(4)), (2, CharPos(0), 0));

    let mut shifted = file_with(None, 50, 15, starts(&[0, 4, 15]));
    shifted.multibyte_chars = f.multibyte_chars.clone();
    assert_eq!(shifted.lookup_file_pos_with_col_display(BytePos(63)), (2, CharPos(3), 3));
}

fn line_starts(v: &[u32]) -> Vec<RelativeBytePos> {
    v.iter().map(|&p| RelativeBytePos(p)).collect()
}

#[test]
fn line_diffs_use_one_byte_for_short_lines() {
    let d = encode_line_diffs(&line_starts(&[0, 5, 10]));
    assert_eq!(d.bytes_per_diff, 1);
    assert_eq!(d.num_diffs, 2);
    assert_eq!(d.raw_diffs, vec![5, 5]);
}

#[test]
fn line_diffs_use_two_bytes_little_endian() {
    let d = encode_line_diffs(&line_starts(&[0, 3, 300, 301]));
    assert_eq!(d.bytes_per_diff, 2);
    assert_eq!(d.num_diffs, 3);
    assert_eq!(d.raw_diffs, vec![3, 0, 41, 1, 1, 0]);
}

#[test]
fn line_diffs_use_four_bytes_for_long_lines() {
    let d = encode_line_diffs(&line_starts(&[0, 70000]));
    assert_eq!(d.bytes_per_diff, 4);
    assert_eq!(d.raw_diffs, vec![112, 17, 1, 0]);
}

#[test]
fn line_diffs_of_a_single_line_are_empty() {
    let d = encode_line_diffs(&line_starts(&[0]));
    assert_eq!(d.bytes_per_diff, 1);
    assert_eq!(d.num_diffs, 0);
    assert!(d.raw_diffs.is_empty());
}

#[test]
fn line_diffs_decode_to_the_same_starts() {
    let lines = line_starts(&[0, 4, 260, 261, 70261]);
    let d = encode_line_diffs(&lines);
    let f = file_with(None, 0, 70300, SourceFileLines::Diffs(d));
    assert_eq!(f.lines(), lines);
}
