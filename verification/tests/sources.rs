use terebinth::terebinth_span::pos::RelativeBytePos;
use terebinth::terebinth_span::source_file::{
    char_width, normalize_src, str_width, ExternalSource, ExternalSourceKind, NormalizedPos,
    SourceFileHash, SourceFileHashAlgorithm, SourceFileLines,
};

#[test]
fn widths() {
    assert_eq!(char_width('\t'), 4);
    assert_eq!(char_width('a'), 1);
    assert_eq!(char_width('\u{0001}'), 1);
    assert_eq!(char_width('中'), 2);
    assert_eq!(str_width("a\tb"), 6);
}

#[test]
fn hashes() {
    let h = SourceFileHash::new_in_memory(SourceFileHashAlgorithm::Sha256, b"abc");
    assert_eq!(
        h.hash_bytes(),
        &[
            0xba, 0x78, 0x16, 0xbf, 0x8f, 0x01, 0xcf, 0xea, 0x41, 0x41, 0x40, 0xde, 0x5d, 0xae,
            0x22, 0x23, 0xb0, 0x03, 0x61, 0xa3, 0x96, 0x17, 0x7a, 0x9c, 0xb4, 0x10, 0xff, 0x61,
            0xf2, 0x00, 0x15, 0xad
        ]
    );
    assert!(h.matches("abc"));
    assert!(!h.matches("abd"));
    let m = SourceFileHash::new_in_memory(SourceFileHashAlgorithm::Md5, b"");
    assert_eq!(m.hash_bytes().len(), 16);
    assert_eq!(m.hash_bytes()[0], 0xd4);
    assert_eq!(m.value[16], 0);
    let s = SourceFileHash::new_in_memory(SourceFileHashAlgorithm::Sha1, b"abc");
    assert_eq!(s.hash_bytes()[0], 0xa9);
    assert_eq!(s.hash_len(), 20);
    let b = SourceFileHash::new_in_memory(SourceFileHashAlgorithm::Blake3, b"");
    assert_eq!(b.hash_bytes()[0], 0xaf);
    assert_eq!(SourceFileHashAlgorithm::from_str("sha1"), Ok(SourceFileHashAlgorithm::Sha1));
    assert_eq!(SourceFileHashAlgorithm::Blake3.to_display_string(), "blake3");
}

#[test]
fn normalizes_newlines_and_bom() {
    let mut src = "\u{feff}a\r\nb\r\nc\r".as_bytes().to_vec();
    let positions = normalize_src(&mut src);
    assert_eq!(src, b"a\nb\nc\r".to_vec());
    assert_eq!(
        positions,
        vec![
            NormalizedPos { pos: RelativeBytePos(0), diff: 3 },
            NormalizedPos { pos: RelativeBytePos(2), diff: 4 },
            NormalizedPos { pos: RelativeBytePos(4), diff: 5 },
        ]
    );
}

#[test]
fn external_sources() {
    let present = ExternalSource::Foreign {
        kind: ExternalSourceKind::Present("text".to_string()),
        metadata_index: 0,
    };
    assert_eq!(present.get_source(), Some("text"));
    assert_eq!(ExternalSource::Unneeded.get_source(), None);
    assert!(SourceFileLines::Lines(vec![]).is_lines());
}
