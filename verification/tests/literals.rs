use terebinth::terebinth_ast::util::literal::{
    escape_byte_str_symbol, escape_char_symbol, escape_string_symbol, LitError,
};
use terebinth::terebinth_span::symbol::{Interner, Symbol};

#[test]
fn char_escapes_follow_escape_default() {
    let mut interner = Interner::fresh();
    for ch in ['a', '~', ' ', '\n', '\t', '\r', '\'', '"', '\\', '\0', '\u{7f}', '\u{2764}', '\u{10ffff}'] {
        let symbol = escape_char_symbol(ch, &mut interner);
        let expected: String = ch.escape_default().collect();
        assert_eq!(symbol.as_str(&interner), expected);
    }
}

#[test]
fn char_escape_exact_values() {
    let mut interner = Interner::fresh();
    let newline = escape_char_symbol('\n', &mut interner);
    assert_eq!(newline.as_str(&interner), "\\n");
    let heart = escape_char_symbol('\u{2764}', &mut interner);
    assert_eq!(heart.as_str(&interner), "\\u{2764}");
    let delete = escape_char_symbol('\u{7f}', &mut interner);
    assert_eq!(delete.as_str(&interner), "\\u{7f}");
}

#[test]
fn string_escape_keeps_symbol_when_nothing_changes() {
    let mut interner = Interner::fresh();
    let plain = Symbol::intern("plain text", &mut interner);
    let before = interner.intern("plain text");
    assert_eq!(before, plain);
    let escaped = escape_string_symbol(plain, &mut interner);
    assert_eq!(escaped, plain);
}

#[test]
fn string_escape_interns_the_escaped_text() {
    let mut interner = Interner::fresh();
    let text = "tab\there \"quoted\" \u{e9}";
    let symbol = Symbol::intern(text, &mut interner);
    let escaped = escape_string_symbol(symbol, &mut interner);
    assert_ne!(escaped, symbol);
    assert_eq!(escaped.as_str(&interner), text.escape_default().to_string());
    assert_eq!(escaped.as_str(&interner), "tab\\there \\\"quoted\\\" \\u{e9}");
}

#[test]
fn byte_string_escape_follows_escape_ascii() {
    let mut interner = Interner::fresh();
    let bytes: &[u8] = b"a\x9d\n\\'\x00~";
    let symbol = escape_byte_str_symbol(bytes, &mut interner);
    assert_eq!(symbol.as_str(&interner), bytes.escape_ascii().to_string());
    assert_eq!(symbol.as_str(&interner), "a\\x9d\\n\\\\\\'\\x00~");
}

#[test]
fn lit_errors_carry_their_data() {
    let error = LitError::IntTooLarge(16);
    assert!(matches!(error, LitError::IntTooLarge(16)));
    let error = LitError::InvalidSuffix(Symbol(3));
    assert!(matches!(error, LitError::InvalidSuffix(Symbol(3))));
}

#[test]
fn nfc_normalize_composes_decomposed_text() {
    let mut interner = Interner::fresh();
    let symbol = terebinth::parse::lexer::nfc_normalize("cafe\u{301}", &mut interner);
    assert_eq!(symbol.as_str(&interner), "caf\u{e9}");
}

#[test]
fn nfc_normalize_keeps_normalized_text() {
    let mut interner = Interner::fresh();
    let symbol = terebinth::parse::lexer::nfc_normalize("while", &mut interner);
    assert_eq!(symbol, Symbol::intern("while", &mut interner));
    assert_eq!(symbol.as_str(&interner), "while");
    let composed = terebinth::parse::lexer::nfc_normalize("caf\u{e9}", &mut interner);
    assert_eq!(composed.as_str(&interner), "caf\u{e9}");
}
