use terebinth::ast::lexer::{numbers_fit_exec, tokenize, Lexer, TokenKind};
use terebinth::terebinth_lexer::cursor::{self as cursor, Cursor};
use terebinth::terebinth_lexer::grammar::{Base, DocStyle, LiteralKind, Token, TokenKind as RawKind};

#[test]
fn nested_block_comments() {
    let tokens = cursor::tokenize("/* /* */ */'a'");
    assert_eq!(
        tokens,
        vec![
            Token::new(
                RawKind::BlockComment {
                    doc_style: None,
                    terminated: true
                },
                11
            ),
            Token::new(
                RawKind::Literal {
                    kind: LiteralKind::Char { terminated: true },
                    suffix_start: 3
                },
                3
            ),
        ]
    );
}

#[test]
fn raw_lexer_reads_numbers_and_idents() {
    let tokens = cursor::tokenize("x1 0x1F 2.5e3u8");
    let kinds: Vec<RawKind> = tokens.iter().map(|t| t.kind).collect();
    assert_eq!(
        kinds,
        vec![
            RawKind::Ident,
            RawKind::Whitespace,
            RawKind::Literal {
                kind: LiteralKind::Int {
                    base: Base::Hexadecimal,
                    empty_int: false
                },
                suffix_start: 4
            },
            RawKind::Whitespace,
            RawKind::Literal {
                kind: LiteralKind::Float {
                    base: Base::Decimal,
                    empty_exponent: false
                },
                suffix_start: 5
            },
        ]
    );
    assert_eq!(tokens[4].len, 7);
}

#[test]
fn raw_lexer_doc_comments_and_strings() {
    let tokens = cursor::tokenize("/// doc\n\"a\\\"b\" 0b");
    assert_eq!(
        tokens[0].kind,
        RawKind::LineComment {
            doc_style: Some(DocStyle::Outer)
        }
    );
    assert_eq!(tokens[0].len, 7);
    assert_eq!(tokens[1].kind, RawKind::Whitespace);
    assert_eq!(
        tokens[2].kind,
        RawKind::Literal {
            kind: LiteralKind::Str { terminated: true },
            suffix_start: 6
        }
    );
    assert_eq!(
        tokens[4].kind,
        RawKind::Literal {
            kind: LiteralKind::Int {
                base: Base::Binary,
                empty_int: true
            },
            suffix_start: 2
        }
    );
}

#[test]
fn raw_lexer_unterminated_block_comment() {
    let tokens = cursor::tokenize("/* open");
    assert_eq!(
        tokens,
        vec![Token::new(
            RawKind::BlockComment {
                doc_style: None,
                terminated: false
            },
            7
        )]
    );
}

#[test]
fn raw_lexer_counts_bytes() {
    let tokens = cursor::tokenize("é");
    assert_eq!(tokens.len(), 1);
    assert_eq!(tokens[0].kind, RawKind::Ident);
    assert_eq!(tokens[0].len, 2);
}

#[test]
fn cursor_peeks() {
    let c = Cursor::new("abc");
    assert_eq!(c.first(), 'a');
    assert_eq!(c.second(), 'b');
    assert_eq!(c.third(), 'c');
    assert_eq!(c.as_str(), "abc");
    assert!(cursor::is_identifier("abc1"));
    assert!(!cursor::is_identifier("1abc"));
    assert!(!cursor::is_identifier(""));
}

#[test]
fn language_lexer_tokens() {
    let tokens = tokenize("let x = 42 ** 2;");
    let kinds: Vec<TokenKind> = tokens.iter().map(|t| t.kind).collect();
    assert_eq!(
        kinds,
        vec![
            TokenKind::Let,
            TokenKind::Whitespace,
            TokenKind::Identifier,
            TokenKind::Whitespace,
            TokenKind::Equals,
            TokenKind::Whitespace,
            TokenKind::Number(42),
            TokenKind::Whitespace,
            TokenKind::DoubleAsterisk,
            TokenKind::Whitespace,
            TokenKind::Number(2),
            TokenKind::Semicolon,
            TokenKind::Eof,
        ]
    );
    assert_eq!(tokens[2].span.literal, "x");
    assert_eq!(tokens[6].span.start, 8);
    assert_eq!(tokens[6].span.end, 10);
}

#[test]
fn language_lexer_ends_after_eof() {
    let mut lexer = Lexer::new("");
    let eof = lexer.next_token().unwrap();
    assert_eq!(eof.kind, TokenKind::Eof);
    assert!(lexer.next_token().is_none());
}

#[test]
fn language_lexer_operators() {
    let tokens = tokenize("-> != <= >= << >> == !");
    let kinds: Vec<TokenKind> = tokens
        .iter()
        .map(|t| t.kind)
        .filter(|k| *k != TokenKind::Whitespace)
        .collect();
    assert_eq!(
        kinds,
        vec![
            TokenKind::Arrow,
            TokenKind::BangEquals,
            TokenKind::LessThanEquals,
            TokenKind::GreaterThanEquals,
            TokenKind::DoubleLessThan,
            TokenKind::DoubleGreaterThan,
            TokenKind::EqualsEquals,
            TokenKind::Invalid,
            TokenKind::Eof,
        ]
    );
}

#[test]
fn raw_tokens_partition_the_input() {
    let input = "let é = \"ü\" /* c */ 0x1F;";
    let tokens = cursor::tokenize(input);
    assert!(tokens.iter().all(|t| t.len >= 1));
    let total: u32 = tokens.iter().map(|t| t.len).sum();
    assert_eq!(total as usize, input.len());
}

#[test]
fn pos_within_token_sums_bumped_lengths() {
    let mut c = Cursor::new("aé€😀");
    let mut sum: u32 = 0;
    while let Some(ch) = c.bump() {
        sum += ch.len_utf8() as u32;
        assert_eq!(c.pos_within_token(), sum);
    }
    assert_eq!(c.pos_within_token(), 10);
    c.reset_pos_within_token();
    assert_eq!(c.pos_within_token(), 0);
    assert_eq!(c.as_str(), "");
}

#[test]
fn ascii_character_classes() {
    assert!(cursor::is_identifier_start('a'));
    assert!(cursor::is_identifier_start('Z'));
    assert!(!cursor::is_identifier_start('_'));
    assert!(!cursor::is_identifier_start('7'));
    assert!(cursor::is_identifier_continue('_'));
    assert!(cursor::is_identifier_continue('7'));
    assert!(!cursor::is_identifier_continue('-'));
    assert!(cursor::is_whitespace(' '));
    assert!(cursor::is_whitespace('\t'));
    assert!(cursor::is_whitespace('\r'));
    assert!(!cursor::is_whitespace('a'));
    assert!(cursor::is_identifier_start('é'));
    assert!(cursor::is_whitespace('\u{2003}'));
}

#[test]
fn numbers_fit_checks_every_digit_run() {
    assert!(numbers_fit_exec("let a = 1 + 2"));
    assert!(numbers_fit_exec(""));
    assert!(numbers_fit_exec("9223372036854775807"));
    assert!(!numbers_fit_exec("9223372036854775808"));
    assert!(!numbers_fit_exec("let a = 1 + 99999999999999999999"));
    assert!(numbers_fit_exec("000000000000000000000000009"));
}
