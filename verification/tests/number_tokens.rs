//! Numeric literal tokens of every radix family, and the leading-zero and
//! run-on behavior.

use rye::tokenize::TokenStream;
use rye::tokens::{Token, TokenType};

/// Drain a stream, requiring success, and strip the checked ENDMARKER.
fn source_to_tokens(source: &str) -> Vec<Token> {
    let source_len = source.chars().count();
    let mut ts = TokenStream::new(source);
    let mut tokens: Vec<Token> = Vec::new();
    while let Some(item) = ts.next() {
        match item {
            Ok(t) => tokens.push(t),
            Err(e) => panic!("{:?} while tokenizing source {}", e, source),
        }
    }
    let last = tokens.pop().unwrap();
    assert_eq!(last.token_type, TokenType::ENDMARKER);
    assert_eq!(last.col_start, source_len + 1);
    tokens
}

/// Expect one token covering the whole source, then a synthetic NEWLINE;
/// hand the token back.
fn check_single_token_statement(source: &str) -> Token {
    let source_len = source.chars().count();
    let mut tokens = source_to_tokens(source);
    assert_eq!(tokens.len(), 2, "Expected one statement token: {:?}", tokens);

    let newline = tokens.pop().unwrap();
    assert_eq!(newline.token_type, TokenType::NEWLINE);
    assert_eq!(newline.token_contents, "\n");
    assert_eq!(newline.col_start, source_len);
    assert_eq!(newline.col_end, source_len + 1);

    let token = tokens.pop().unwrap();
    assert_eq!(token.token_contents, source);
    assert_eq!(token.col_start, 0);
    assert_eq!(token.col_end, source_len);
    token
}

fn check_number_kind(sources: &[&str], exact: TokenType) {
    for source in sources {
        let token = check_single_token_statement(source);
        assert_eq!(
            token.token_type,
            TokenType::NUMBER,
            "{} should be a NUMBER token",
            source
        );
        assert_eq!(
            token.exact_token_type, exact,
            "{} has the wrong exact kind",
            source
        );
    }
}

#[test]
fn single_intiger_token() {
    check_number_kind(
        &["1", "0", "9", "0000", "1234", "1_2_3", "0_00_0", "1_000"],
        TokenType::INTEGER,
    );
}

#[test]
fn single_binint_token() {
    check_number_kind(
        &["0b0", "0b000", "0b1", "0B111", "0B0101", "0B101", "0b00_11_0"],
        TokenType::BININT,
    );
}

#[test]
fn single_octint_token() {
    check_number_kind(
        &["0o0", "0o000", "0O1", "0O720", "0O0_020_0", "0o777", "0o04_50_2"],
        TokenType::OCTINT,
    );
}

#[test]
fn single_hexint_token() {
    check_number_kind(
        &["0x0", "0x000", "0x1", "0xABC", "0xfFfF", "0X0_18D_0f", "0X100", "0x0b1_050_e3", "0xb101"],
        TokenType::HEXINT,
    );
}

#[test]
fn single_float_token() {
    check_number_kind(
        &[
            "0.", "00.", "0.0", ".0", ".00", "000.000", "1.", "01.", "1.2", ".2", ".10",
            "00_2.34_0", "1_234.", ".1_2_3", "0123.456", "0.e1", "00.e1", "0.0e1", "0e0",
            "010.23", "0000.0000e0000", "0123e456", "1.2_34e5_6_78", "09e050", "098.765e43",
            "1.e+234", ".1e-234", "1e+23_4", "1e-0_2",
        ],
        TokenType::FLOAT,
    );
}

#[test]
fn single_imaginary_token() {
    check_number_kind(
        &["0j", "00J", "1j", "001J", "000_123_4j", "123.45e+6j", "1.j", ".01j"],
        TokenType::IMAGINARY,
    );
}

#[test]
fn runon_number_tokens() {
    let cases: &[(&str, usize, TokenType, TokenType, TokenType)] = &[
        ("123_4_", 5, TokenType::INTEGER, TokenType::NAME, TokenType::NAME),
        ("0_", 1, TokenType::INTEGER, TokenType::NAME, TokenType::NAME),
        ("00_", 2, TokenType::INTEGER, TokenType::NAME, TokenType::NAME),
        ("0e", 1, TokenType::INTEGER, TokenType::NAME, TokenType::NAME),
        ("00e", 2, TokenType::INTEGER, TokenType::NAME, TokenType::NAME),
        ("000e", 3, TokenType::INTEGER, TokenType::NAME, TokenType::NAME),
        ("123__4", 3, TokenType::INTEGER, TokenType::NAME, TokenType::NAME),
        ("123eyr", 3, TokenType::INTEGER, TokenType::NAME, TokenType::NAME),
        ("000123", 3, TokenType::INTEGER, TokenType::NUMBER, TokenType::INTEGER),
        ("010234", 1, TokenType::INTEGER, TokenType::NUMBER, TokenType::INTEGER),
        ("0_12_3", 1, TokenType::INTEGER, TokenType::NAME, TokenType::NAME),
        ("123.e", 4, TokenType::FLOAT, TokenType::NAME, TokenType::NAME),
        ("12jeep", 3, TokenType::IMAGINARY, TokenType::NAME, TokenType::NAME),
    ];
    for &(source, split, exact_number, runon_type, runon_exact) in cases {
        let size = source.chars().count();
        let tokens = source_to_tokens(source);
        assert_eq!(
            &tokens[..],
            &[
                Token {
                    token_type: TokenType::NUMBER,
                    exact_token_type: exact_number,
                    token_contents: source[..split].to_string(),
                    col_start: 0,
                    col_end: split,
                },
                Token {
                    token_type: runon_type,
                    exact_token_type: runon_exact,
                    token_contents: source[split..].to_string(),
                    col_start: split,
                    col_end: size,
                },
                Token {
                    token_type: TokenType::NEWLINE,
                    exact_token_type: TokenType::NEWLINE,
                    token_contents: String::from("\n"),
                    col_start: size,
                    col_end: size + 1,
                },
            ],
            "run-on split of {}",
            source
        );
    }
}

#[test]
fn failed_exponent_rewinds_to_before_the_e() {
    // the fraction keeps its digits; only the dangling exponent is given back
    let tokens = source_to_tokens("00.5e+");
    assert_eq!(
        &tokens[..],
        &[
            Token {
                token_type: TokenType::NUMBER,
                exact_token_type: TokenType::FLOAT,
                token_contents: String::from("00.5"),
                col_start: 0,
                col_end: 4,
            },
            Token {
                token_type: TokenType::NAME,
                exact_token_type: TokenType::NAME,
                token_contents: String::from("e"),
                col_start: 4,
                col_end: 5,
            },
            Token {
                token_type: TokenType::OP,
                exact_token_type: TokenType::PLUS,
                token_contents: String::from("+"),
                col_start: 5,
                col_end: 6,
            },
            Token {
                token_type: TokenType::NEWLINE,
                exact_token_type: TokenType::NEWLINE,
                token_contents: String::from("\n"),
                col_start: 6,
                col_end: 7,
            },
        ]
    );
}

#[test]
fn multiple_runon_number_tokens() {
    let source = "0012eyr";
    let tokens = source_to_tokens(source);
    assert_eq!(
        &tokens[..],
        &[
            Token {
                token_type: TokenType::NUMBER,
                exact_token_type: TokenType::INTEGER,
                token_contents: String::from("00"),
                col_start: 0,
                col_end: 2,
            },
            Token {
                token_type: TokenType::NUMBER,
                exact_token_type: TokenType::INTEGER,
                token_contents: String::from("12"),
                col_start: 2,
                col_end: 4,
            },
            Token {
                token_type: TokenType::NAME,
                exact_token_type: TokenType::NAME,
                token_contents: String::from("eyr"),
                col_start: 4,
                col_end: 7,
            },
            Token {
                token_type: TokenType::NEWLINE,
                exact_token_type: TokenType::NEWLINE,
                token_contents: String::from("\n"),
                col_start: 7,
                col_end: 8,
            },
        ]
    );
}
