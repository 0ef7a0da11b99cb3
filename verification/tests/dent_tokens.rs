//! INDENT and DEDENT bookkeeping across indented blocks.

use rye::tokenize::TokenStream;
use rye::tokens::{Token, TokenType};

/// Drain a stream, requiring success, and strip the checked ENDMARKER.
fn source_to_tokens(source: &str) -> Vec<Token> {
    let source_len = source.chars().count();
    let mut ts = TokenStream::new(source);
    let mut tokens: Vec<Token> = Vec::new();
    while let Some(item) = ts.next() {
        match item {
            Ok(t) => tokens.push(t),
            Err(e) => panic!("{:?} while tokenizing source {}", e, source),
        }
    }
    let last = tokens.pop().unwrap();
    assert_eq!(last.token_type, TokenType::ENDMARKER);
    assert_eq!(last.col_start, source_len + 1);
    tokens
}

fn check_dent_counts(source: &str, total_indents: usize) {
    let mut indents_found = 0;
    let mut dedents_found = 0;
    let tokens = source_to_tokens(source);
    for token in tokens.iter() {
        if token.token_type == TokenType::INDENT {
            indents_found += 1;
            assert_eq!(token.exact_token_type, TokenType::INDENT);
            assert!(
                indents_found <= total_indents,
                "{} INDENTs were found when only {} were expected",
                indents_found,
                total_indents
            );
        }
        if token.token_type == TokenType::DEDENT {
            dedents_found += 1;
            assert_eq!(token.exact_token_type, TokenType::DEDENT);
            assert!(
                dedents_found <= indents_found,
                "{} DEDENTs were found when only {} INDENTs had previously been found",
                dedents_found,
                indents_found
            );
        }
    }
    assert_eq!(
        indents_found, total_indents,
        "Not enough INDENTs were found. Was expecting {} got {}",
        total_indents, indents_found
    );
    assert_eq!(
        indents_found, dedents_found,
        "Not every INDENT had a DEDENT. Found {} more INDENTs",
        indents_found - dedents_found
    );
}

#[test]
fn dent_tokens() {
    let cases: &[(&str, usize)] = &[
        ("    rye", 1),
        ("\trye", 1),
        ("  rye", 1),
        ("  \t    \trye", 1),
        ("\n    rye\n    cheese\n", 1),
        ("\n    rye\n\n", 1),
        ("\nrye\n    cheese\n        bread\ndone\n", 2),
        ("\n  rye\n    cheese\n", 2),
        ("\n  rye\n      cheese\n  bread\n", 2),
        ("\n    rye\n        cheese\n            bread\n", 3),
        ("\n\u{000C}    rye\n    \u{000C}cheese\n    bread\n", 1),
        ("\n        rye\n\tcheese\n", 1),
    ];
    for &(source, total) in cases {
        check_dent_counts(source, total);
    }
}

#[test]
fn unmatched_dent() {
    let mut ts = TokenStream::new("\n    rye\n        cheese\n          bread\n  unmatched\n");
    let mut result: Result<Vec<Token>, String> = Ok(Vec::new());
    while let Some(item) = ts.next() {
        match item {
            Ok(t) => {
                if let Ok(v) = result.as_mut() {
                    v.push(t);
                }
            }
            Err(e) => {
                result = Err(e);
                break;
            }
        }
    }
    assert!(matches!(result, Err(_)));
}

#[test]
fn indent_token_carries_the_whitespace() {
    let tokens = source_to_tokens("\n  a\n");
    assert_eq!(tokens[1].token_type, TokenType::INDENT);
    assert_eq!(tokens[1].token_contents, "  ");
    assert_eq!(tokens[1].col_start, 1);
    assert_eq!(tokens[1].col_end, 3);
    let dedent = &tokens[4];
    assert_eq!(dedent.token_type, TokenType::DEDENT);
    assert_eq!(dedent.token_contents, "");
}
