//! End-to-end scenarios over the token stream.

use rye::tokenize::TokenStream;
use rye::tokens::{Token, TokenType};

/// Drain a stream into a vector, requiring every pull to succeed, then
/// check and strip the mandatory ENDMARKER.
fn source_to_tokens(source: &str) -> Vec<Token> {
    let source_len = source.chars().count();
    let mut ts = TokenStream::new(source);
    let mut tokens: Vec<Token> = Vec::new();
    while let Some(item) = ts.next() {
        match item {
            Ok(tok) => tokens.push(tok),
            Err(e) => panic!("{:?} while tokenizing source {}", e, source),
        }
    }
    assert!(tokens.len() > 0, "No tokens found: {:?}", tokens);

    let last = tokens.pop().unwrap();
    assert_eq!(
        last.token_type,
        TokenType::ENDMARKER,
        "Token Stream did not end in expected ENDMARKER"
    );
    assert_eq!(
        last.exact_token_type,
        TokenType::ENDMARKER,
        "Token Stream did not end in expected ENDMARKER"
    );
    assert_eq!(last.token_contents, "", "ENDMARKER does not have expected contents");
    assert_eq!(last.col_start, source_len + 1, "ENDMARKER did not start after source");
    assert_eq!(last.col_end, source_len + 1, "ENDMARKER is not of expected size");
    tokens
}

/// Drain a stream expecting a fatal error, and hand the message back.
fn source_to_error(source: &str) -> String {
    let mut ts = TokenStream::new(source);
    while let Some(item) = ts.next() {
        match item {
            Ok(_) => {}
            Err(e) => return e,
        }
    }
    panic!("source {:?} tokenized without the expected error", source);
}

fn tok(
    token_type: TokenType,
    exact_token_type: TokenType,
    contents: &str,
    col_start: usize,
    col_end: usize,
) -> Token {
    Token {
        token_type,
        exact_token_type,
        token_contents: String::from(contents),
        col_start,
        col_end,
    }
}

#[test]
fn name_statement() {
    let tokens = source_to_tokens("spam\n");
    assert_eq!(
        &tokens[..],
        &[
            tok(TokenType::NAME, TokenType::NAME, "spam", 0, 4),
            tok(TokenType::NEWLINE, TokenType::NEWLINE, "\n", 4, 5),
        ]
    );
}

#[test]
fn leading_zero_integer_split() {
    let tokens = source_to_tokens("0123");
    assert_eq!(
        &tokens[..],
        &[
            tok(TokenType::NUMBER, TokenType::INTEGER, "0", 0, 1),
            tok(TokenType::NUMBER, TokenType::INTEGER, "123", 1, 4),
            tok(TokenType::NEWLINE, TokenType::NEWLINE, "\n", 4, 5),
        ]
    );
}

#[test]
fn binary_integer_statement() {
    let tokens = source_to_tokens("0b1010");
    assert_eq!(
        &tokens[..],
        &[
            tok(TokenType::NUMBER, TokenType::BININT, "0b1010", 0, 6),
            tok(TokenType::NEWLINE, TokenType::NEWLINE, "\n", 6, 7),
        ]
    );
}

#[test]
fn imaginary_fraction_statement() {
    let tokens = source_to_tokens(".5e+2j");
    assert_eq!(
        &tokens[..],
        &[
            tok(TokenType::NUMBER, TokenType::IMAGINARY, ".5e+2j", 0, 6),
            tok(TokenType::NEWLINE, TokenType::NEWLINE, "\n", 6, 7),
        ]
    );
}

#[test]
fn newline_between_brackets() {
    // Bracket nesting is not tracked: the newline after `(` closes the
    // logical line, so it surfaces as NEWLINE, not NL.
    let tokens = source_to_tokens("(\n)");
    assert_eq!(
        &tokens[..],
        &[
            tok(TokenType::OP, TokenType::LPAR, "(", 0, 1),
            tok(TokenType::NEWLINE, TokenType::NEWLINE, "\n", 1, 2),
            tok(TokenType::OP, TokenType::RPAR, ")", 2, 3),
            tok(TokenType::NEWLINE, TokenType::NEWLINE, "\n", 3, 4),
        ]
    );
}

#[test]
fn nested_indentation_blocks() {
    let tokens = source_to_tokens("\n    rye\n        cheese\ndone\n");
    let kinds: Vec<TokenType> = tokens.iter().map(|t| t.token_type).collect();
    assert_eq!(
        kinds,
        vec![
            TokenType::NL,
            TokenType::INDENT,
            TokenType::NAME,
            TokenType::NEWLINE,
            TokenType::INDENT,
            TokenType::NAME,
            TokenType::NEWLINE,
            TokenType::DEDENT,
            TokenType::DEDENT,
            TokenType::NAME,
            TokenType::NEWLINE,
        ]
    );
    assert_eq!(tokens[2].token_contents, "rye");
    assert_eq!(tokens[5].token_contents, "cheese");
    assert_eq!(tokens[9].token_contents, "done");
}

#[test]
fn unterminated_single_quote() {
    let tokens = source_to_tokens("'abc");
    assert_eq!(
        &tokens[..],
        &[
            tok(TokenType::ERRORTOKEN, TokenType::ERRORTOKEN, "'", 0, 1),
            tok(TokenType::NAME, TokenType::NAME, "abc", 1, 4),
            tok(TokenType::NEWLINE, TokenType::NEWLINE, "\n", 4, 5),
        ]
    );
}

#[test]
fn unterminated_triple_quote_is_fatal() {
    let message = source_to_error("\"\"\"\n abc\n");
    assert_eq!(message, "EOF in multi-line string");
}

#[test]
fn dedent_below_every_level_is_fatal() {
    let message = source_to_error("a\n    b\n  c\n");
    assert_eq!(message, "dedent does not match any outer indentation level");
}

#[test]
fn tokenizing_twice_gives_identical_streams() {
    let source = "def foo(a, b=12.0):\n    return a + b # done\n";
    let first = source_to_tokens(source);
    let second = source_to_tokens(source);
    assert_eq!(first, second);
}

#[test]
fn escaped_newline_joins_lines() {
    let tokens = source_to_tokens("a\\\nb\n");
    assert_eq!(
        &tokens[..],
        &[
            tok(TokenType::NAME, TokenType::NAME, "a", 0, 1),
            tok(TokenType::NAME, TokenType::NAME, "b", 3, 4),
            tok(TokenType::NEWLINE, TokenType::NEWLINE, "\n", 4, 5),
        ]
    );
}

#[test]
fn unicode_name_characters() {
    let tokens = source_to_tokens("caf\u{00E9}\n");
    assert_eq!(
        &tokens[..],
        &[
            tok(TokenType::NAME, TokenType::NAME, "caf\u{00E9}", 0, 4),
            tok(TokenType::NEWLINE, TokenType::NEWLINE, "\n", 4, 5),
        ]
    );
}

#[test]
fn unrecognized_scalar_is_error_token() {
    let tokens = source_to_tokens("$x");
    assert_eq!(
        &tokens[..],
        &[
            tok(TokenType::ERRORTOKEN, TokenType::ERRORTOKEN, "$", 0, 1),
            tok(TokenType::NAME, TokenType::NAME, "x", 1, 2),
            tok(TokenType::NEWLINE, TokenType::NEWLINE, "\n", 2, 3),
        ]
    );
}

#[test]
fn empty_input_gives_endmarker_only() {
    let tokens = source_to_tokens("");
    assert_eq!(tokens.len(), 0);
}

#[test]
fn blank_line_gives_nl() {
    let tokens = source_to_tokens("    \n");
    assert_eq!(&tokens[..], &[tok(TokenType::NL, TokenType::NL, "\n", 4, 5)]);
}

#[test]
fn comment_only_line() {
    let tokens = source_to_tokens("# rye # eyr");
    assert_eq!(
        &tokens[..],
        &[tok(TokenType::COMMENT, TokenType::COMMENT, "# rye # eyr", 0, 11)]
    );
}

#[test]
fn comment_keeps_statement_open() {
    let tokens = source_to_tokens("a # note\nb\n");
    let kinds: Vec<TokenType> = tokens.iter().map(|t| t.token_type).collect();
    assert_eq!(
        kinds,
        vec![
            TokenType::NAME,
            TokenType::COMMENT,
            TokenType::NEWLINE,
            TokenType::NAME,
            TokenType::NEWLINE,
        ]
    );
}

#[test]
fn tab_indentation_rounds_to_eight() {
    // one tab and eight spaces sit at the same level
    let tokens = source_to_tokens("\na:\n\tb\n        c\n");
    let kinds: Vec<TokenType> = tokens.iter().map(|t| t.token_type).collect();
    assert_eq!(
        kinds,
        vec![
            TokenType::NL,
            TokenType::NAME,
            TokenType::OP,
            TokenType::NEWLINE,
            TokenType::INDENT,
            TokenType::NAME,
            TokenType::NEWLINE,
            TokenType::NAME,
            TokenType::NEWLINE,
            TokenType::DEDENT,
        ]
    );
}

#[test]
fn stream_is_exhausted_after_endmarker() {
    let mut ts = TokenStream::new("x");
    let mut yielded = 0;
    while let Some(item) = ts.next() {
        assert!(item.is_ok());
        yielded += 1;
    }
    assert_eq!(yielded, 3);
    assert!(ts.next().is_none());
    assert!(ts.next().is_none());
}

#[test]
fn stream_is_exhausted_after_fatal_error() {
    let mut ts = TokenStream::new("'''x");
    let mut saw_error = false;
    while let Some(item) = ts.next() {
        match item {
            Ok(_) => assert!(!saw_error),
            Err(e) => {
                assert_eq!(e, "EOF in multi-line string");
                saw_error = true;
            }
        }
    }
    assert!(saw_error);
    assert!(ts.next().is_none());
}
