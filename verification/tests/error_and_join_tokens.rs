//! Recoverable error tokens, fatal errors, and explicit line joins.

use rye::tokenize::TokenStream;
use rye::tokens::{Token, TokenType};

/// Drain a stream, requiring success, and strip the checked ENDMARKER.
fn source_to_tokens(source: &str) -> Vec<Token> {
    let source_len = source.chars().count();
    let mut ts = TokenStream::new(source);
    let mut tokens: Vec<Token> = Vec::new();
    while let Some(item) = ts.next() {
        match item {
            Ok(t) => tokens.push(t),
            Err(e) => panic!("{:?} while tokenizing source {}", e, source),
        }
    }
    let last = tokens.pop().unwrap();
    assert_eq!(last.token_type, TokenType::ENDMARKER);
    assert_eq!(last.col_start, source_len + 1);
    tokens
}

#[test]
fn tokenizing_error() {
    for source in ["'''''", "''''", "\n\"\"\"\n    rye\n"] {
        let mut ts = TokenStream::new(source);
        let mut failed = false;
        while let Some(item) = ts.next() {
            if let Err(e) = item {
                assert_eq!(e, "EOF in multi-line string");
                failed = true;
            }
        }
        assert!(failed, "{:?} should fail to tokenize", source);
    }
}

#[test]
fn errortoken() {
    for source in [
        "?",
        "!",
        "'  rye  ",
        "'  rye  \n",
        "'  rye  \n'",
        "'rye\"",
        "'rye\\'",
        "\"  rye  ",
        "\"  rye  \n",
        "\"  rye  \n\"",
        "\"rye'",
        "\"rye\\\"",
    ] {
        let tokens = source_to_tokens(source);
        assert!(tokens.len() > 0, "Too few tokens found: {:?}", tokens);
        assert_eq!(
            tokens[0].token_type,
            TokenType::ERRORTOKEN,
            "{:?} should open with an ERRORTOKEN",
            source
        );
        assert_eq!(tokens[0].exact_token_type, TokenType::ERRORTOKEN);
        for token in tokens {
            assert_ne!(token.token_type, TokenType::STRING, "Got unexpected STRING Token");
        }
    }
}

#[test]
fn explicit_line_join() {
    let cases: &[(&str, bool)] = &[
        ("\\\n\\\n\n", false),
        ("(\\\n\\\n)", true),
        ("    \\\n\\\n\\\n  \\\n      \\\n\n", false),
        ("name\\\n+\\\n_name", true),
        ("'one string'\\\n'two string'\\\n'last string'", true),
        ("\\\n\\\n# closing comment\n", false),
    ];
    for &(source, is_statement) in cases {
        let final_token = if is_statement { TokenType::NEWLINE } else { TokenType::NL };
        let mut tokens = source_to_tokens(source);
        assert!(tokens.len() > 0, "Too few tokens found: {:?}", tokens);
        let last = tokens.pop().unwrap();
        assert_eq!(
            last.token_type, final_token,
            "{:?} should end in {:?}, got {:?}",
            source, final_token, last.token_type
        );
        assert_eq!(last.exact_token_type, final_token);
        for token in tokens {
            assert_ne!(token.token_type, TokenType::NL, "Got extra NL Token");
            assert_ne!(token.token_type, TokenType::NEWLINE, "Got extra NEWLINE Token");
        }
    }
}

#[test]
fn offsets_are_monotone_across_a_stream() {
    let source = "def foo(a):\n    return 0x1F + a.b # t\n";
    let tokens = source_to_tokens(source);
    let mut previous_end = 0;
    for token in tokens {
        assert!(
            previous_end <= token.col_start,
            "token {:?} starts before {}",
            token,
            previous_end
        );
        assert!(token.col_start <= token.col_end);
        previous_end = token.col_end;
    }
}
