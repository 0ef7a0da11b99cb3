//! Punctuators, names, strings and the operator lookup table.

use rye::tokenize::{RawSource, TokenStream};
use rye::tokens::{get_op, Token, TokenType};

/// Drain a stream, requiring success, and strip the checked ENDMARKER.
fn source_to_tokens(source: &str) -> Vec<Token> {
    let source_len = source.chars().count();
    let mut ts = TokenStream::new(source);
    let mut tokens: Vec<Token> = Vec::new();
    while let Some(item) = ts.next() {
        match item {
            Ok(t) => tokens.push(t),
            Err(e) => panic!("{:?} while tokenizing source {}", e, source),
        }
    }
    let last = tokens.pop().unwrap();
    assert_eq!(last.token_type, TokenType::ENDMARKER);
    assert_eq!(last.col_start, source_len + 1);
    tokens
}

/// Expect one token covering the whole source plus a synthetic NEWLINE.
fn check_single_token_statement(source: &str) -> Token {
    let source_len = source.chars().count();
    let mut tokens = source_to_tokens(source);
    assert_eq!(tokens.len(), 2, "Expected one statement token: {:?}", tokens);

    let newline = tokens.pop().unwrap();
    assert_eq!(newline.token_type, TokenType::NEWLINE);
    assert_eq!(newline.token_contents, "\n");
    assert_eq!(newline.col_start, source_len);
    assert_eq!(newline.col_end, source_len + 1);

    let token = tokens.pop().unwrap();
    assert_eq!(token.token_contents, source);
    assert_eq!(token.col_start, 0);
    assert_eq!(token.col_end, source_len);
    token
}

fn op_cases() -> Vec<(&'static str, TokenType)> {
    vec![
        ("~", TokenType::TILDE),
        ("}", TokenType::RBRACE),
        ("|", TokenType::VBAR),
        ("{", TokenType::LBRACE),
        ("^", TokenType::CIRCUMFLEX),
        ("]", TokenType::RSQB),
        ("[", TokenType::LSQB),
        ("@", TokenType::AT),
        ("=", TokenType::EQUAL),
        ("<", TokenType::LESS),
        (";", TokenType::SEMI),
        (":", TokenType::COLON),
        ("/", TokenType::SLASH),
        (".", TokenType::DOT),
        ("-", TokenType::MINUS),
        (",", TokenType::COMMA),
        ("+", TokenType::PLUS),
        ("*", TokenType::STAR),
        (")", TokenType::RPAR),
        ("(", TokenType::LPAR),
        ("&", TokenType::AMPER),
        ("%", TokenType::PERCENT),
        (">", TokenType::GREATER),
        ("|=", TokenType::VBAREQUAL),
        ("^=", TokenType::CIRCUMFLEXEQUAL),
        ("@=", TokenType::ATEQUAL),
        (">>", TokenType::RIGHTSHIFT),
        (">=", TokenType::GREATEREQUAL),
        ("==", TokenType::EQEQUAL),
        ("<>", TokenType::NOTEQUAL),
        ("<=", TokenType::LESSEQUAL),
        ("<<", TokenType::LEFTSHIFT),
        (":=", TokenType::COLONEQUAL),
        ("/=", TokenType::SLASHEQUAL),
        ("//", TokenType::DOUBLESLASH),
        ("->", TokenType::RARROW),
        ("-=", TokenType::MINEQUAL),
        ("+=", TokenType::PLUSEQUAL),
        ("*=", TokenType::STAREQUAL),
        ("**", TokenType::DOUBLESTAR),
        ("&=", TokenType::AMPEREQUAL),
        ("%=", TokenType::PERCENTEQUAL),
        ("!=", TokenType::NOTEQUAL),
        (">>=", TokenType::RIGHTSHIFTEQUAL),
        ("<<=", TokenType::LEFTSHIFTEQUAL),
        ("//=", TokenType::DOUBLESLASHEQUAL),
        ("...", TokenType::ELLIPSIS),
        ("**=", TokenType::DOUBLESTAREQUAL),
    ]
}

#[test]
fn single_symbol_token() {
    for (source, exact) in op_cases() {
        let token = check_single_token_statement(source);
        assert_eq!(token.token_type, TokenType::OP, "{} should be an OP token", source);
        assert_eq!(token.exact_token_type, exact, "{} has the wrong exact kind", source);
    }
}

#[test]
fn get_op_matches_the_table() {
    for (source, exact) in op_cases() {
        let token = get_op(source).unwrap();
        assert_eq!(token.token_type, TokenType::OP);
        assert_eq!(token.exact_token_type, exact);
        assert_eq!(token.token_contents, source);
        assert_eq!(token.col_start, 0);
        assert_eq!(token.col_end, source.chars().count());
    }
}

#[test]
fn get_op_takes_the_longest_prefix() {
    let token = get_op("**=rest").unwrap();
    assert_eq!(token.exact_token_type, TokenType::DOUBLESTAREQUAL);
    assert_eq!(token.token_contents, "**=");
    let token = get_op("<~").unwrap();
    assert_eq!(token.exact_token_type, TokenType::LESS);
    assert_eq!(token.token_contents, "<");
    assert!(get_op("!x").is_none());
    assert!(get_op("").is_none());
}

#[test]
fn single_name_token() {
    for source in [
        "spam", "_spam", "spam_", "__spam__", "i32", "i_32", "_32", "s_p__a_m", "Spam_Eggs",
        "S", "_", "__",
    ] {
        let token = check_single_token_statement(source);
        assert_eq!(token.token_type, TokenType::NAME, "{} should be a NAME token", source);
        assert_eq!(token.exact_token_type, TokenType::NAME);
    }
}

#[test]
fn single_string_token() {
    let prefixes = [
        "", "f", "F", "r", "R", "u", "U", "b", "B", "rf", "rF", "Rf", "RF", "fr", "Fr", "fR",
        "FR", "br", "bR", "Br", "BR", "rb", "rB", "Rb", "RB",
    ];
    let bodies = ["", "rye", r"\\", r"\'", "}{", "\u{1F980}"];
    for prefix in prefixes {
        for quotes in ["\"", "'", "\"\"\"", "'''"] {
            for body in bodies {
                let source = format!("{}{}{}{}", prefix, quotes, body, quotes);
                let token = check_single_token_statement(&source);
                assert_eq!(
                    token.token_type,
                    TokenType::STRING,
                    "{} should be a STRING token",
                    source
                );
                assert_eq!(token.exact_token_type, TokenType::STRING);
            }
        }
    }
}

#[test]
fn triple_string_spans_lines() {
    for body in ["\" ", "\"\" ", "' ", "'' ", "\n", "one\ntwo\n"] {
        for quotes in ["\"\"\"", "'''"] {
            let source = format!("{}{}{}", quotes, body, quotes);
            let token = check_single_token_statement(&source);
            assert_eq!(token.token_type, TokenType::STRING, "{} failed", source);
        }
    }
}

#[test]
fn insignificant_whitespace() {
    for source in ["", " ", "\t", "\u{000C}", "\\\n", " \t \t"] {
        let tokens = source_to_tokens(source);
        assert_eq!(tokens.len(), 0, "Too many tokens found: {:?}", tokens);
    }
}

#[test]
fn insignificant_newlines() {
    for source in ["\n", "    \n", "\n\t"] {
        let mut tokens = source_to_tokens(source);
        assert_eq!(tokens.len(), 1, "Too many tokens found: {:?}", tokens);
        let token = tokens.pop().unwrap();
        assert_eq!(token.token_type, TokenType::NL, "{:?} should give NL", source);
        assert_eq!(token.exact_token_type, TokenType::NL);
    }
}

#[test]
fn single_comment() {
    for source in ["#", "##", "#r", "# ", "# rye", "# rye # eyr", "#\"rye\""] {
        let mut tokens = source_to_tokens(source);
        assert_eq!(tokens.len(), 1, "Too many tokens found: {:?}", tokens);
        let token = tokens.pop().unwrap();
        assert_eq!(token.token_type, TokenType::COMMENT);
        assert_eq!(token.exact_token_type, TokenType::COMMENT);
        assert_eq!(token.token_contents, source);
        assert_eq!(token.col_start, 0);
        assert_eq!(token.col_end, source.chars().count());
    }
}

#[test]
fn string_prefix_wins_over_name() {
    let tokens = source_to_tokens("rb'x'\n");
    assert_eq!(tokens.len(), 2);
    assert_eq!(tokens[0].token_type, TokenType::STRING);
    assert_eq!(tokens[0].token_contents, "rb'x'");
}

#[test]
fn number_wins_over_dot_operator() {
    let tokens = source_to_tokens(".5\n");
    assert_eq!(tokens[0].token_type, TokenType::NUMBER);
    assert_eq!(tokens[0].exact_token_type, TokenType::FLOAT);
    assert_eq!(tokens[0].token_contents, ".5");
}

#[test]
fn scanner_peek_commit_revert() {
    let mut sc = RawSource::new("abc");
    let w = sc.peek(2);
    assert_eq!(w, vec!['a', 'b']);
    assert_eq!(sc.committed_index(), 0);
    assert_eq!(sc.peeked_index(), 2);
    sc.revert();
    assert_eq!(sc.peeked_index(), 0);
    let _ = sc.peek(1);
    sc.commit();
    assert_eq!(sc.committed_index(), 1);
    assert!(!sc.at_end());
    let w = sc.peek(5);
    assert_eq!(w, vec!['b', 'c']);
    sc.unpeek(2);
    assert_eq!(sc.peeked_index(), 4);
}
