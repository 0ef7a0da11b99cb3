//! Token data model: the coarse and exact token kinds, the token record with
//! its character span, and the operator lookup tables.

use vstd::prelude::*;
use vstd::string::{StringExecFns, StrSliceExecFns};

verus! {

/// Every token kind the tokenizer can emit. Coarse kinds (NAME, NUMBER, OP,
/// ...) double as exact kinds for the tokens that need no refinement; OP is
/// refined by the punctuator kinds and NUMBER by the numeric literal kinds.
#[allow(non_camel_case_types)]
#[derive(Clone, Copy, Debug, PartialEq, Eq, Structural)]
pub enum TokenType {
    ENDMARKER,
    NAME,
    NUMBER,
    STRING,
    NEWLINE,
    INDENT,
    DEDENT,
    LPAR,
    RPAR,
    LSQB,
    RSQB,
    COLON,
    COMMA,
    SEMI,
    PLUS,
    MINUS,
    STAR,
    SLASH,
    VBAR,
    AMPER,
    LESS,
    GREATER,
    EQUAL,
    DOT,
    PERCENT,
    LBRACE,
    RBRACE,
    EQEQUAL,
    NOTEQUAL,
    LESSEQUAL,
    GREATEREQUAL,
    TILDE,
    CIRCUMFLEX,
    LEFTSHIFT,
    RIGHTSHIFT,
    DOUBLESTAR,
    PLUSEQUAL,
    MINEQUAL,
    STAREQUAL,
    SLASHEQUAL,
    PERCENTEQUAL,
    AMPEREQUAL,
    VBAREQUAL,
    CIRCUMFLEXEQUAL,
    LEFTSHIFTEQUAL,
    RIGHTSHIFTEQUAL,
    DOUBLESTAREQUAL,
    DOUBLESLASH,
    DOUBLESLASHEQUAL,
    AT,
    ATEQUAL,
    RARROW,
    ELLIPSIS,
    COLONEQUAL,
    OP,
    AWAIT,
    ASYNC,
    TYPE_IGNORE,
    TYPE_COMMENT,
    ERRORTOKEN,
    COMMENT,
    NL,
    ENCODING,
    INTEGER,
    BININT,
    OCTINT,
    HEXINT,
    FLOAT,
    IMAGINARY,
}

/// One emitted token: a coarse kind, an exact kind refining it, the literal
/// substring matched, and the half-open span of character offsets it covers.
#[derive(Clone, Debug)]
pub struct Token {
    pub token_type: TokenType,
    pub exact_token_type: TokenType,
    pub token_contents: String,
    pub col_start: usize,
    pub col_end: usize,
}

/// The mathematical shadow of a `Token`: the contents as a character sequence
/// and the span as unbounded integers.
pub struct TokenModel {
    pub kind: TokenType,
    pub exact: TokenType,
    pub contents: Seq<char>,
    pub start: int,
    pub end: int,
}

impl View for Token {
    type V = TokenModel;

    open spec fn view(&self) -> TokenModel {
        TokenModel {
            kind: self.token_type,
            exact: self.exact_token_type,
            contents: self.token_contents@,
            start: self.col_start as int,
            end: self.col_end as int,
        }
    }
}

impl PartialEq for Token {
    fn eq(&self, other: &Token) -> (r: bool) {
        self.token_type == other.token_type && self.exact_token_type == other.exact_token_type
            && self.token_contents == other.token_contents && self.col_start == other.col_start
            && self.col_end == other.col_end
    }
}

impl vstd::std_specs::cmp::PartialEqSpecImpl for Token {
    open spec fn obeys_eq_spec() -> bool {
        true
    }

    open spec fn eq_spec(&self, other: &Token) -> bool {
        &&& self.token_type == other.token_type
        &&& self.exact_token_type == other.exact_token_type
        &&& self.token_contents@ == other.token_contents@
        &&& self.col_start == other.col_start
        &&& self.col_end == other.col_end
    }
}

/// The three-character punctuators.
pub open spec fn op3(a: char, b: char, c: char) -> Option<TokenType> {
    if a == '*' && b == '*' && c == '=' {
        Some(TokenType::DOUBLESTAREQUAL)
    } else if a == '.' && b == '.' && c == '.' {
        Some(TokenType::ELLIPSIS)
    } else if a == '/' && b == '/' && c == '=' {
        Some(TokenType::DOUBLESLASHEQUAL)
    } else if a == '<' && b == '<' && c == '=' {
        Some(TokenType::LEFTSHIFTEQUAL)
    } else if a == '>' && b == '>' && c == '=' {
        Some(TokenType::RIGHTSHIFTEQUAL)
    } else {
        None
    }
}

/// The two-character punctuators; `!=` and `<>` both mean NOTEQUAL.
pub open spec fn op2(a: char, b: char) -> Option<TokenType> {
    if a == '!' && b == '=' {
        Some(TokenType::NOTEQUAL)
    } else if a == '%' && b == '=' {
        Some(TokenType::PERCENTEQUAL)
    } else if a == '&' && b == '=' {
        Some(TokenType::AMPEREQUAL)
    } else if a == '*' && b == '*' {
        Some(TokenType::DOUBLESTAR)
    } else if a == '*' && b == '=' {
        Some(TokenType::STAREQUAL)
    } else if a == '+' && b == '=' {
        Some(TokenType::PLUSEQUAL)
    } else if a == '-' && b == '=' {
        Some(TokenType::MINEQUAL)
    } else if a == '-' && b == '>' {
        Some(TokenType::RARROW)
    } else if a == '/' && b == '/' {
        Some(TokenType::DOUBLESLASH)
    } else if a == '/' && b == '=' {
        Some(TokenType::SLASHEQUAL)
    } else if a == ':' && b == '=' {
        Some(TokenType::COLONEQUAL)
    } else if a == '<' && b == '<' {
        Some(TokenType::LEFTSHIFT)
    } else if a == '<' && b == '=' {
        Some(TokenType::LESSEQUAL)
    } else if a == '<' && b == '>' {
        Some(TokenType::NOTEQUAL)
    } else if a == '=' && b == '=' {
        Some(TokenType::EQEQUAL)
    } else if a == '>' && b == '=' {
        Some(TokenType::GREATEREQUAL)
    } else if a == '>' && b == '>' {
        Some(TokenType::RIGHTSHIFT)
    } else if a == '@' && b == '=' {
        Some(TokenType::ATEQUAL)
    } else if a == '^' && b == '=' {
        Some(TokenType::CIRCUMFLEXEQUAL)
    } else if a == '|' && b == '=' {
        Some(TokenType::VBAREQUAL)
    } else {
        None
    }
}

/// The one-character punctuators.
pub open spec fn op1(a: char) -> Option<TokenType> {
    if a == '%' {
        Some(TokenType::PERCENT)
    } else if a == '&' {
        Some(TokenType::AMPER)
    } else if a == '(' {
        Some(TokenType::LPAR)
    } else if a == ')' {
        Some(TokenType::RPAR)
    } else if a == '*' {
        Some(TokenType::STAR)
    } else if a == '+' {
        Some(TokenType::PLUS)
    } else if a == ',' {
        Some(TokenType::COMMA)
    } else if a == '-' {
        Some(TokenType::MINUS)
    } else if a == '.' {
        Some(TokenType::DOT)
    } else if a == '/' {
        Some(TokenType::SLASH)
    } else if a == ':' {
        Some(TokenType::COLON)
    } else if a == ';' {
        Some(TokenType::SEMI)
    } else if a == '<' {
        Some(TokenType::LESS)
    } else if a == '=' {
        Some(TokenType::EQUAL)
    } else if a == '>' {
        Some(TokenType::GREATER)
    } else if a == '@' {
        Some(TokenType::AT)
    } else if a == '[' {
        Some(TokenType::LSQB)
    } else if a == ']' {
        Some(TokenType::RSQB)
    } else if a == '^' {
        Some(TokenType::CIRCUMFLEX)
    } else if a == '{' {
        Some(TokenType::LBRACE)
    } else if a == '|' {
        Some(TokenType::VBAR)
    } else if a == '}' {
        Some(TokenType::RBRACE)
    } else if a == '~' {
        Some(TokenType::TILDE)
    } else {
        None
    }
}

/// The longest punctuator that is a prefix of `s` at position `i`, with its
/// length: three-character operators win over two, two over one.
pub open spec fn op_match(s: Seq<char>, i: int) -> Option<(TokenType, int)> {
    if i + 3 <= s.len() && op3(s[i], s[i + 1], s[i + 2]) is Some {
        Some((op3(s[i], s[i + 1], s[i + 2]) -> 0, 3))
    } else if i + 2 <= s.len() && op2(s[i], s[i + 1]) is Some {
        Some((op2(s[i], s[i + 1]) -> 0, 2))
    } else if i + 1 <= s.len() && op1(s[i]) is Some {
        Some((op1(s[i]) -> 0, 1))
    } else {
        None
    }
}

/// Executable lookup of a three-character punctuator.
pub fn op3_lookup(a: char, b: char, c: char) -> (r: Option<TokenType>)
    ensures
        r == op3(a, b, c),
{
    match (a, b, c) {
        ('*', '*', '=') => Some(TokenType::DOUBLESTAREQUAL),
        ('.', '.', '.') => Some(TokenType::ELLIPSIS),
        ('/', '/', '=') => Some(TokenType::DOUBLESLASHEQUAL),
        ('<', '<', '=') => Some(TokenType::LEFTSHIFTEQUAL),
        ('>', '>', '=') => Some(TokenType::RIGHTSHIFTEQUAL),
        _ => None,
    }
}

/// Executable lookup of a two-character punctuator.
pub fn op2_lookup(a: char, b: char) -> (r: Option<TokenType>)
    ensures
        r == op2(a, b),
{
    match (a, b) {
        ('!', '=') => Some(TokenType::NOTEQUAL),
        ('%', '=') => Some(TokenType::PERCENTEQUAL),
        ('&', '=') => Some(TokenType::AMPEREQUAL),
        ('*', '*') => Some(TokenType::DOUBLESTAR),
        ('*', '=') => Some(TokenType::STAREQUAL),
        ('+', '=') => Some(TokenType::PLUSEQUAL),
        ('-', '=') => Some(TokenType::MINEQUAL),
        ('-', '>') => Some(TokenType::RARROW),
        ('/', '/') => Some(TokenType::DOUBLESLASH),
        ('/', '=') => Some(TokenType::SLASHEQUAL),
        (':', '=') => Some(TokenType::COLONEQUAL),
        ('<', '<') => Some(TokenType::LEFTSHIFT),
        ('<', '=') => Some(TokenType::LESSEQUAL),
        ('<', '>') => Some(TokenType::NOTEQUAL),
        ('=', '=') => Some(TokenType::EQEQUAL),
        ('>', '=') => Some(TokenType::GREATEREQUAL),
        ('>', '>') => Some(TokenType::RIGHTSHIFT),
        ('@', '=') => Some(TokenType::ATEQUAL),
        ('^', '=') => Some(TokenType::CIRCUMFLEXEQUAL),
        ('|', '=') => Some(TokenType::VBAREQUAL),
        _ => None,
    }
}

/// The longest punctuator at the start of `c1`, as a token spanning its
/// characters, or nothing if `c1` opens with no punctuator.
pub fn get_op(c1: &str) -> (r: Option<Token>)
    ensures
        match op_match(c1@, 0) {
            Some((t, l)) => {
                &&& r is Some
                &&& r->Some_0@ == (TokenModel {
                    kind: TokenType::OP,
                    exact: t,
                    contents: c1@.subrange(0, l),
                    start: 0,
                    end: l,
                })
            },
            None => r is None,
        },
{
    let n = c1.unicode_len();
    if n >= 3 {
        let a = c1.get_char(0);
        let b = c1.get_char(1);
        let c = c1.get_char(2);
        if let Some(t) = op3_lookup(a, b, c) {
            return Some(Token {
                token_type: TokenType::OP,
                exact_token_type: t,
                token_contents: String::from_str(c1.substring_char(0, 3)),
                col_start: 0,
                col_end: 3,
            });
        }
    }
    if n >= 2 {
        let a = c1.get_char(0);
        let b = c1.get_char(1);
        if let Some(t) = op2_lookup(a, b) {
            return Some(Token {
                token_type: TokenType::OP,
                exact_token_type: t,
                token_contents: String::from_str(c1.substring_char(0, 2)),
                col_start: 0,
                col_end: 2,
            });
        }
    }
    if n >= 1 {
        let a = c1.get_char(0);
        if let Some(t) = op1_lookup(a) {
            return Some(Token {
                token_type: TokenType::OP,
                exact_token_type: t,
                token_contents: String::from_str(c1.substring_char(0, 1)),
                col_start: 0,
                col_end: 1,
            });
        }
    }
    None
}

/// Executable lookup of a one-character punctuator.
pub fn op1_lookup(a: char) -> (r: Option<TokenType>)
    ensures
        r == op1(a),
{
    match a {
        '%' => Some(TokenType::PERCENT),
        '&' => Some(TokenType::AMPER),
        '(' => Some(TokenType::LPAR),
        ')' => Some(TokenType::RPAR),
        '*' => Some(TokenType::STAR),
        '+' => Some(TokenType::PLUS),
        ',' => Some(TokenType::COMMA),
        '-' => Some(TokenType::MINUS),
        '.' => Some(TokenType::DOT),
        '/' => Some(TokenType::SLASH),
        ':' => Some(TokenType::COLON),
        ';' => Some(TokenType::SEMI),
        '<' => Some(TokenType::LESS),
        '=' => Some(TokenType::EQUAL),
        '>' => Some(TokenType::GREATER),
        '@' => Some(TokenType::AT),
        '[' => Some(TokenType::LSQB),
        ']' => Some(TokenType::RSQB),
        '^' => Some(TokenType::CIRCUMFLEX),
        '{' => Some(TokenType::LBRACE),
        '|' => Some(TokenType::VBAR),
        '}' => Some(TokenType::RBRACE),
        '~' => Some(TokenType::TILDE),
        _ => None,
    }
}

} // verus!
