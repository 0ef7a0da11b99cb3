//! The mathematical model of the tokenizer.
//!
//! Every sub-lexer has a specification function here that maps the input
//! character sequence and a position to what the sub-lexer consumes and
//! emits. `consume_step` composes them into one driver step over an abstract
//! stream state, and `stream_run` iterates the step to the end, so that the
//! whole token sequence of an input is one specification-level function,
//! `tokens_of`.

use vstd::prelude::*;
use crate::tokens::{TokenType, TokenModel};
use crate::charclass::{is_id_start, is_id_continue};

verus! {

// ---------------------------------------------------------------------------
// Digit classes
// ---------------------------------------------------------------------------

pub open spec fn is_bin_digit_char(c: char) -> bool {
    c == '0' || c == '1'
}

pub open spec fn is_oct_digit_char(c: char) -> bool {
    ||| is_bin_digit_char(c)
    ||| c == '2'
    ||| c == '3'
    ||| c == '4'
    ||| c == '5'
    ||| c == '6'
    ||| c == '7'
}

pub open spec fn is_dec_digit_char(c: char) -> bool {
    is_oct_digit_char(c) || c == '8' || c == '9'
}

pub open spec fn is_hex_digit_char(c: char) -> bool {
    ||| is_dec_digit_char(c)
    ||| c == 'a'
    ||| c == 'b'
    ||| c == 'c'
    ||| c == 'd'
    ||| c == 'e'
    ||| c == 'f'
    ||| c == 'A'
    ||| c == 'B'
    ||| c == 'C'
    ||| c == 'D'
    ||| c == 'E'
    ||| c == 'F'
}

pub open spec fn is_nonzero_dec_char(c: char) -> bool {
    ||| c == '1'
    ||| c == '2'
    ||| c == '3'
    ||| c == '4'
    ||| c == '5'
    ||| c == '6'
    ||| c == '7'
    ||| c == '8'
    ||| c == '9'
}

/// The digit alphabet a number tail is scanned with. `Zero` is the run of
/// literal `0` digits used by the leading-zero rule.
#[derive(Clone, Copy, Debug, PartialEq, Eq, Structural)]
pub enum DigitClass {
    Bin,
    Oct,
    Dec,
    Hex,
    Zero,
}

pub open spec fn digit_in(class: DigitClass, c: char) -> bool {
    match class {
        DigitClass::Bin => is_bin_digit_char(c),
        DigitClass::Oct => is_oct_digit_char(c),
        DigitClass::Dec => is_dec_digit_char(c),
        DigitClass::Hex => is_hex_digit_char(c),
        DigitClass::Zero => c == '0',
    }
}

// ---------------------------------------------------------------------------
// Number sub-lexer
// ---------------------------------------------------------------------------

/// Where a digit tail that started at `i` ends. A single underscore is
/// allowed between digits; a second underscore, a trailing underscore, or a
/// non-digit ends the tail before the underscore run.
pub open spec fn int_tail_end(s: Seq<char>, i: int, last_under: bool, class: DigitClass) -> int
    decreases s.len() - i when 0 <= i <= s.len()
{
    if i >= s.len() {
        if last_under { i - 1 } else { i }
    } else if s[i] == '_' {
        if last_under { i - 1 } else { int_tail_end(s, i + 1, true, class) }
    } else if digit_in(class, s[i]) {
        int_tail_end(s, i + 1, false, class)
    } else {
        if last_under { i - 1 } else { i }
    }
}

pub proof fn lemma_int_tail_end_bounds(s: Seq<char>, i: int, last_under: bool, class: DigitClass)
    requires
        0 <= i <= s.len(),
    ensures
        (if last_under { i - 1 } else { i }) <= int_tail_end(s, i, last_under, class) <= s.len(),
    decreases s.len() - i,
{
    if i < s.len() {
        if s[i] == '_' && !last_under {
            lemma_int_tail_end_bounds(s, i + 1, true, class);
        } else if s[i] != '_' && digit_in(class, s[i]) {
            lemma_int_tail_end_bounds(s, i + 1, false, class);
        }
    }
}

/// The end of an exponent whose `e` sits just before position `j`, if the
/// mandatory digit (after an optional sign) is present.
pub open spec fn exp_end(s: Seq<char>, j: int) -> Option<int> {
    if j < s.len() && is_dec_digit_char(s[j]) {
        Some(int_tail_end(s, j + 1, false, DigitClass::Dec))
    } else if j + 2 <= s.len() && (s[j] == '+' || s[j] == '-') && is_dec_digit_char(s[j + 1]) {
        Some(int_tail_end(s, j + 2, false, DigitClass::Dec))
    } else {
        None
    }
}

pub proof fn lemma_exp_end_bounds(s: Seq<char>, j: int)
    requires
        0 <= j <= s.len(),
        exp_end(s, j) is Some,
    ensures
        j + 1 <= exp_end(s, j)->Some_0 <= s.len(),
{
    if j < s.len() && is_dec_digit_char(s[j]) {
        lemma_int_tail_end_bounds(s, j + 1, false, DigitClass::Dec);
    } else {
        lemma_int_tail_end_bounds(s, j + 2, false, DigitClass::Dec);
    }
}

/// The end of a fraction tail that starts right after a dot at `d - 1`,
/// together with an optional exponent. A failed exponent rewinds to just
/// before its `e`.
pub open spec fn frac_exp_end(s: Seq<char>, d: int) -> int {
    let f = int_tail_end(s, d, false, DigitClass::Dec);
    if f < s.len() && (s[f] == 'e' || s[f] == 'E') {
        match exp_end(s, f + 1) {
            Some(e) => e,
            None => f,
        }
    } else {
        f
    }
}

pub proof fn lemma_frac_exp_end_bounds(s: Seq<char>, d: int)
    requires
        0 <= d <= s.len(),
    ensures
        d <= frac_exp_end(s, d) <= s.len(),
{
    lemma_int_tail_end_bounds(s, d, false, DigitClass::Dec);
    let f = int_tail_end(s, d, false, DigitClass::Dec);
    if f < s.len() && (s[f] == 'e' || s[f] == 'E') && exp_end(s, f + 1) is Some {
        lemma_exp_end_bounds(s, f + 1);
    }
}

/// The numeric literal recognized at `i`, before the imaginary suffix is
/// considered: its kind and its end position. Dispatch follows the first
/// scalar; a `0` opens the radix prefixes and the leading-zero rule.
pub open spec fn num_scan(s: Seq<char>, i: int) -> Option<(TokenType, int)> {
    let len = s.len() as int;
    if i >= len {
        None
    } else if s[i] == '0' {
        if i + 3 <= len && (s[i + 1] == 'b' || s[i + 1] == 'B') && is_bin_digit_char(s[i + 2]) {
            Some((TokenType::BININT, int_tail_end(s, i + 3, false, DigitClass::Bin)))
        } else if i + 3 <= len && (s[i + 1] == 'o' || s[i + 1] == 'O') && is_oct_digit_char(s[i + 2]) {
            Some((TokenType::OCTINT, int_tail_end(s, i + 3, false, DigitClass::Oct)))
        } else if i + 3 <= len && (s[i + 1] == 'x' || s[i + 1] == 'X') && is_hex_digit_char(s[i + 2]) {
            Some((TokenType::HEXINT, int_tail_end(s, i + 3, false, DigitClass::Hex)))
        } else if i + 1 < len && (is_dec_digit_char(s[i + 1]) || s[i + 1] == '_') {
            Some(num_scan_leading_zero(s, i))
        } else if i + 1 < len && s[i + 1] == '.' {
            Some((TokenType::FLOAT, frac_exp_end(s, i + 2)))
        } else if i + 1 < len && (s[i + 1] == 'e' || s[i + 1] == 'E') {
            match exp_end(s, i + 2) {
                Some(e) => Some((TokenType::FLOAT, e)),
                None => Some((TokenType::INTEGER, i + 1)),
            }
        } else {
            Some((TokenType::INTEGER, i + 1))
        }
    } else if is_nonzero_dec_char(s[i]) {
        Some(num_scan_decimal(s, int_tail_end(s, i + 1, false, DigitClass::Dec), i + 1))
    } else if s[i] == '.' {
        if i + 1 < len && is_dec_digit_char(s[i + 1]) {
            Some((TokenType::FLOAT, frac_exp_end(s, i + 2)))
        } else {
            None
        }
    } else {
        None
    }
}

/// The leading-zero rule: the run of zeros is measured first; what follows
/// decides whether the whole span is a float or imaginary literal, or the
/// zeros alone form an integer and the rest is left for later tokens.
pub open spec fn num_scan_leading_zero(s: Seq<char>, i: int) -> (TokenType, int) {
    let len = s.len() as int;
    let la0 = if s[i + 1] == '_' {
        int_tail_end(s, i + 1, false, DigitClass::Zero)
    } else if s[i + 1] == '0' {
        int_tail_end(s, i + 2, false, DigitClass::Zero)
    } else {
        i + 2
    };
    let lz = if s[i + 1] == '_' || s[i + 1] == '0' { la0 } else { i + 1 };
    if la0 < len && s[la0] == '.' {
        (TokenType::FLOAT, frac_exp_end(s, la0 + 1))
    } else if la0 < len && (s[la0] == 'e' || s[la0] == 'E') {
        match exp_end(s, la0 + 1) {
            Some(e) => (TokenType::FLOAT, e),
            None => (TokenType::INTEGER, lz),
        }
    } else if la0 < len && (is_dec_digit_char(s[la0]) || s[la0] == '_') {
        num_scan_decimal_zeros(s, int_tail_end(s, la0 + 1, false, DigitClass::Dec), lz)
    } else {
        (TokenType::INTEGER, la0)
    }
}

/// After a decimal digit tail ending at `t` whose run began with zeros that
/// end at `lz`: a fraction or exponent keeps the whole span, an imaginary
/// suffix keeps it too, anything else truncates to the zeros.
pub open spec fn num_scan_decimal_zeros(s: Seq<char>, t: int, lz: int) -> (TokenType, int) {
    let len = s.len() as int;
    if t < len && s[t] == '.' {
        (TokenType::FLOAT, frac_exp_end(s, t + 1))
    } else if t < len && (s[t] == 'e' || s[t] == 'E') {
        match exp_end(s, t + 1) {
            Some(e) => (TokenType::FLOAT, e),
            None => (TokenType::INTEGER, lz),
        }
    } else if t < len && (s[t] == 'j' || s[t] == 'J') {
        (TokenType::IMAGINARY, t + 1)
    } else {
        (TokenType::INTEGER, lz)
    }
}

/// After a decimal digit tail ending at `t` with a non-zero first digit: an
/// optional fraction and exponent.
pub open spec fn num_scan_decimal(s: Seq<char>, t: int, lz_unused: int) -> (TokenType, int) {
    let len = s.len() as int;
    if t < len && s[t] == '.' {
        (TokenType::FLOAT, frac_exp_end(s, t + 1))
    } else if t < len && (s[t] == 'e' || s[t] == 'E') {
        match exp_end(s, t + 1) {
            Some(e) => (TokenType::FLOAT, e),
            None => (TokenType::INTEGER, t),
        }
    } else {
        (TokenType::INTEGER, t)
    }
}

/// The complete numeric literal at `i`: an integer or float immediately
/// followed by `j`/`J` becomes imaginary.
pub open spec fn num_token(s: Seq<char>, i: int) -> Option<(TokenType, int)> {
    match num_scan(s, i) {
        None => None,
        Some((k, la)) => {
            if k == TokenType::INTEGER || k == TokenType::FLOAT {
                if la < s.len() && (s[la] == 'j' || s[la] == 'J') {
                    Some((TokenType::IMAGINARY, la + 1))
                } else {
                    Some((k, la))
                }
            } else {
                Some((k, la))
            }
        },
    }
}

pub proof fn lemma_num_token_bounds(s: Seq<char>, i: int)
    requires
        0 <= i <= s.len(),
        num_token(s, i) is Some,
    ensures
        i < num_token(s, i)->Some_0.1 <= s.len(),
{
    let len = s.len() as int;
    lemma_num_scan_bounds(s, i);
    let (k, la) = num_scan(s, i)->Some_0;
    if (k == TokenType::INTEGER || k == TokenType::FLOAT) && la < len
        && (s[la] == 'j' || s[la] == 'J') {
    }
}

pub proof fn lemma_num_scan_bounds(s: Seq<char>, i: int)
    requires
        0 <= i <= s.len(),
        num_scan(s, i) is Some,
    ensures
        i < num_scan(s, i)->Some_0.1 <= s.len(),
{
    let len = s.len() as int;
    if s[i] == '0' {
        if i + 3 <= len && (s[i + 1] == 'b' || s[i + 1] == 'B') && is_bin_digit_char(s[i + 2]) {
            lemma_int_tail_end_bounds(s, i + 3, false, DigitClass::Bin);
        } else if i + 3 <= len && (s[i + 1] == 'o' || s[i + 1] == 'O')
            && is_oct_digit_char(s[i + 2]) {
            lemma_int_tail_end_bounds(s, i + 3, false, DigitClass::Oct);
        } else if i + 3 <= len && (s[i + 1] == 'x' || s[i + 1] == 'X')
            && is_hex_digit_char(s[i + 2]) {
            lemma_int_tail_end_bounds(s, i + 3, false, DigitClass::Hex);
        } else if i + 1 < len && (is_dec_digit_char(s[i + 1]) || s[i + 1] == '_') {
            lemma_num_scan_leading_zero_bounds(s, i);
        } else if i + 1 < len && s[i + 1] == '.' {
            lemma_frac_exp_end_bounds(s, i + 2);
        } else if i + 1 < len && (s[i + 1] == 'e' || s[i + 1] == 'E') {
            if exp_end(s, i + 2) is Some {
                lemma_exp_end_bounds(s, i + 2);
            }
        }
    } else if is_nonzero_dec_char(s[i]) {
        lemma_int_tail_end_bounds(s, i + 1, false, DigitClass::Dec);
        let t = int_tail_end(s, i + 1, false, DigitClass::Dec);
        if t < len && s[t] == '.' {
            lemma_frac_exp_end_bounds(s, t + 1);
        } else if t < len && (s[t] == 'e' || s[t] == 'E') && exp_end(s, t + 1) is Some {
            lemma_exp_end_bounds(s, t + 1);
        }
    } else if s[i] == '.' {
        if i + 1 < len && is_dec_digit_char(s[i + 1]) {
            lemma_frac_exp_end_bounds(s, i + 2);
        }
    }
}

pub proof fn lemma_num_scan_leading_zero_bounds(s: Seq<char>, i: int)
    requires
        0 <= i,
        i + 1 < s.len(),
        s[i] == '0',
        is_dec_digit_char(s[i + 1]) || s[i + 1] == '_',
    ensures
        i < num_scan_leading_zero(s, i).1 <= s.len(),
{
    let len = s.len() as int;
    if s[i + 1] == '_' {
        lemma_int_tail_end_bounds(s, i + 1, false, DigitClass::Zero);
    } else if s[i + 1] == '0' {
        lemma_int_tail_end_bounds(s, i + 2, false, DigitClass::Zero);
    }
    let la0 = if s[i + 1] == '_' {
        int_tail_end(s, i + 1, false, DigitClass::Zero)
    } else if s[i + 1] == '0' {
        int_tail_end(s, i + 2, false, DigitClass::Zero)
    } else {
        i + 2
    };
    let lz = if s[i + 1] == '_' || s[i + 1] == '0' { la0 } else { i + 1 };
    assert(la0 >= i + 1 && lz >= i + 1 && la0 <= len);
    if la0 < len && s[la0] == '.' {
        lemma_frac_exp_end_bounds(s, la0 + 1);
    } else if la0 < len && (s[la0] == 'e' || s[la0] == 'E') {
        if exp_end(s, la0 + 1) is Some {
            lemma_exp_end_bounds(s, la0 + 1);
        }
    } else if la0 < len && (is_dec_digit_char(s[la0]) || s[la0] == '_') {
        lemma_int_tail_end_bounds(s, la0 + 1, false, DigitClass::Dec);
        let t = int_tail_end(s, la0 + 1, false, DigitClass::Dec);
        if t < len && s[t] == '.' {
            lemma_frac_exp_end_bounds(s, t + 1);
        } else if t < len && (s[t] == 'e' || s[t] == 'E') && exp_end(s, t + 1) is Some {
            lemma_exp_end_bounds(s, t + 1);
        }
    }
}

// ---------------------------------------------------------------------------
// Name, whitespace and comment sub-lexers
// ---------------------------------------------------------------------------

/// The end of the run of name-continuation characters starting at `j`.
pub open spec fn name_cont_end(s: Seq<char>, j: int) -> int
    decreases s.len() - j when 0 <= j <= s.len()
{
    if j < s.len() && is_id_continue(s[j]) {
        name_cont_end(s, j + 1)
    } else {
        j
    }
}

pub proof fn lemma_name_cont_end_bounds(s: Seq<char>, j: int)
    requires
        0 <= j <= s.len(),
    ensures
        j <= name_cont_end(s, j) <= s.len(),
    decreases s.len() - j,
{
    if j < s.len() && is_id_continue(s[j]) {
        lemma_name_cont_end_bounds(s, j + 1);
    }
}

/// A name at `i`: one starting character, then the continuation run.
pub open spec fn name_match(s: Seq<char>, i: int) -> Option<int> {
    if i < s.len() && is_id_start(s[i]) {
        Some(name_cont_end(s, i + 1))
    } else {
        None
    }
}

/// Inter-token insignificant whitespace: space, tab, or form feed.
pub open spec fn is_inter_ws(c: char) -> bool {
    c == ' ' || c == '\t' || c == '\u{000C}'
}

/// The end of the run of insignificant whitespace starting at `j`.
pub open spec fn ws_end(s: Seq<char>, j: int) -> int
    decreases s.len() - j when 0 <= j <= s.len()
{
    if j < s.len() && is_inter_ws(s[j]) {
        ws_end(s, j + 1)
    } else {
        j
    }
}

pub proof fn lemma_ws_end_bounds(s: Seq<char>, j: int)
    requires
        0 <= j <= s.len(),
    ensures
        j <= ws_end(s, j) <= s.len(),
    decreases s.len() - j,
{
    if j < s.len() && is_inter_ws(s[j]) {
        lemma_ws_end_bounds(s, j + 1);
    }
}

/// The end of a comment body: everything up to, but not including, the next
/// newline.
pub open spec fn comment_end(s: Seq<char>, j: int) -> int
    decreases s.len() - j when 0 <= j <= s.len()
{
    if j < s.len() && s[j] != '\n' {
        comment_end(s, j + 1)
    } else {
        j
    }
}

pub proof fn lemma_comment_end_bounds(s: Seq<char>, j: int)
    requires
        0 <= j <= s.len(),
    ensures
        j <= comment_end(s, j) <= s.len(),
    decreases s.len() - j,
{
    if j < s.len() && s[j] != '\n' {
        lemma_comment_end_bounds(s, j + 1);
    }
}

/// A comment at `i`.
pub open spec fn comment_match(s: Seq<char>, i: int) -> Option<int> {
    if i < s.len() && s[i] == '#' {
        Some(comment_end(s, i + 1))
    } else {
        None
    }
}

// ---------------------------------------------------------------------------
// String sub-lexer
// ---------------------------------------------------------------------------

pub open spec fn is_quote_char(c: char) -> bool {
    c == '\'' || c == '"'
}

pub open spec fn is_str_prefix_char(c: char) -> bool {
    ||| c == 'b'
    ||| c == 'B'
    ||| c == 'f'
    ||| c == 'F'
    ||| c == 'r'
    ||| c == 'R'
    ||| c == 'u'
    ||| c == 'U'
}

pub open spec fn is_raw_prefix_char(c: char) -> bool {
    c == 'r' || c == 'R'
}

pub open spec fn is_kind_prefix_char(c: char) -> bool {
    c == 'b' || c == 'B' || c == 'f' || c == 'F'
}

/// The optional string prefix and opening quote at `i`: the quote character
/// and the position just after it.
pub open spec fn str_prefix(s: Seq<char>, i: int) -> Option<(char, int)> {
    let len = s.len() as int;
    if i < len && is_quote_char(s[i]) {
        Some((s[i], i + 1))
    } else if i + 2 <= len && is_str_prefix_char(s[i]) && is_quote_char(s[i + 1]) {
        Some((s[i + 1], i + 2))
    } else if i + 3 <= len
        && ((is_raw_prefix_char(s[i]) && is_kind_prefix_char(s[i + 1]))
            || (is_kind_prefix_char(s[i]) && is_raw_prefix_char(s[i + 1])))
        && is_quote_char(s[i + 2]) {
        Some((s[i + 2], i + 3))
    } else {
        None
    }
}

/// Scan of a single-quoted string body from `j`: the position just after the
/// closing quote, or nothing if a newline or the end of input comes first. A
/// backslash escapes the next scalar.
pub open spec fn quote_scan(s: Seq<char>, j: int, q: char, esc: bool) -> Option<int>
    decreases s.len() - j when 0 <= j <= s.len()
{
    if j >= s.len() {
        None
    } else if s[j] == q && !esc {
        Some(j + 1)
    } else if s[j] == '\n' {
        None
    } else {
        quote_scan(s, j + 1, q, s[j] == '\\' && !esc)
    }
}

pub proof fn lemma_quote_scan_bounds(s: Seq<char>, j: int, q: char, esc: bool)
    requires
        0 <= j <= s.len(),
        quote_scan(s, j, q, esc) is Some,
    ensures
        j < quote_scan(s, j, q, esc)->Some_0 <= s.len(),
    decreases s.len() - j,
{
    if j < s.len() && !(s[j] == q && !esc) && s[j] != '\n' {
        lemma_quote_scan_bounds(s, j + 1, q, s[j] == '\\' && !esc);
    }
}

/// Scan of a triple-quoted string body by a three-character window starting
/// at `j`: the position just after the closing quote run, or nothing if the
/// input ends first.
pub open spec fn triple_scan(s: Seq<char>, j: int, q: char, esc: bool) -> Option<int>
    decreases s.len() - j when 0 <= j
{
    if j + 3 > s.len() {
        None
    } else if s[j] == q && s[j + 1] == q && s[j + 2] == q && !esc {
        Some(j + 3)
    } else {
        let e2 = (s[j] == '\\' && s[j + 1] == '\\' && s[j + 2] == '\\' && !esc)
            || (s[j + 2] == '\\' && s[j + 1] != '\\') || (s[j] == '\\' && !esc);
        triple_scan(s, j + 1, q, e2)
    }
}

pub proof fn lemma_triple_scan_bounds(s: Seq<char>, j: int, q: char, esc: bool)
    requires
        0 <= j,
        triple_scan(s, j, q, esc) is Some,
    ensures
        j + 3 <= triple_scan(s, j, q, esc)->Some_0 <= s.len(),
    decreases s.len() - j,
{
    if j + 3 <= s.len() && !(s[j] == q && s[j + 1] == q && s[j + 2] == q && !esc) {
        let e2 = (s[j] == '\\' && s[j + 1] == '\\' && s[j + 2] == '\\' && !esc)
            || (s[j + 2] == '\\' && s[j + 1] != '\\') || (s[j] == '\\' && !esc);
        lemma_triple_scan_bounds(s, j + 1, q, e2);
    }
}

/// What the string sub-lexer does at `i`.
pub enum StrScan {
    /// No string starts here.
    NoTok,
    /// A token is emitted: STRING over its whole span, or a one-scalar
    /// ERRORTOKEN for an unterminated single-quoted string.
    Tok { kind: TokenType, end: int },
    /// An unterminated triple-quoted string: the stream aborts.
    Fatal,
}

pub open spec fn str_scan(s: Seq<char>, i: int) -> StrScan {
    let len = s.len() as int;
    match str_prefix(s, i) {
        None => StrScan::NoTok,
        Some((qt, p)) => {
            if p + 2 <= len && s[p] == qt && s[p + 1] == qt {
                match triple_scan(s, p + 2, qt, false) {
                    Some(e) => StrScan::Tok { kind: TokenType::STRING, end: e },
                    None => StrScan::Fatal,
                }
            } else {
                match quote_scan(s, p, qt, false) {
                    Some(e) => StrScan::Tok { kind: TokenType::STRING, end: e },
                    None => StrScan::Tok { kind: TokenType::ERRORTOKEN, end: i + 1 },
                }
            }
        },
    }
}

pub proof fn lemma_str_scan_bounds(s: Seq<char>, i: int)
    requires
        0 <= i <= s.len(),
    ensures
        match str_scan(s, i) {
            StrScan::Tok { kind, end } => i < end <= s.len(),
            _ => true,
        },
{
    let len = s.len() as int;
    match str_prefix(s, i) {
        None => {},
        Some((qt, p)) => {
            assert(i < p <= len);
            if p + 2 <= len && s[p] == qt && s[p + 1] == qt {
                if triple_scan(s, p + 2, qt, false) is Some {
                    lemma_triple_scan_bounds(s, p + 2, qt, false);
                }
            } else {
                if quote_scan(s, p, qt, false) is Some {
                    lemma_quote_scan_bounds(s, p, qt, false);
                }
            }
        },
    }
}

// ---------------------------------------------------------------------------
// Indentation
// ---------------------------------------------------------------------------

/// The indentation width of the whitespace run `[j, e)`, folded left to
/// right: a space counts one, a tab rounds up to the next multiple of eight,
/// a form feed counts nothing.
pub open spec fn width_fold(s: Seq<char>, j: int, e: int, w: int) -> int
    decreases e - j when j <= e
{
    if j >= e {
        w
    } else if s[j] == ' ' {
        width_fold(s, j + 1, e, w + 1)
    } else if s[j] == '\t' {
        width_fold(s, j + 1, e, w + (8 - w % 8))
    } else {
        width_fold(s, j + 1, e, w)
    }
}

pub proof fn lemma_width_fold_bounds(s: Seq<char>, j: int, e: int, w: int)
    requires
        j <= e,
        0 <= w,
    ensures
        w <= width_fold(s, j, e, w),
        width_fold(s, j, e, w) <= w + 8 * (e - j),
    decreases e - j,
{
    if j < e {
        if s[j] == ' ' {
            lemma_width_fold_bounds(s, j + 1, e, w + 1);
        } else if s[j] == '\t' {
            assert(0 <= w % 8 < 8);
            lemma_width_fold_bounds(s, j + 1, e, w + (8 - w % 8));
        } else {
            lemma_width_fold_bounds(s, j + 1, e, w);
        }
    }
}

/// A first scalar that makes a line blank for indentation purposes.
pub open spec fn is_blank_line_start(c: char) -> bool {
    c == '\n' || c == '\\' || c == '#'
}

/// The dedent pop scan: starting from the stack `ind` whose top exceeds `w`,
/// pop until the new top equals `w`. The result counts the pops; the flag
/// says whether a level equal to `w` was found before undershooting.
pub open spec fn dedent_scan(ind: Seq<int>, w: int) -> (int, bool)
    decreases ind.len() when ind.len() >= 2
{
    let ind2 = ind.drop_last();
    let t = ind2.last();
    if t == w {
        (1, true)
    } else if t < w || ind2.len() == 1 {
        (1, false)
    } else {
        let r = dedent_scan(ind2, w);
        (r.0 + 1, r.1)
    }
}

pub proof fn lemma_dedent_scan_bounds(ind: Seq<int>, w: int)
    requires
        ind.len() >= 2,
    ensures
        1 <= dedent_scan(ind, w).0 <= ind.len() - 1,
        dedent_scan(ind, w).1 ==> ind[ind.len() - 1 - dedent_scan(ind, w).0] == w,
    decreases ind.len(),
{
    let ind2 = ind.drop_last();
    let t = ind2.last();
    if t == w {
    } else if t < w || ind2.len() == 1 {
    } else {
        lemma_dedent_scan_bounds(ind2, w);
    }
}

/// What the indentation engine does at the start of a line.
pub enum DentOutcome {
    /// The line carries no code: the measured width is discarded.
    Blank { e: int },
    /// The width equals the current level: nothing is emitted.
    Level { e: int },
    /// The width exceeds the current level: one INDENT.
    Indent { e: int, w: int },
    /// The width is below the current level and matches an outer one: one
    /// DEDENT per popped level.
    Dedent { e: int, k: int },
    /// The width matches no outer level: the stream aborts after the pops
    /// that were already made.
    Mismatch { e: int, pops: int },
}

pub open spec fn dent_outcome(s: Seq<char>, c: int, ind: Seq<int>) -> DentOutcome {
    let len = s.len() as int;
    let e = ws_end(s, c);
    if e >= len || is_blank_line_start(s[e]) {
        DentOutcome::Blank { e }
    } else {
        let w = width_fold(s, c, e, 0);
        let top = ind.last();
        if top == w {
            DentOutcome::Level { e }
        } else if top < w {
            DentOutcome::Indent { e, w }
        } else {
            let r = dedent_scan(ind, w);
            if r.1 {
                DentOutcome::Dedent { e, k: r.0 }
            } else {
                DentOutcome::Mismatch { e, pops: r.0 }
            }
        }
    }
}

// ---------------------------------------------------------------------------
// Stream state and the driver step
// ---------------------------------------------------------------------------

/// The abstract state of a token stream between two driver steps.
pub struct StreamModel {
    pub input: Seq<char>,
    pub cursor: int,
    pub within: bool,
    pub indents: Seq<int>,
    pub ended: bool,
}

/// The indentation stack is never empty, starts at zero, and rises strictly.
pub open spec fn indents_wf(ind: Seq<int>) -> bool {
    &&& ind.len() >= 1
    &&& ind[0] == 0
    &&& forall|i: int| 0 <= i < ind.len() ==> #[trigger] ind[i] >= 0
    &&& forall|i: int| 0 <= i < ind.len() - 1 ==> #[trigger] ind[i] < ind[i + 1]
}

pub open spec fn model_wf(m: StreamModel) -> bool {
    &&& 0 <= m.cursor <= m.input.len()
    &&& indents_wf(m.indents)
}

/// A fatal tokenization error.
pub enum LexError {
    /// A dedent that matches no outer indentation level.
    DedentMismatch,
    /// The input ended inside a triple-quoted string.
    EofInString,
}

/// The diagnostic for each fatal error.
pub open spec fn err_msg(e: LexError) -> Seq<char> {
    match e {
        LexError::DedentMismatch => "dedent does not match any outer indentation level"@,
        LexError::EofInString => "EOF in multi-line string"@,
    }
}

/// The result of one driver step: the new state, the tokens enqueued, and a
/// fatal error if the step aborted the stream.
pub struct Step {
    pub m: StreamModel,
    pub toks: Seq<TokenModel>,
    pub err: Option<LexError>,
}

/// A token whose contents are exactly its span of the input.
pub open spec fn span_tok(kind: TokenType, exact: TokenType, s: Seq<char>, a: int, b: int) -> TokenModel {
    TokenModel { kind, exact, contents: s.subrange(a, b), start: a, end: b }
}

/// An empty DEDENT token at position `p`.
pub open spec fn dedent_tok(p: int) -> TokenModel {
    TokenModel {
        kind: TokenType::DEDENT,
        exact: TokenType::DEDENT,
        contents: Seq::empty(),
        start: p,
        end: p,
    }
}

/// The terminal drain: a synthetic NEWLINE if a statement is open, one
/// DEDENT per open indentation level, and the ENDMARKER.
pub open spec fn fin_toks(m: StreamModel) -> Seq<TokenModel> {
    let nl = TokenModel {
        kind: TokenType::NEWLINE,
        exact: TokenType::NEWLINE,
        contents: seq!['\n'],
        start: m.cursor,
        end: m.cursor + 1,
    };
    let em = TokenModel {
        kind: TokenType::ENDMARKER,
        exact: TokenType::ENDMARKER,
        contents: Seq::empty(),
        start: m.cursor + 1,
        end: m.cursor + 1,
    };
    let dents = Seq::new((m.indents.len() - 1) as nat, |k: int| dedent_tok(m.cursor + 1));
    (if m.within { seq![nl] } else { Seq::empty() }) + dents + seq![em]
}

pub open spec fn fin_state(m: StreamModel) -> StreamModel {
    StreamModel { indents: m.indents.take(1), ended: true, ..m }
}

/// One driver step from state `m`: drain at end of input, otherwise run the
/// indentation engine when no statement is open, then the whitespace and
/// newline handling and the sub-lexers in their priority order.
#[verifier::opaque]
pub open spec fn consume_step(m: StreamModel) -> Step
    decreases m.input.len() - m.cursor, 1int
        when 0 <= m.cursor <= m.input.len()
        via consume_step_decreases
{
    if m.ended {
        Step { m, toks: Seq::empty(), err: None }
    } else if m.cursor >= m.input.len() {
        Step { m: fin_state(m), toks: fin_toks(m), err: None }
    } else if !m.within {
        match dent_outcome(m.input, m.cursor, m.indents) {
            DentOutcome::Blank { e } => consume_rest(StreamModel { cursor: e, ..m }),
            DentOutcome::Level { e } => consume_rest(StreamModel { cursor: e, ..m }),
            DentOutcome::Indent { e, w } => Step {
                m: StreamModel {
                    cursor: e,
                    within: true,
                    indents: m.indents.push(w),
                    ..m
                },
                toks: seq![
                    span_tok(TokenType::INDENT, TokenType::INDENT, m.input, m.cursor, e)
                ],
                err: None,
            },
            DentOutcome::Dedent { e, k } => Step {
                m: StreamModel {
                    cursor: e,
                    within: true,
                    indents: m.indents.take(m.indents.len() - k),
                    ..m
                },
                toks: Seq::new(k as nat, |j: int| dedent_tok(e)),
                err: None,
            },
            DentOutcome::Mismatch { e, pops } => Step {
                m: StreamModel {
                    cursor: e,
                    indents: m.indents.take(m.indents.len() - pops),
                    ..m
                },
                toks: Seq::new((pops - 1) as nat, |j: int| dedent_tok(e)),
                err: Some(LexError::DedentMismatch),
            },
        }
    } else {
        consume_rest(m)
    }
}

/// The part of a driver step after the indentation engine: insignificant
/// whitespace, escaped and bare newlines, then the sub-lexers in the order
/// number, operator, string, name, comment, and the one-scalar ERRORTOKEN.
#[verifier::opaque]
pub open spec fn consume_rest(m: StreamModel) -> Step
    decreases m.input.len() - m.cursor, 0int
        when 0 <= m.cursor <= m.input.len()
        via consume_rest_decreases
{
    let s = m.input;
    let len = s.len() as int;
    let c = ws_end(s, m.cursor);
    let m2 = StreamModel { cursor: c, ..m };
    if c + 2 <= len && s[c] == '\\' && s[c + 1] == '\n' {
        consume_step(StreamModel { cursor: c + 2, ..m2 })
    } else if c < len && s[c] == '\n' {
        if m.within {
            Step {
                m: StreamModel { cursor: c + 1, within: false, ..m2 },
                toks: seq![span_tok(TokenType::NEWLINE, TokenType::NEWLINE, s, c, c + 1)],
                err: None,
            }
        } else {
            Step {
                m: StreamModel { cursor: c + 1, ..m2 },
                toks: seq![span_tok(TokenType::NL, TokenType::NL, s, c, c + 1)],
                err: None,
            }
        }
    } else {
        match num_token(s, c) {
            Some((k, e)) => Step {
                m: StreamModel { cursor: e, within: true, ..m2 },
                toks: seq![span_tok(TokenType::NUMBER, k, s, c, e)],
                err: None,
            },
            None => match op_match_at(s, c) {
                Some((t, l)) => Step {
                    m: StreamModel { cursor: c + l, within: true, ..m2 },
                    toks: seq![span_tok(TokenType::OP, t, s, c, c + l)],
                    err: None,
                },
                None => match str_scan(s, c) {
                    StrScan::Tok { kind, end } => Step {
                        m: StreamModel { cursor: end, within: true, ..m2 },
                        toks: seq![span_tok(kind, kind, s, c, end)],
                        err: None,
                    },
                    StrScan::Fatal => Step { m: m2, toks: Seq::empty(), err: Some(LexError::EofInString) },
                    StrScan::NoTok => match name_match(s, c) {
                        Some(e) => Step {
                            m: StreamModel { cursor: e, within: true, ..m2 },
                            toks: seq![span_tok(TokenType::NAME, TokenType::NAME, s, c, e)],
                            err: None,
                        },
                        None => match comment_match(s, c) {
                            Some(e) => Step {
                                m: StreamModel { cursor: e, ..m2 },
                                toks: seq![
                                    span_tok(TokenType::COMMENT, TokenType::COMMENT, s, c, e)
                                ],
                                err: None,
                            },
                            None => {
                                if c >= len {
                                    Step { m: fin_state(m2), toks: fin_toks(m2), err: None }
                                } else {
                                    Step {
                                        m: StreamModel { cursor: c + 1, ..m2 },
                                        toks: seq![
                                            span_tok(
                                                TokenType::ERRORTOKEN,
                                                TokenType::ERRORTOKEN,
                                                s,
                                                c,
                                                c + 1,
                                            )
                                        ],
                                        err: None,
                                    }
                                }
                            },
                        },
                    },
                },
            },
        }
    }
}

/// The operator table applied at a position of the input.
pub open spec fn op_match_at(s: Seq<char>, i: int) -> Option<(TokenType, int)> {
    crate::tokens::op_match(s, i)
}

#[via_fn]
proof fn consume_step_decreases(m: StreamModel) {
    if !m.ended && m.cursor < m.input.len() && !m.within {
        lemma_ws_end_bounds(m.input, m.cursor);
    }
}

#[via_fn]
proof fn consume_rest_decreases(m: StreamModel) {
    lemma_ws_end_bounds(m.input, m.cursor);
}

/// One driver step keeps the state well formed and makes progress: unless it
/// aborts, it moves the cursor, shortens the indent stack, or ends the
/// stream.
#[verifier::rlimit(100)]
pub proof fn lemma_rest_progress(m: StreamModel)
    requires
        model_wf(m),
        !m.ended,
    ensures
        ({
            let st = consume_rest(m);
            &&& model_wf(st.m)
            &&& st.m.input == m.input
            &&& m.cursor <= st.m.cursor
            &&& st.m.ended ==> st.m.indents.len() == 1
            &&& st.err is Some ==> !st.m.ended
            &&& st.err is None ==> {
                ||| st.m.cursor > m.cursor
                ||| (st.m.cursor == m.cursor && st.m.indents.len() < m.indents.len())
                ||| (st.m.cursor == m.cursor && st.m.indents.len() <= m.indents.len()
                    && st.m.ended && !m.ended)
            }
        }),
    decreases m.input.len() - m.cursor, 0int,
{
    reveal(consume_rest);
    reveal(consume_step);
    let s = m.input;
    let len = s.len() as int;
    lemma_ws_end_bounds(s, m.cursor);
    let c = ws_end(s, m.cursor);
    let m2 = StreamModel { cursor: c, ..m };
    if c + 2 <= len && s[c] == '\\' && s[c + 1] == '\n' {
        lemma_step_progress(StreamModel { cursor: c + 2, ..m2 });
    } else if c < len && s[c] == '\n' {
    } else {
        match num_token(s, c) {
            Some((k, e)) => {
                lemma_num_token_bounds(s, c);
            },
            None => match op_match_at(s, c) {
                Some((t, l)) => {},
                None => match str_scan(s, c) {
                    StrScan::Tok { kind, end } => {
                        lemma_str_scan_bounds(s, c);
                    },
                    StrScan::Fatal => {},
                    StrScan::NoTok => match name_match(s, c) {
                        Some(e) => {
                            lemma_name_cont_end_bounds(s, c + 1);
                        },
                        None => match comment_match(s, c) {
                            Some(e) => {
                                lemma_comment_end_bounds(s, c + 1);
                            },
                            None => {},
                        },
                    },
                },
            },
        }
    }
}

/// Same as `lemma_rest_progress`, for the whole step including the
/// indentation engine.
#[verifier::rlimit(100)]
pub proof fn lemma_step_progress(m: StreamModel)
    requires
        model_wf(m),
        !m.ended,
    ensures
        ({
            let st = consume_step(m);
            &&& model_wf(st.m)
            &&& st.m.input == m.input
            &&& m.cursor <= st.m.cursor
            &&& st.m.ended ==> st.m.indents.len() == 1
            &&& st.err is Some ==> !st.m.ended
            &&& st.err is None ==> {
                ||| st.m.cursor > m.cursor
                ||| (st.m.cursor == m.cursor && st.m.indents.len() < m.indents.len())
                ||| (st.m.cursor == m.cursor && st.m.indents.len() <= m.indents.len()
                    && st.m.ended && !m.ended)
            }
        }),
    decreases m.input.len() - m.cursor, 1int,
{
    reveal(consume_step);
    reveal(consume_rest);
    let s = m.input;
    let len = s.len() as int;
    if m.cursor >= len {
    } else if !m.within {
        lemma_ws_end_bounds(s, m.cursor);
        let e = ws_end(s, m.cursor);
        match dent_outcome(s, m.cursor, m.indents) {
            DentOutcome::Blank { e } => {
                lemma_rest_progress(StreamModel { cursor: e, ..m });
            },
            DentOutcome::Level { e } => {
                lemma_rest_progress(StreamModel { cursor: e, ..m });
            },
            DentOutcome::Indent { e, w } => {
                lemma_width_fold_bounds(s, m.cursor, e, 0);
                let ind2 = m.indents.push(w);
                assert(m.indents.last() < w);
                assert(indents_wf(ind2)) by {
                    assert(forall|i: int| 0 <= i < ind2.len() - 1
                        ==> #[trigger] ind2[i] < ind2[i + 1]) by {
                        assert(forall|i: int| 0 <= i < m.indents.len() - 1
                            ==> #[trigger] m.indents[i] < m.indents[i + 1]);
                    }
                }
                if e == m.cursor {
                    assert(width_fold(s, m.cursor, e, 0) == 0);
                    assert(false);
                }
            },
            DentOutcome::Dedent { e, k } => {
                let w = width_fold(s, m.cursor, e, 0);
                lemma_width_fold_bounds(s, m.cursor, e, 0);
                assert(m.indents.last() > w);
                assert(m.indents.len() >= 2) by {
                    if m.indents.len() == 1 {
                        assert(m.indents.last() == m.indents[0] == 0);
                    }
                }
                lemma_dedent_scan_bounds(m.indents, w);
                let ind2 = m.indents.take(m.indents.len() - k);
                assert(indents_wf(ind2));
            },
            DentOutcome::Mismatch { e, pops } => {
                let w = width_fold(s, m.cursor, e, 0);
                lemma_width_fold_bounds(s, m.cursor, e, 0);
                assert(m.indents.len() >= 2) by {
                    if m.indents.len() == 1 {
                        assert(m.indents.last() == m.indents[0] == 0);
                    }
                }
                lemma_dedent_scan_bounds(m.indents, w);
                let ind2 = m.indents.take(m.indents.len() - pops);
                assert(indents_wf(ind2));
            },
        }
    } else {
        lemma_rest_progress(m);
    }
}

// ---------------------------------------------------------------------------
// The whole stream as a function of the input
// ---------------------------------------------------------------------------

/// A completed run of the tokenizer: every token enqueued, and the fatal
/// error that cut the stream short, if one did.
pub struct Run {
    pub toks: Seq<TokenModel>,
    pub err: Option<LexError>,
}

/// Iterate the driver step to the end of the stream.
pub open spec fn stream_run(m: StreamModel) -> Run
    decreases m.input.len() - m.cursor, m.indents.len(), (if m.ended { 0int } else { 1int })
        when model_wf(m)
        via stream_run_decreases
{
    if m.ended {
        Run { toks: Seq::empty(), err: None }
    } else {
        let st = consume_step(m);
        match st.err {
            Some(e) => Run { toks: st.toks, err: Some(e) },
            None => {
                let r = stream_run(st.m);
                Run { toks: st.toks + r.toks, err: r.err }
            },
        }
    }
}

#[via_fn]
proof fn stream_run_decreases(m: StreamModel) {
    if !m.ended {
        lemma_step_progress(m);
    }
}

/// A step that does nothing: taken when tokens are still queued.
pub open spec fn no_step(m: StreamModel) -> Step {
    Step { m, toks: Seq::empty(), err: None }
}

/// The state a fresh tokenizer starts from.
pub open spec fn init_model(input: Seq<char>) -> StreamModel {
    StreamModel { input, cursor: 0, within: false, indents: seq![0], ended: false }
}

pub proof fn lemma_init_model_wf(input: Seq<char>)
    ensures
        model_wf(init_model(input)),
{
}

/// The token sequence of an input: a pure function of the characters alone.
pub open spec fn tokens_of(input: Seq<char>) -> Seq<TokenModel> {
    stream_run(init_model(input)).toks
}

/// The fatal error of an input, if tokenizing it aborts.
pub open spec fn lex_error_of(input: Seq<char>) -> Option<LexError> {
    stream_run(init_model(input)).err
}





} // verus!
