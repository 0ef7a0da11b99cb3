//! Recognizers for the numeric atoms of the grammar: integer, float and
//! imaginary literals as parsing-expression rules with ordered choice and
//! greedy repetition. Each public matcher returns the length of the prefix
//! its rule derives, and is proved against the rule written as a
//! specification function.

use vstd::prelude::*;
use vstd::string::StrSliceExecFns;
use crate::model::{
    is_bin_digit_char, is_dec_digit_char, is_hex_digit_char, is_nonzero_dec_char,
    is_oct_digit_char, DigitClass,
};
use crate::tokenize::TokenStream;

verus! {

/// `digit (["_"] digit)*`, continued greedily from `j`.
pub open spec fn digits_more(s: Seq<char>, j: int) -> int
    decreases s.len() - j when 0 <= j <= s.len()
{
    if j < s.len() && is_dec_digit_char(s[j]) {
        digits_more(s, j + 1)
    } else if j + 1 < s.len() && s[j] == '_' && is_dec_digit_char(s[j + 1]) {
        digits_more(s, j + 2)
    } else {
        j
    }
}

pub proof fn lemma_digits_more_bounds(s: Seq<char>, j: int)
    requires
        0 <= j <= s.len(),
    ensures
        j <= digits_more(s, j) <= s.len(),
    decreases s.len() - j,
{
    if j < s.len() && is_dec_digit_char(s[j]) {
        lemma_digits_more_bounds(s, j + 1);
    } else if j + 1 < s.len() && s[j] == '_' && is_dec_digit_char(s[j + 1]) {
        lemma_digits_more_bounds(s, j + 2);
    }
}

/// `digitpart`: at least one digit, then the greedy continuation.
pub open spec fn digitpart_end(s: Seq<char>, i: int) -> Option<int> {
    if i < s.len() && is_dec_digit_char(s[i]) {
        Some(digits_more(s, i + 1))
    } else {
        None
    }
}

/// One digit of the radix alphabet.
pub open spec fn radix_digit(class: DigitClass, c: char) -> bool {
    crate::model::digit_in(class, c)
}

/// `(["_"] digit)*` over a radix alphabet, continued greedily from `j`.
pub open spec fn radix_more(s: Seq<char>, j: int, class: DigitClass) -> int
    decreases s.len() - j when 0 <= j <= s.len()
{
    if j < s.len() && radix_digit(class, s[j]) {
        radix_more(s, j + 1, class)
    } else if j + 1 < s.len() && s[j] == '_' && radix_digit(class, s[j + 1]) {
        radix_more(s, j + 2, class)
    } else {
        j
    }
}

pub proof fn lemma_radix_more_bounds(s: Seq<char>, j: int, class: DigitClass)
    requires
        0 <= j <= s.len(),
    ensures
        j <= radix_more(s, j, class) <= s.len(),
    decreases s.len() - j,
{
    if j < s.len() && radix_digit(class, s[j]) {
        lemma_radix_more_bounds(s, j + 1, class);
    } else if j + 1 < s.len() && s[j] == '_' && radix_digit(class, s[j + 1]) {
        lemma_radix_more_bounds(s, j + 2, class);
    }
}

/// `(["_"] digit)+` over a radix alphabet: the tail of a radix-prefixed
/// integer.
pub open spec fn radix_tail(s: Seq<char>, j: int, class: DigitClass) -> Option<int> {
    if j < s.len() && radix_digit(class, s[j]) {
        Some(radix_more(s, j + 1, class))
    } else if j + 1 < s.len() && s[j] == '_' && radix_digit(class, s[j + 1]) {
        Some(radix_more(s, j + 2, class))
    } else {
        None
    }
}

/// `"0"+ (["_"] "0")*`, continued greedily from `j`.
pub open spec fn zeros_more(s: Seq<char>, j: int) -> int
    decreases s.len() - j when 0 <= j <= s.len()
{
    if j < s.len() && s[j] == '0' {
        zeros_more(s, j + 1)
    } else if j < s.len() && s[j] == '_' && j + 1 < s.len() && s[j + 1] == '0' {
        zeros_more(s, j + 2)
    } else {
        j
    }
}

pub proof fn lemma_zeros_more_bounds(s: Seq<char>, j: int)
    requires
        0 <= j <= s.len(),
    ensures
        j <= zeros_more(s, j) <= s.len(),
    decreases s.len() - j,
{
    if j < s.len() && s[j] == '0' {
        lemma_zeros_more_bounds(s, j + 1);
    } else if j < s.len() && s[j] == '_' && j + 1 < s.len() && s[j + 1] == '0' {
        lemma_zeros_more_bounds(s, j + 2);
    }
}

/// `decinteger`: a non-zero digit with a digit tail, or zeros only.
pub open spec fn decinteger_end(s: Seq<char>, i: int) -> Option<int> {
    if i < s.len() && is_nonzero_dec_char(s[i]) {
        Some(digits_more(s, i + 1))
    } else if i < s.len() && s[i] == '0' {
        Some(zeros_more(s, i + 1))
    } else {
        None
    }
}

/// The `int` rule: a binary, octal or hexadecimal integer, else a decimal
/// one, by ordered choice.
pub open spec fn int_rule(s: Seq<char>, i: int) -> Option<int> {
    if i + 1 < s.len() && s[i] == '0' && (s[i + 1] == 'b' || s[i + 1] == 'B') && radix_tail(
        s,
        i + 2,
        DigitClass::Bin,
    ) is Some {
        radix_tail(s, i + 2, DigitClass::Bin)
    } else if i + 1 < s.len() && s[i] == '0' && (s[i + 1] == 'o' || s[i + 1] == 'O') && radix_tail(
        s,
        i + 2,
        DigitClass::Oct,
    ) is Some {
        radix_tail(s, i + 2, DigitClass::Oct)
    } else if i + 1 < s.len() && s[i] == '0' && (s[i + 1] == 'x' || s[i + 1] == 'X') && radix_tail(
        s,
        i + 2,
        DigitClass::Hex,
    ) is Some {
        radix_tail(s, i + 2, DigitClass::Hex)
    } else {
        decinteger_end(s, i)
    }
}

/// `exponent`: `e`/`E`, an optional sign, then a digit part.
pub open spec fn exponent_end(s: Seq<char>, j: int) -> Option<int> {
    if j < s.len() && (s[j] == 'e' || s[j] == 'E') {
        if j + 1 < s.len() && (s[j + 1] == '+' || s[j + 1] == '-') {
            digitpart_end(s, j + 2)
        } else {
            digitpart_end(s, j + 1)
        }
    } else {
        None
    }
}

/// `pointfloat`: `[digitpart] "." digitpart`, else `digitpart "."`.
pub open spec fn pointfloat_end(s: Seq<char>, i: int) -> Option<int> {
    let ip = match digitpart_end(s, i) {
        Some(e) => e,
        None => i,
    };
    if ip < s.len() && s[ip] == '.' && digitpart_end(s, ip + 1) is Some {
        digitpart_end(s, ip + 1)
    } else if digitpart_end(s, i) is Some && ip < s.len() && s[ip] == '.' {
        Some(ip + 1)
    } else {
        None
    }
}

/// `exponentfloat`: a point float or digit part, then a mandatory exponent.
pub open spec fn expfloat_end(s: Seq<char>, i: int) -> Option<int> {
    match pointfloat_end(s, i) {
        Some(p) => exponent_end(s, p),
        None => match digitpart_end(s, i) {
            Some(d) => exponent_end(s, d),
            None => None,
        },
    }
}

/// The `float` rule: an exponent float, else a point float, by ordered
/// choice.
pub open spec fn float_rule(s: Seq<char>, i: int) -> Option<int> {
    match expfloat_end(s, i) {
        Some(e) => Some(e),
        None => pointfloat_end(s, i),
    }
}

/// The `imag` rule: a float or digit part, then `j`/`J`.
pub open spec fn imag_rule(s: Seq<char>, i: int) -> Option<int> {
    match float_rule(s, i) {
        Some(f) => {
            if f < s.len() && (s[f] == 'j' || s[f] == 'J') {
                Some(f + 1)
            } else {
                None
            }
        },
        None => match digitpart_end(s, i) {
            Some(d) => {
                if d < s.len() && (s[d] == 'j' || s[d] == 'J') {
                    Some(d + 1)
                } else {
                    None
                }
            },
            None => None,
        },
    }
}

/// The grammar's entry points: each matcher derives the longest prefix its
/// rule allows, from the start of the text.
pub struct PythonParser;

impl PythonParser {
    /// Match the `int` rule at the start of `source`: the length in
    /// characters of the derived prefix, or nothing.
    pub fn parse_int(source: &str) -> (r: Option<usize>)
        ensures
            match int_rule(source@, 0) {
                Some(e) => r == Some(e as usize),
                None => r is None,
            },
    {
        let s = chars_of(source);
        let n = s.len();
        if n >= 2 && s[0] == '0' && (s[1] == 'b' || s[1] == 'B') {
            if let Some(e) = radix_tail_exec(&s, 2, DigitClass::Bin) {
                return Some(e);
            }
        }
        if n >= 2 && s[0] == '0' && (s[1] == 'o' || s[1] == 'O') {
            if let Some(e) = radix_tail_exec(&s, 2, DigitClass::Oct) {
                return Some(e);
            }
        }
        if n >= 2 && s[0] == '0' && (s[1] == 'x' || s[1] == 'X') {
            if let Some(e) = radix_tail_exec(&s, 2, DigitClass::Hex) {
                return Some(e);
            }
        }
        decinteger_exec(&s, 0)
    }

    /// Match the `float` rule at the start of `source`.
    pub fn parse_float(source: &str) -> (r: Option<usize>)
        ensures
            match float_rule(source@, 0) {
                Some(e) => r == Some(e as usize),
                None => r is None,
            },
    {
        let s = chars_of(source);
        if let Some(e) = expfloat_exec(&s, 0) {
            Some(e)
        } else {
            pointfloat_exec(&s, 0)
        }
    }

    /// Match the `imag` rule at the start of `source`.
    pub fn parse_imag(source: &str) -> (r: Option<usize>)
        ensures
            match imag_rule(source@, 0) {
                Some(e) => r == Some(e as usize),
                None => r is None,
            },
    {
        let s = chars_of(source);
        let head = if let Some(f) = float_rule_exec(&s, 0) {
            Some(f)
        } else {
            digitpart_exec(&s, 0)
        };
        proof {
            if float_rule(s@, 0) is Some {
                lemma_float_rule_bounds(s@, 0);
            } else if digitpart_end(s@, 0) is Some {
                lemma_digits_more_bounds(s@, 1);
            }
        }
        match head {
            Some(f) => {
                if f < s.len() && (s[f] == 'j' || s[f] == 'J') {
                    Some(f + 1)
                } else {
                    None
                }
            },
            None => None,
        }
    }
}

pub proof fn lemma_float_rule_bounds(s: Seq<char>, i: int)
    requires
        0 <= i <= s.len(),
        float_rule(s, i) is Some,
    ensures
        i <= float_rule(s, i)->Some_0 <= s.len(),
{
    lemma_pointfloat_bounds(s, i);
    if pointfloat_end(s, i) is Some {
        let p = pointfloat_end(s, i)->Some_0;
        if exponent_end(s, p) is Some {
            lemma_exponent_bounds(s, p);
        }
    } else if digitpart_end(s, i) is Some {
        lemma_digits_more_bounds(s, i + 1);
        let d = digitpart_end(s, i)->Some_0;
        if exponent_end(s, d) is Some {
            lemma_exponent_bounds(s, d);
        }
    }
}

pub proof fn lemma_exponent_bounds(s: Seq<char>, j: int)
    requires
        0 <= j <= s.len(),
        exponent_end(s, j) is Some,
    ensures
        j <= exponent_end(s, j)->Some_0 <= s.len(),
{
    if j + 1 < s.len() && (s[j + 1] == '+' || s[j + 1] == '-') {
        lemma_digits_more_bounds(s, j + 3);
    } else {
        lemma_digits_more_bounds(s, j + 2);
    }
}

pub proof fn lemma_pointfloat_bounds(s: Seq<char>, i: int)
    requires
        0 <= i <= s.len(),
    ensures
        pointfloat_end(s, i) is Some ==> i <= pointfloat_end(s, i)->Some_0 <= s.len(),
{
    if i < s.len() && is_dec_digit_char(s[i]) {
        lemma_digits_more_bounds(s, i + 1);
    }
    let ip = match digitpart_end(s, i) {
        Some(e) => e,
        None => i,
    };
    if ip < s.len() && s[ip] == '.' && digitpart_end(s, ip + 1) is Some {
        lemma_digits_more_bounds(s, ip + 2);
    }
}

/// The characters of a text, one scalar at a time.
fn chars_of(input: &str) -> (v: Vec<char>)
    ensures
        v@ == input@,
{
    let n = input.unicode_len();
    let mut v: Vec<char> = Vec::new();
    let mut i: usize = 0;
    while i < n
        invariant
            i <= n,
            n == input@.len(),
            v@ == input@.subrange(0, i as int),
        decreases n - i,
    {
        v.push(input.get_char(i));
        i = i + 1;
    }
    proof {
        assert(v@ =~= input@);
    }
    v
}

/// Greedy `digit (["_"] digit)*` continuation.
fn digits_more_exec(s: &Vec<char>, j0: usize) -> (r: usize)
    requires
        j0 <= s@.len(),
    ensures
        r == digits_more(s@, j0 as int),
{
    proof {
        lemma_digits_more_bounds(s@, j0 as int);
    }
    let mut j: usize = j0;
    loop
        invariant
            j0 <= j <= s@.len(),
            digits_more(s@, j0 as int) == digits_more(s@, j as int),
        ensures
            j == digits_more(s@, j0 as int),
        decreases s@.len() - j,
    {
        if j < s.len() && TokenStream::is_dec_digit(&s[j]) {
            j = j + 1;
        } else if j < s.len() && s[j] == '_' && j + 1 < s.len() && TokenStream::is_dec_digit(&s[j + 1]) {
            j = j + 2;
        } else {
            break;
        }
    }
    j
}

/// `digitpart`.
fn digitpart_exec(s: &Vec<char>, i: usize) -> (r: Option<usize>)
    requires
        i <= s@.len(),
    ensures
        match digitpart_end(s@, i as int) {
            Some(e) => r == Some(e as usize),
            None => r is None,
        },
{
    if i < s.len() && TokenStream::is_dec_digit(&s[i]) {
        Some(digits_more_exec(s, i + 1))
    } else {
        None
    }
}

/// Greedy `(["_"] digit)*` continuation over a radix alphabet.
fn radix_more_exec(s: &Vec<char>, j0: usize, class: DigitClass) -> (r: usize)
    requires
        j0 <= s@.len(),
    ensures
        r == radix_more(s@, j0 as int, class),
{
    proof {
        lemma_radix_more_bounds(s@, j0 as int, class);
    }
    let mut j: usize = j0;
    loop
        invariant
            j0 <= j <= s@.len(),
            radix_more(s@, j0 as int, class) == radix_more(s@, j as int, class),
        ensures
            j == radix_more(s@, j0 as int, class),
        decreases s@.len() - j,
    {
        if j < s.len() && digit_of_class(&s[j], class) {
            j = j + 1;
        } else if j < s.len() && s[j] == '_' && j + 1 < s.len() && digit_of_class(&s[j + 1], class) {
            j = j + 2;
        } else {
            break;
        }
    }
    j
}

/// `(["_"] digit)+` over a radix alphabet.
fn radix_tail_exec(s: &Vec<char>, j: usize, class: DigitClass) -> (r: Option<usize>)
    requires
        j <= s@.len(),
    ensures
        match radix_tail(s@, j as int, class) {
            Some(e) => r == Some(e as usize),
            None => r is None,
        },
{
    if j < s.len() && digit_of_class(&s[j], class) {
        Some(radix_more_exec(s, j + 1, class))
    } else if j < s.len() && s[j] == '_' && j + 1 < s.len() && digit_of_class(&s[j + 1], class) {
        Some(radix_more_exec(s, j + 2, class))
    } else {
        None
    }
}

fn digit_of_class(c: &char, class: DigitClass) -> (r: bool)
    ensures
        r == radix_digit(class, *c),
{
    match class {
        DigitClass::Bin => TokenStream::is_bin_digit(c),
        DigitClass::Oct => TokenStream::is_oct_digit(c),
        DigitClass::Dec => TokenStream::is_dec_digit(c),
        DigitClass::Hex => TokenStream::is_hex_digit(c),
        DigitClass::Zero => *c == '0',
    }
}

/// Greedy `"0"+ (["_"] "0")*` continuation.
fn zeros_more_exec(s: &Vec<char>, j0: usize) -> (r: usize)
    requires
        j0 <= s@.len(),
    ensures
        r == zeros_more(s@, j0 as int),
{
    proof {
        lemma_zeros_more_bounds(s@, j0 as int);
    }
    let mut j: usize = j0;
    loop
        invariant
            j0 <= j <= s@.len(),
            zeros_more(s@, j0 as int) == zeros_more(s@, j as int),
        ensures
            j == zeros_more(s@, j0 as int),
        decreases s@.len() - j,
    {
        if j < s.len() && s[j] == '0' {
            j = j + 1;
        } else if j < s.len() && s[j] == '_' && j + 1 < s.len() && s[j + 1] == '0' {
            j = j + 2;
        } else {
            break;
        }
    }
    j
}

/// `decinteger`.
fn decinteger_exec(s: &Vec<char>, i: usize) -> (r: Option<usize>)
    requires
        i <= s@.len(),
    ensures
        match decinteger_end(s@, i as int) {
            Some(e) => r == Some(e as usize),
            None => r is None,
        },
{
    if i < s.len() && s[i] != '0' && TokenStream::is_dec_digit(&s[i]) {
        Some(digits_more_exec(s, i + 1))
    } else if i < s.len() && s[i] == '0' {
        Some(zeros_more_exec(s, i + 1))
    } else {
        None
    }
}

/// `exponent`.
fn exponent_exec(s: &Vec<char>, j: usize) -> (r: Option<usize>)
    requires
        j <= s@.len(),
    ensures
        match exponent_end(s@, j as int) {
            Some(e) => r == Some(e as usize),
            None => r is None,
        },
{
    if j < s.len() && (s[j] == 'e' || s[j] == 'E') {
        if j + 1 < s.len() && (s[j + 1] == '+' || s[j + 1] == '-') {
            digitpart_exec(s, j + 2)
        } else {
            digitpart_exec(s, j + 1)
        }
    } else {
        None
    }
}

/// `pointfloat`.
fn pointfloat_exec(s: &Vec<char>, i: usize) -> (r: Option<usize>)
    requires
        i <= s@.len(),
    ensures
        match pointfloat_end(s@, i as int) {
            Some(e) => r == Some(e as usize),
            None => r is None,
        },
{
    proof {
        if i < s@.len() && is_dec_digit_char(s@[i as int]) {
            lemma_digits_more_bounds(s@, i + 1);
        }
    }
    let ip = match digitpart_exec(s, i) {
        Some(e) => e,
        None => i,
    };
    if ip < s.len() && s[ip] == '.' {
        if let Some(e) = digitpart_exec(s, ip + 1) {
            Some(e)
        } else if i < s.len() && TokenStream::is_dec_digit(&s[i]) {
            Some(ip + 1)
        } else {
            None
        }
    } else {
        None
    }
}

/// `exponentfloat`.
fn expfloat_exec(s: &Vec<char>, i: usize) -> (r: Option<usize>)
    requires
        i <= s@.len(),
    ensures
        match expfloat_end(s@, i as int) {
            Some(e) => r == Some(e as usize),
            None => r is None,
        },
{
    proof {
        assert(s@.len() == s.len());
        lemma_pointfloat_bounds(s@, i as int);
        if digitpart_end(s@, i as int) is Some {
            lemma_digits_more_bounds(s@, i + 1);
        }
    }
    if let Some(p) = pointfloat_exec(s, i) {
        exponent_exec(s, p)
    } else if let Some(d) = digitpart_exec(s, i) {
        exponent_exec(s, d)
    } else {
        None
    }
}

/// The `float` rule.
fn float_rule_exec(s: &Vec<char>, i: usize) -> (r: Option<usize>)
    requires
        i <= s@.len(),
    ensures
        match float_rule(s@, i as int) {
            Some(e) => r == Some(e as usize),
            None => r is None,
        },
{
    if let Some(e) = expfloat_exec(s, i) {
        Some(e)
    } else {
        pointfloat_exec(s, i)
    }
}

} // verus!
