//! The executable tokenizer: a backtracking character scanner and the token
//! stream driver, each proved against the model in `crate::model`.

use vstd::prelude::*;
use vstd::string::StrSliceExecFns;
use std::collections::VecDeque;
use crate::charclass;
use crate::model::{
    consume_step, init_model, lex_error_of, model_wf, span_tok, stream_run, tokens_of, DigitClass,
    StreamModel,
};
use crate::tokens::{op1_lookup, op2_lookup, op3_lookup, op_match, Token, TokenModel, TokenType};

verus! {

/// The input length bound that keeps every position and width computation
/// inside `usize`.
pub open spec fn cap_ok(s: Seq<char>) -> bool {
    8 * s.len() + 8 <= usize::MAX
}

/// Relies on String::push: appends one character to the string.
#[verifier::external_body]
fn push_char(s: &mut String, c: char)
    ensures
        final(s)@ == old(s)@.push(c),
{
    s.push(c)
}

/// A character buffer with a committed cursor and a speculative lookahead.
pub struct RawSource {
    pub input: Vec<char>,
    pub cursor: usize,
    pub lookahead: usize,
}

impl RawSource {
    /// A fresh scanner over the characters of `input`, with both positions
    /// at the start.
    pub fn new(input: &str) -> (r: RawSource)
        ensures
            r.input@ == input@,
            r.cursor == 0,
            r.lookahead == 0,
    {
        let n = input.unicode_len();
        let mut v: Vec<char> = Vec::new();
        let mut i: usize = 0;
        while i < n
            invariant
                i <= n,
                n == input@.len(),
                v@ == input@.subrange(0, i as int),
            decreases n - i,
        {
            v.push(input.get_char(i));
            i = i + 1;
        }
        proof {
            assert(v@ =~= input@);
        }
        RawSource { input: v, cursor: 0, lookahead: 0 }
    }

    pub fn at_end(&self) -> (r: bool)
        ensures
            r == (self.cursor >= self.input@.len()),
    {
        self.cursor >= self.input.len()
    }

    pub fn committed_index(&self) -> (r: usize)
        ensures
            r == self.cursor,
    {
        self.cursor
    }

    pub fn peeked_index(&self) -> (r: usize)
        ensures
            r == self.lookahead,
    {
        self.lookahead
    }

    /// The next `window` characters from the lookahead position, clamped to
    /// the end of the input; the lookahead advances by the full `window`
    /// even past the end.
    pub fn peek(&mut self, window: usize) -> (r: Vec<char>)
        requires
            old(self).lookahead + window <= usize::MAX,
        ensures
            final(self).input == old(self).input,
            final(self).cursor == old(self).cursor,
            final(self).lookahead == old(self).lookahead + window,
            old(self).lookahead <= old(self).input@.len() ==> r@ == old(self).input@.subrange(
                old(self).lookahead as int,
                vstd::math::min(old(self).lookahead + window, old(self).input@.len() as int),
            ),
            old(self).lookahead > old(self).input@.len() ==> r@ == Seq::<char>::empty(),
    {
        let window_open = if self.lookahead < self.input.len() {
            self.lookahead
        } else {
            self.input.len()
        };
        let window_close = if self.lookahead + window < self.input.len() {
            self.lookahead + window
        } else {
            self.input.len()
        };
        let mut r: Vec<char> = Vec::new();
        let mut j: usize = window_open;
        while j < window_close
            invariant
                window_open <= j <= window_close <= self.input@.len(),
                r@ == self.input@.subrange(window_open as int, j as int),
            decreases window_close - j,
        {
            r.push(self.input[j]);
            j = j + 1;
        }
        proof {
            assert(r@ =~= self.input@.subrange(window_open as int, window_close as int));
        }
        self.lookahead = self.lookahead + window;
        r
    }

    /// Roll the lookahead back by `window`; it may never drop below the
    /// committed cursor.
    pub fn unpeek(&mut self, window: usize)
        requires
            window <= old(self).lookahead,
            old(self).cursor <= old(self).lookahead - window,
        ensures
            final(self).input == old(self).input,
            final(self).cursor == old(self).cursor,
            final(self).lookahead == old(self).lookahead - window,
    {
        self.lookahead = self.lookahead - window;
    }

    /// Promote the lookahead into the committed cursor, clamped to the input
    /// length.
    pub fn commit(&mut self)
        ensures
            final(self).input == old(self).input,
            final(self).lookahead == old(self).lookahead,
            final(self).cursor == vstd::math::min(
                old(self).lookahead as int,
                old(self).input@.len() as int,
            ),
    {
        self.cursor = if self.lookahead < self.input.len() {
            self.lookahead
        } else {
            self.input.len()
        };
    }

    /// Discard speculative reads.
    pub fn revert(&mut self)
        ensures
            final(self).input == old(self).input,
            final(self).cursor == old(self).cursor,
            final(self).lookahead == old(self).cursor,
    {
        self.lookahead = self.cursor;
    }

    /// The substring between the committed cursor and the lookahead.
    pub fn peeked_string(&self) -> (r: String)
        requires
            self.cursor <= self.lookahead <= self.input@.len(),
        ensures
            r@ == self.input@.subrange(self.cursor as int, self.lookahead as int),
    {
        let mut r = String::new();
        let mut j: usize = self.cursor;
        while j < self.lookahead
            invariant
                self.cursor <= j <= self.lookahead <= self.input@.len(),
                r@ == self.input@.subrange(self.cursor as int, j as int),
            decreases self.lookahead - j,
        {
            let c = self.input[j];
            push_char(&mut r, c);
            proof {
                assert(r@ =~= self.input@.subrange(self.cursor as int, j + 1));
            }
            j = j + 1;
        }
        r
    }
}

/// The pull-based token stream over one input.
pub struct TokenStream {
    pub source: RawSource,
    pub within_statement: bool,
    pub indents_seen: Vec<usize>,
    pub tokens: VecDeque<Token>,
    pub ended: bool,
    pub failed: bool,
    pub hist: Ghost<Seq<TokenModel>>,
    pub delivered: Ghost<int>,
}

impl TokenStream {
    /// The abstract state the model's driver step runs on.
    pub open spec fn model(&self) -> StreamModel {
        StreamModel {
            input: self.source.input@,
            cursor: self.source.cursor as int,
            within: self.within_statement,
            indents: self.indents_seen@.map_values(|v: usize| v as int),
            ended: self.ended,
        }
    }

    /// The models of the tokens waiting in the pending queue.
    pub open spec fn queue_models(&self) -> Seq<TokenModel> {
        self.tokens@.map_values(|t: Token| t@)
    }

    /// Well-formedness: the scanner is clean between steps, the indent stack
    /// rises from zero, the history of enqueued tokens ends with the pending
    /// queue, and history plus the remaining run equals the token sequence
    /// of the input.
    pub open spec fn wf(&self) -> bool {
        &&& model_wf(self.model())
        &&& cap_ok(self.source.input@)
        &&& self.source.cursor <= self.source.lookahead
        &&& !self.failed ==> self.source.lookahead == self.source.cursor
        &&& 0 <= self.delivered@ <= self.hist@.len()
        &&& self.hist@.subrange(self.delivered@, self.hist@.len() as int) == self.queue_models()
        &&& !self.failed ==> self.hist@ + stream_run(self.model()).toks == tokens_of(
            self.source.input@,
        )
        &&& !self.failed ==> stream_run(self.model()).err == lex_error_of(self.source.input@)
        &&& self.failed ==> self.hist@ == tokens_of(self.source.input@)
        &&& self.failed ==> lex_error_of(self.source.input@) is Some
        &&& self.ended ==> self.indents_seen@.len() == 1
    }

    /// A fresh stream over `input`, with nothing consumed and nothing
    /// emitted. The length bound keeps width and offset arithmetic inside
    /// the machine integers.
    pub fn new(input: &str) -> (r: TokenStream)
        requires
            8 * input@.len() + 8 <= usize::MAX,
        ensures
            r.wf(),
            r.model() == init_model(input@),
            r.hist@ == Seq::<TokenModel>::empty(),
            r.delivered@ == 0,
            !r.failed,
    {
        let r = TokenStream {
            source: RawSource::new(input),
            within_statement: false,
            indents_seen: vec![0],
            tokens: VecDeque::new(),
            ended: false,
            failed: false,
            hist: Ghost(Seq::empty()),
            delivered: Ghost(0),
        };
        proof {
            assert(r.indents_seen@.map_values(|v: usize| v as int) =~= seq![0int]);
            assert(r.model() == init_model(input@));
            assert(r.hist@.subrange(0, 0) =~= r.queue_models());
            assert(r.hist@ + stream_run(r.model()).toks =~= tokens_of(input@));
        }
        r
    }

    /// Append one token to the pending queue (and to the history).
    fn add_token(
        &mut self,
        token_type: TokenType,
        exact_token_type: TokenType,
        token_contents: String,
        col_start: usize,
        col_end: usize,
    )
        ensures
            final(self).source == old(self).source,
            final(self).within_statement == old(self).within_statement,
            final(self).indents_seen == old(self).indents_seen,
            final(self).ended == old(self).ended,
            final(self).failed == old(self).failed,
            final(self).delivered == old(self).delivered,
            ({
                let tm = (TokenModel {
                    kind: token_type,
                    exact: exact_token_type,
                    contents: token_contents@,
                    start: col_start as int,
                    end: col_end as int,
                });
                &&& final(self).hist@ == old(self).hist@.push(tm)
                &&& final(self).queue_models() == old(self).queue_models().push(tm)
            }),
    {
        let ghost tm = TokenModel {
            kind: token_type,
            exact: exact_token_type,
            contents: token_contents@,
            start: col_start as int,
            end: col_end as int,
        };
        let tok = Token {
            token_type,
            exact_token_type,
            token_contents,
            col_start,
            col_end,
        };
        proof {
            assert(tok@ == tm);
        }
        self.tokens.push_back(tok);
        proof {
            self.hist@ = self.hist@.push(tm);
            assert(self.queue_models() =~= old(self).queue_models().push(tm));
        }
    }

    /// Emit the span between the committed cursor and the lookahead as one
    /// token, and commit.
    fn commit_to_token(&mut self, token_type: TokenType, exact_token_type: TokenType)
        requires
            old(self).source.cursor <= old(self).source.lookahead <= old(
                self,
            ).source.input@.len(),
        ensures
            final(self).source.input == old(self).source.input,
            final(self).source.cursor == old(self).source.lookahead,
            final(self).source.lookahead == old(self).source.lookahead,
            final(self).within_statement == old(self).within_statement,
            final(self).indents_seen == old(self).indents_seen,
            final(self).ended == old(self).ended,
            final(self).failed == old(self).failed,
            final(self).delivered == old(self).delivered,
            ({
                let tm = span_tok(
                    token_type,
                    exact_token_type,
                    old(self).source.input@,
                    old(self).source.cursor as int,
                    old(self).source.lookahead as int,
                );
                &&& final(self).hist@ == old(self).hist@.push(tm)
                &&& final(self).queue_models() == old(self).queue_models().push(tm)
            }),
    {
        let contents = self.source.peeked_string();
        let a = self.source.committed_index();
        let b = self.source.peeked_index();
        self.add_token(token_type, exact_token_type, contents, a, b);
        self.source.commit();
    }

    /// Attempt to consume the longest punctuator at the cursor.
    fn consume_next_op_token(&mut self) -> (r: bool)
        requires
            scan_ready(old(self)),
        ensures
            untouched(final(self), old(self)),
            final(self).source.lookahead == final(self).source.cursor,
            ({
                let s = old(self).source.input@;
                let c = old(self).source.cursor as int;
                match op_match(s, c) {
                    Some((t, l)) => {
                        &&& r
                        &&& final(self).source.cursor == c + l
                        &&& final(self).hist@ == old(self).hist@.push(
                            span_tok(TokenType::OP, t, s, c, c + l),
                        )
                        &&& final(self).queue_models() == old(self).queue_models().push(
                            span_tok(TokenType::OP, t, s, c, c + l),
                        )
                    },
                    None => {
                        &&& !r
                        &&& final(self).source.cursor == old(self).source.cursor
                        &&& final(self).hist@ == old(self).hist@
                        &&& final(self).tokens@ == old(self).tokens@
                    },
                }
            }),
    {
        let ghost s = self.source.input@;
        let ghost c = self.source.cursor as int;
        let w = self.source.peek(3);
        if w.len() == 3 {
            if let Some(t) = op3_lookup(w[0], w[1], w[2]) {
                self.commit_to_token(TokenType::OP, t);
                return true;
            }
        }
        if w.len() >= 2 {
            if let Some(t) = op2_lookup(w[0], w[1]) {
                self.source.unpeek(1);
                self.commit_to_token(TokenType::OP, t);
                return true;
            }
        }
        if w.len() >= 1 {
            if let Some(t) = op1_lookup(w[0]) {
                self.source.unpeek(2);
                self.commit_to_token(TokenType::OP, t);
                return true;
            }
        }
        self.source.revert();
        false
    }

    /// Whether a character may open a name.
    fn is_start_of_name(c: &char) -> (r: bool)
        ensures
            r == charclass::is_id_start(*c),
    {
        charclass::char_is_letter_uppercase(*c) || charclass::char_is_letter_lowercase(*c)
            || charclass::char_is_letter_titlecase(*c) || charclass::char_is_letter_modifier(*c)
            || charclass::char_is_letter_other(*c) || charclass::char_is_number_letter(*c)
            || *c == '_'
    }

    /// Whether a character may continue a name.
    fn is_part_of_name(c: &char) -> (r: bool)
        ensures
            r == charclass::is_id_continue(*c),
    {
        Self::is_start_of_name(c) || charclass::char_is_mark_nonspacing(*c)
            || charclass::char_is_mark_spacing_combining(*c)
            || charclass::char_is_number_decimal_digit(*c)
            || charclass::char_is_punctuation_connector(*c)
    }

    /// Attempt to consume the longest name at the cursor.
    fn consume_next_name_token(&mut self) -> (r: bool)
        requires
            scan_ready(old(self)),
        ensures
            untouched(final(self), old(self)),
            final(self).source.lookahead == final(self).source.cursor,
            ({
                let s = old(self).source.input@;
                let c = old(self).source.cursor as int;
                match crate::model::name_match(s, c) {
                    Some(e) => {
                        &&& r
                        &&& final(self).source.cursor == e
                        &&& final(self).hist@ == old(self).hist@.push(
                            span_tok(TokenType::NAME, TokenType::NAME, s, c, e),
                        )
                        &&& final(self).queue_models() == old(self).queue_models().push(
                            span_tok(TokenType::NAME, TokenType::NAME, s, c, e),
                        )
                    },
                    None => {
                        &&& !r
                        &&& final(self).source.cursor == old(self).source.cursor
                        &&& final(self).hist@ == old(self).hist@
                        &&& final(self).tokens@ == old(self).tokens@
                    },
                }
            }),
    {
        let ghost s = self.source.input@;
        let ghost c = self.source.cursor as int;
        let w = self.source.peek(1);
        if w.len() == 1 {
            if !Self::is_start_of_name(&w[0]) {
                self.source.unpeek(1);
                return false;
            }
        } else {
            self.source.unpeek(1);
            return false;
        }
        proof {
            crate::model::lemma_name_cont_end_bounds(s, c + 1);
        }
        loop
            invariant
                self.source.input@ == s,
                self.source.cursor == old(self).source.cursor,
                c == old(self).source.cursor as int,
                c + 1 <= self.source.lookahead <= s.len(),
                cap_ok(s),
                crate::model::name_cont_end(s, c + 1) == crate::model::name_cont_end(
                    s,
                    self.source.lookahead as int,
                ),
                untouched_loop(self, old(self)),
            ensures
                self.source.input@ == s,
                self.source.cursor == old(self).source.cursor,
                self.source.lookahead == crate::model::name_cont_end(s, c + 1),
                untouched_loop(self, old(self)),
            decreases s.len() - self.source.lookahead,
        {
            let ghost la = self.source.lookahead as int;
            let w = self.source.peek(1);
            if w.len() == 1 {
                if !Self::is_part_of_name(&w[0]) {
                    self.source.unpeek(1);
                    break;
                }
                proof {
                    crate::model::lemma_name_cont_end_bounds(s, la + 1);
                }
            } else {
                self.source.unpeek(1);
                break;
            }
        }
        self.commit_to_token(TokenType::NAME, TokenType::NAME);
        true
    }

    pub(crate) fn is_bin_digit(c: &char) -> (r: bool)
        ensures
            r == crate::model::is_bin_digit_char(*c),
    {
        *c == '0' || *c == '1'
    }

    pub(crate) fn is_oct_digit(c: &char) -> (r: bool)
        ensures
            r == crate::model::is_oct_digit_char(*c),
    {
        Self::is_bin_digit(c) || *c == '2' || *c == '3' || *c == '4' || *c == '5' || *c == '6'
            || *c == '7'
    }

    pub(crate) fn is_dec_digit(c: &char) -> (r: bool)
        ensures
            r == crate::model::is_dec_digit_char(*c),
    {
        Self::is_oct_digit(c) || *c == '8' || *c == '9'
    }

    pub(crate) fn is_hex_digit(c: &char) -> (r: bool)
        ensures
            r == crate::model::is_hex_digit_char(*c),
    {
        Self::is_dec_digit(c) || *c == 'a' || *c == 'b' || *c == 'c' || *c == 'd' || *c == 'e'
            || *c == 'f' || *c == 'A' || *c == 'B' || *c == 'C' || *c == 'D' || *c == 'E'
            || *c == 'F'
    }

    /// Whether `c` belongs to the digit alphabet `class`.
    fn digit_in_class(c: &char, class: DigitClass) -> (r: bool)
        ensures
            r == crate::model::digit_in(class, *c),
    {
        match class {
            DigitClass::Bin => Self::is_bin_digit(c),
            DigitClass::Oct => Self::is_oct_digit(c),
            DigitClass::Dec => Self::is_dec_digit(c),
            DigitClass::Hex => Self::is_hex_digit(c),
            DigitClass::Zero => *c == '0',
        }
    }

    /// Consume a digit tail from the lookahead: digits of `class` with
    /// single underscores between them.
    fn find_end_of_integer(&mut self, class: DigitClass)
        requires
            old(self).source.cursor <= old(self).source.lookahead <= old(
                self,
            ).source.input@.len(),
            cap_ok(old(self).source.input@),
        ensures
            untouched(final(self), old(self)),
            final(self).hist@ == old(self).hist@,
            final(self).tokens@ == old(self).tokens@,
            final(self).source.cursor == old(self).source.cursor,
            final(self).source.lookahead == crate::model::int_tail_end(
                old(self).source.input@,
                old(self).source.lookahead as int,
                false,
                class,
            ),
            old(self).source.lookahead <= final(self).source.lookahead <= old(
                self,
            ).source.input@.len(),
    {
        let ghost s = self.source.input@;
        let ghost la0 = self.source.lookahead as int;
        proof {
            crate::model::lemma_int_tail_end_bounds(s, la0, false, class);
        }
        let mut last_under = false;
        loop
            invariant_except_break
                last_under ==> old(self).source.cursor + 1 <= self.source.lookahead,
                crate::model::int_tail_end(s, la0, false, class) == crate::model::int_tail_end(
                    s,
                    self.source.lookahead as int,
                    last_under,
                    class,
                ),
            invariant
                self.source.input@ == s,
                self.source.cursor == old(self).source.cursor,
                old(self).source.cursor <= self.source.lookahead <= s.len(),
                cap_ok(s),
                crate::model::int_tail_end(s, la0, false, class) >= la0,
                la0 >= old(self).source.cursor,
                untouched_loop(self, old(self)),
            ensures
                self.source.input@ == s,
                self.source.cursor == old(self).source.cursor,
                self.source.lookahead == crate::model::int_tail_end(s, la0, false, class),
                untouched_loop(self, old(self)),
            decreases s.len() - self.source.lookahead,
        {
            let ghost la = self.source.lookahead as int;
            proof {
                crate::model::lemma_int_tail_end_bounds(s, la, last_under, class);
            }
            let w = self.source.peek(1);
            if w.len() == 1 {
                let ch = w[0];
                if ch == '_' {
                    if last_under {
                        self.source.unpeek(2);
                        break;
                    } else {
                        last_under = true;
                    }
                } else if Self::digit_in_class(&ch, class) {
                    last_under = false;
                } else {
                    if last_under {
                        self.source.unpeek(2);
                    } else {
                        self.source.unpeek(1);
                    }
                    break;
                }
            } else {
                if last_under {
                    self.source.unpeek(2);
                } else {
                    self.source.unpeek(1);
                }
                break;
            }
        }
    }

    /// Consume an exponent tail from the lookahead, which sits just after
    /// the `e`. On failure the lookahead is rewound to just before the `e`.
    fn find_end_of_exponent(&mut self) -> (r: bool)
        requires
            old(self).source.cursor < old(self).source.lookahead <= old(
                self,
            ).source.input@.len(),
            cap_ok(old(self).source.input@),
        ensures
            untouched(final(self), old(self)),
            final(self).hist@ == old(self).hist@,
            final(self).tokens@ == old(self).tokens@,
            final(self).source.cursor == old(self).source.cursor,
            ({
                let s = old(self).source.input@;
                let la = old(self).source.lookahead as int;
                match crate::model::exp_end(s, la) {
                    Some(e) => r && final(self).source.lookahead == e,
                    None => !r && final(self).source.lookahead == la - 1,
                }
            }),
            old(self).source.lookahead - 1 <= final(self).source.lookahead <= old(
                self,
            ).source.input@.len(),
    {
        let ghost s = self.source.input@;
        let ghost la = self.source.lookahead as int;
        let w = self.source.peek(2);
        if w.len() >= 1 && Self::is_dec_digit(&w[0]) {
            self.source.unpeek(1);
            self.find_end_of_integer(DigitClass::Dec);
            proof {
                crate::model::lemma_int_tail_end_bounds(s, la + 1, false, DigitClass::Dec);
            }
            true
        } else if w.len() == 2 && (w[0] == '-' || w[0] == '+') && Self::is_dec_digit(&w[1]) {
            self.find_end_of_integer(DigitClass::Dec);
            proof {
                crate::model::lemma_int_tail_end_bounds(s, la + 2, false, DigitClass::Dec);
            }
            true
        } else {
            self.source.unpeek(3);
            false
        }
    }

    /// Consume a fraction's digit tail from the lookahead, then an optional
    /// exponent.
    fn fraction_exponent_tail(&mut self)
        requires
            old(self).source.cursor <= old(self).source.lookahead <= old(
                self,
            ).source.input@.len(),
            cap_ok(old(self).source.input@),
        ensures
            untouched(final(self), old(self)),
            final(self).hist@ == old(self).hist@,
            final(self).tokens@ == old(self).tokens@,
            final(self).source.cursor == old(self).source.cursor,
            final(self).source.lookahead == crate::model::frac_exp_end(
                old(self).source.input@,
                old(self).source.lookahead as int,
            ),
            old(self).source.lookahead <= final(self).source.lookahead <= old(
                self,
            ).source.input@.len(),
    {
        let ghost s = self.source.input@;
        let ghost d = self.source.lookahead as int;
        self.find_end_of_integer(DigitClass::Dec);
        proof {
            crate::model::lemma_int_tail_end_bounds(s, d, false, DigitClass::Dec);
        }
        let w = self.source.peek(1);
        if w.len() == 1 && (w[0] == 'e' || w[0] == 'E') {
            let _found = self.find_end_of_exponent();
        } else {
            self.source.unpeek(1);
        }
    }

    /// The radix, fraction, exponent and leading-zero forms that a literal
    /// opened by `0` can take.
    #[verifier::rlimit(100)]
    fn number_zero_path(&mut self, Ghost(c): Ghost<int>) -> (nt: TokenType)
        requires
            old(self).source.cursor == c,
            old(self).source.lookahead == c + 1,
            c < old(self).source.input@.len(),
            old(self).source.input@[c] == '0',
            cap_ok(old(self).source.input@),
        ensures
            untouched(final(self), old(self)),
            final(self).hist@ == old(self).hist@,
            final(self).tokens@ == old(self).tokens@,
            final(self).source.cursor == old(self).source.cursor,
            crate::model::num_scan(old(self).source.input@, c) == Some(
                (nt, final(self).source.lookahead as int),
            ),
            c < final(self).source.lookahead <= old(self).source.input@.len(),
    {
        let ghost s = self.source.input@;
        let number_type: TokenType;
        let w2 = self.source.peek(2);
        if w2.len() == 2 && (w2[0] == 'b' || w2[0] == 'B') && Self::is_bin_digit(&w2[1]) {
            number_type = TokenType::BININT;
            self.find_end_of_integer(DigitClass::Bin);
        } else if w2.len() == 2 && (w2[0] == 'o' || w2[0] == 'O') && Self::is_oct_digit(&w2[1]) {
            number_type = TokenType::OCTINT;
            self.find_end_of_integer(DigitClass::Oct);
        } else if w2.len() == 2 && (w2[0] == 'x' || w2[0] == 'X') && Self::is_hex_digit(&w2[1]) {
            number_type = TokenType::HEXINT;
            self.find_end_of_integer(DigitClass::Hex);
        } else if w2.len() >= 1 && (Self::is_dec_digit(&w2[0]) || w2[0] == '_') {
            number_type = self.number_leading_zero_path(Ghost(c));
        } else if w2.len() >= 1 && w2[0] == '.' {
            self.source.unpeek(1);
            number_type = TokenType::FLOAT;
            self.fraction_exponent_tail();
            proof {
                crate::model::lemma_frac_exp_end_bounds(s, c + 2);
            }
        } else if w2.len() >= 1 && (w2[0] == 'e' || w2[0] == 'E') {
            self.source.unpeek(1);
            if self.find_end_of_exponent() {
                number_type = TokenType::FLOAT;
            } else {
                number_type = TokenType::INTEGER;
            }
        } else {
            number_type = TokenType::INTEGER;
            self.source.unpeek(2);
        }
        number_type
    }

    /// The leading-zero rule: measure the run of zeros first, then decide
    /// from what follows whether the whole span is one literal or only the
    /// zeros are.
    #[verifier::rlimit(100)]
    fn number_leading_zero_path(&mut self, Ghost(c): Ghost<int>) -> (nt: TokenType)
        requires
            old(self).source.cursor == c,
            old(self).source.lookahead == c + 3,
            c + 1 < old(self).source.input@.len(),
            old(self).source.input@[c] == '0',
            crate::model::is_dec_digit_char(old(self).source.input@[c + 1]) || old(
                self,
            ).source.input@[c + 1] == '_',
            cap_ok(old(self).source.input@),
        ensures
            untouched(final(self), old(self)),
            final(self).hist@ == old(self).hist@,
            final(self).tokens@ == old(self).tokens@,
            final(self).source.cursor == old(self).source.cursor,
            crate::model::num_scan_leading_zero(old(self).source.input@, c) == (
                nt,
                final(self).source.lookahead as int,
            ),
            c < final(self).source.lookahead <= old(self).source.input@.len(),
    {
        let ghost s = self.source.input@;
        let number_type: TokenType;
        let last_zero: usize;
        proof {
            if s[c + 1] == '_' {
                crate::model::lemma_int_tail_end_bounds(s, c + 1, false, DigitClass::Zero);
            } else if s[c + 1] == '0' {
                crate::model::lemma_int_tail_end_bounds(s, c + 2, false, DigitClass::Zero);
            }
        }
        if self.source.input[self.source.cursor + 1] == '_' {
            self.source.unpeek(2);
            self.find_end_of_integer(DigitClass::Zero);
            last_zero = self.source.peeked_index();
        } else if self.source.input[self.source.cursor + 1] == '0' {
            self.source.unpeek(1);
            self.find_end_of_integer(DigitClass::Zero);
            last_zero = self.source.peeked_index();
        } else {
            self.source.unpeek(1);
            last_zero = self.source.peeked_index() - 1;
        }
        let ghost la0 = self.source.lookahead as int;
        let ghost lz = last_zero as int;
        let w3 = self.source.peek(1);
        if w3.len() == 1 && w3[0] == '.' {
            number_type = TokenType::FLOAT;
            self.fraction_exponent_tail();
            proof {
                crate::model::lemma_frac_exp_end_bounds(s, la0 + 1);
            }
        } else if w3.len() == 1 && (w3[0] == 'e' || w3[0] == 'E') {
            if self.find_end_of_exponent() {
                number_type = TokenType::FLOAT;
                proof {
                    crate::model::lemma_exp_end_bounds(s, la0 + 1);
                }
            } else {
                number_type = TokenType::INTEGER;
                let p = self.source.peeked_index();
                self.source.unpeek(p - last_zero);
            }
        } else if w3.len() == 1 && (Self::is_dec_digit(&w3[0]) || w3[0] == '_') {
            // Further digits belong to this token only if the whole span
            // turns out to be a float or imaginary literal.
            self.find_end_of_integer(DigitClass::Dec);
            number_type = self.number_zeros_decimal(last_zero);
        } else {
            number_type = TokenType::INTEGER;
            self.source.unpeek(1);
        }
        number_type
    }

    /// After a decimal tail that began with a run of zeros ending at
    /// `last_zero`: keep the whole span for a float or imaginary literal,
    /// else truncate to the zeros.
    #[verifier::rlimit(100)]
    fn number_zeros_decimal(&mut self, last_zero: usize) -> (nt: TokenType)
        requires
            old(self).source.cursor <= last_zero <= old(self).source.lookahead <= old(
                self,
            ).source.input@.len(),
            old(self).source.cursor < last_zero,
            cap_ok(old(self).source.input@),
        ensures
            untouched(final(self), old(self)),
            final(self).hist@ == old(self).hist@,
            final(self).tokens@ == old(self).tokens@,
            final(self).source.cursor == old(self).source.cursor,
            crate::model::num_scan_decimal_zeros(
                old(self).source.input@,
                old(self).source.lookahead as int,
                last_zero as int,
            ) == (nt, final(self).source.lookahead as int),
            old(self).source.cursor < final(self).source.lookahead <= old(
                self,
            ).source.input@.len(),
    {
        let ghost s = self.source.input@;
        let ghost t = self.source.lookahead as int;
        let number_type: TokenType;
        let w4 = self.source.peek(1);
        if w4.len() == 1 && w4[0] == '.' {
            number_type = TokenType::FLOAT;
            self.fraction_exponent_tail();
            proof {
                crate::model::lemma_frac_exp_end_bounds(s, t + 1);
            }
        } else if w4.len() == 1 && (w4[0] == 'e' || w4[0] == 'E') {
            if self.find_end_of_exponent() {
                number_type = TokenType::FLOAT;
                proof {
                    crate::model::lemma_exp_end_bounds(s, t + 1);
                }
            } else {
                number_type = TokenType::INTEGER;
                let p = self.source.peeked_index();
                self.source.unpeek(p - last_zero);
            }
        } else if w4.len() == 1 && (w4[0] == 'j' || w4[0] == 'J') {
            number_type = TokenType::IMAGINARY;
        } else {
            number_type = TokenType::INTEGER;
            let p = self.source.peeked_index();
            self.source.unpeek(p - last_zero);
        }
        number_type
    }

    /// Attempt to consume the longest numeric literal at the cursor.
    #[verifier::rlimit(100)]
    fn consume_next_number_token(&mut self) -> (r: bool)
        requires
            scan_ready(old(self)),
        ensures
            untouched(final(self), old(self)),
            final(self).source.lookahead == final(self).source.cursor,
            ({
                let s = old(self).source.input@;
                let c = old(self).source.cursor as int;
                match crate::model::num_token(s, c) {
                    Some((k, e)) => {
                        &&& r
                        &&& final(self).source.cursor == e
                        &&& final(self).hist@ == old(self).hist@.push(
                            span_tok(TokenType::NUMBER, k, s, c, e),
                        )
                        &&& final(self).queue_models() == old(self).queue_models().push(
                            span_tok(TokenType::NUMBER, k, s, c, e),
                        )
                    },
                    None => {
                        &&& !r
                        &&& final(self).source.cursor == old(self).source.cursor
                        &&& final(self).hist@ == old(self).hist@
                        &&& final(self).tokens@ == old(self).tokens@
                    },
                }
            }),
    {
        let ghost s = self.source.input@;
        let ghost c = self.source.cursor as int;
        let number_type: TokenType;
        let w1 = self.source.peek(1);
        if w1.len() == 1 && w1[0] == '0' {
            number_type = self.number_zero_path(Ghost(c));
        } else if w1.len() == 1 && Self::is_dec_digit(&w1[0]) {
            self.find_end_of_integer(DigitClass::Dec);
            let ghost tt = self.source.lookahead as int;
            let w4 = self.source.peek(1);
            if w4.len() == 1 && w4[0] == '.' {
                number_type = TokenType::FLOAT;
                self.fraction_exponent_tail();
                proof {
                    crate::model::lemma_frac_exp_end_bounds(s, tt + 1);
                }
            } else if w4.len() == 1 && (w4[0] == 'e' || w4[0] == 'E') {
                if self.find_end_of_exponent() {
                    number_type = TokenType::FLOAT;
                    proof {
                        crate::model::lemma_exp_end_bounds(s, tt + 1);
                    }
                } else {
                    number_type = TokenType::INTEGER;
                }
            } else {
                number_type = TokenType::INTEGER;
                self.source.unpeek(1);
            }
            proof {
                assert(crate::model::num_scan_decimal(s, tt, c + 1) == (
                    number_type,
                    self.source.lookahead as int,
                ));
            }
        } else if w1.len() == 1 && w1[0] == '.' {
            let w2 = self.source.peek(1);
            if w2.len() == 1 && Self::is_dec_digit(&w2[0]) {
                number_type = TokenType::FLOAT;
                self.fraction_exponent_tail();
                proof {
                    crate::model::lemma_frac_exp_end_bounds(s, c + 2);
                }
            } else {
                self.source.revert();
                return false;
            }
        } else {
            self.source.revert();
            return false;
        }

        proof {
            assert(crate::model::num_scan(s, c) == Some(
                (number_type, self.source.lookahead as int),
            ));
            crate::model::lemma_num_scan_bounds(s, c);
        }
        let exact_token_type: TokenType;
        if matches!(number_type, TokenType::INTEGER | TokenType::FLOAT) {
            let wj = self.source.peek(1);
            if wj.len() == 1 && (wj[0] == 'j' || wj[0] == 'J') {
                exact_token_type = TokenType::IMAGINARY;
            } else {
                self.source.unpeek(1);
                exact_token_type = number_type;
            }
        } else {
            exact_token_type = number_type;
        }
        self.commit_to_token(TokenType::NUMBER, exact_token_type);
        true
    }

    /// Consume an escaped or bare newline. `Some(true)` means a NEWLINE or
    /// NL token was emitted; `Some(false)` means an explicit line join was
    /// consumed silently.
    fn consume_next_newline(&mut self) -> (r: Option<bool>)
        requires
            scan_ready(old(self)),
        ensures
            final(self).source.input == old(self).source.input,
            final(self).indents_seen == old(self).indents_seen,
            final(self).ended == old(self).ended,
            final(self).failed == old(self).failed,
            final(self).delivered == old(self).delivered,
            final(self).source.lookahead == final(self).source.cursor,
            ({
                let s = old(self).source.input@;
                let c = old(self).source.cursor as int;
                let within = old(self).within_statement;
                if c + 2 <= s.len() && s[c] == '\\' && s[c + 1] == '\n' {
                    &&& r == Some(false)
                    &&& final(self).source.cursor == c + 2
                    &&& final(self).within_statement == within
                    &&& final(self).hist@ == old(self).hist@
                    &&& final(self).tokens@ == old(self).tokens@
                } else if c < s.len() && s[c] == '\n' {
                    &&& r == Some(true)
                    &&& final(self).source.cursor == c + 1
                    &&& final(self).within_statement == false
                    &&& ({
                        let kind = if within { TokenType::NEWLINE } else { TokenType::NL };
                        &&& final(self).hist@ == old(self).hist@.push(
                            span_tok(kind, kind, s, c, c + 1),
                        )
                        &&& final(self).queue_models() == old(self).queue_models().push(
                            span_tok(kind, kind, s, c, c + 1),
                        )
                    })
                } else {
                    &&& r is None
                    &&& final(self).source.cursor == old(self).source.cursor
                    &&& final(self).within_statement == within
                    &&& final(self).hist@ == old(self).hist@
                    &&& final(self).tokens@ == old(self).tokens@
                }
            }),
    {
        let w = self.source.peek(2);
        if w.len() == 2 && w[0] == '\\' && w[1] == '\n' {
            // no tokens produced when the newline is escaped
            self.source.commit();
            Some(false)
        } else if w.len() >= 1 && w[0] == '\n' {
            self.source.unpeek(1);
            if self.within_statement {
                self.commit_to_token(TokenType::NEWLINE, TokenType::NEWLINE);
                self.within_statement = false;
            } else {
                self.commit_to_token(TokenType::NL, TokenType::NL);
            }
            Some(true)
        } else {
            self.source.revert();
            None
        }
    }

    /// Consume inter-token whitespace; no token is produced.
    fn consume_next_whitespace(&mut self)
        requires
            scan_ready(old(self)),
        ensures
            untouched(final(self), old(self)),
            final(self).hist@ == old(self).hist@,
            final(self).tokens@ == old(self).tokens@,
            final(self).source.lookahead == final(self).source.cursor,
            final(self).source.cursor == crate::model::ws_end(
                old(self).source.input@,
                old(self).source.cursor as int,
            ),
    {
        let ghost s = self.source.input@;
        let ghost c = self.source.cursor as int;
        proof {
            crate::model::lemma_ws_end_bounds(s, c);
        }
        loop
            invariant_except_break
                self.source.lookahead <= s.len(),
                crate::model::ws_end(s, c) == crate::model::ws_end(
                    s,
                    self.source.lookahead as int,
                ),
            invariant
                self.source.input@ == s,
                self.source.cursor == old(self).source.cursor,
                c == old(self).source.cursor as int,
                c <= self.source.lookahead,
                cap_ok(s),
                untouched_loop(self, old(self)),
            ensures
                self.source.input@ == s,
                self.source.cursor == old(self).source.cursor,
                self.source.lookahead == crate::model::ws_end(s, c) + 1,
                untouched_loop(self, old(self)),
            decreases s.len() - self.source.lookahead,
        {
            let w = self.source.peek(1);
            if w.len() == 1 {
                let ch = w[0];
                if ch != ' ' && ch != '\t' && ch != '\u{000C}' {
                    break;
                }
            } else {
                break;
            }
        }
        // everything but the last peek was whitespace
        self.source.unpeek(1);
        self.source.commit();
    }

    /// Attempt to consume a comment: everything from `#` up to, but not
    /// including, the next newline.
    fn consume_next_comment(&mut self) -> (r: bool)
        requires
            scan_ready(old(self)),
        ensures
            untouched(final(self), old(self)),
            final(self).source.lookahead == final(self).source.cursor,
            ({
                let s = old(self).source.input@;
                let c = old(self).source.cursor as int;
                match crate::model::comment_match(s, c) {
                    Some(e) => {
                        &&& r
                        &&& final(self).source.cursor == e
                        &&& final(self).hist@ == old(self).hist@.push(
                            span_tok(TokenType::COMMENT, TokenType::COMMENT, s, c, e),
                        )
                        &&& final(self).queue_models() == old(self).queue_models().push(
                            span_tok(TokenType::COMMENT, TokenType::COMMENT, s, c, e),
                        )
                    },
                    None => {
                        &&& !r
                        &&& final(self).source.cursor == old(self).source.cursor
                        &&& final(self).hist@ == old(self).hist@
                        &&& final(self).tokens@ == old(self).tokens@
                    },
                }
            }),
    {
        let ghost s = self.source.input@;
        let ghost c = self.source.cursor as int;
        let w = self.source.peek(1);
        if w.len() == 1 && w[0] == '#' {
            proof {
                crate::model::lemma_comment_end_bounds(s, c + 1);
            }
            loop
                invariant_except_break
                    self.source.lookahead <= s.len(),
                    crate::model::comment_end(s, c + 1) == crate::model::comment_end(
                        s,
                        self.source.lookahead as int,
                    ),
                invariant
                    self.source.input@ == s,
                    self.source.cursor == old(self).source.cursor,
                    c == old(self).source.cursor as int,
                    c + 1 <= self.source.lookahead,
                    cap_ok(s),
                    untouched_loop(self, old(self)),
                ensures
                    self.source.input@ == s,
                    self.source.cursor == old(self).source.cursor,
                    self.source.lookahead == crate::model::comment_end(s, c + 1) + 1,
                    untouched_loop(self, old(self)),
                decreases s.len() - self.source.lookahead,
            {
                let w2 = self.source.peek(1);
                if w2.len() == 1 {
                    if w2[0] == '\n' {
                        break;
                    }
                } else {
                    break;
                }
            }
            self.source.unpeek(1);
            self.commit_to_token(TokenType::COMMENT, TokenType::COMMENT);
            true
        } else {
            self.source.revert();
            false
        }
    }

    /// Scan a single-quoted string body from the lookahead. On success the
    /// lookahead rests just after the closing quote; on failure (a newline
    /// or the end of input) the caller reverts.
    fn find_end_quote(&mut self, end_match: char) -> (r: bool)
        requires
            old(self).source.cursor <= old(self).source.lookahead <= old(
                self,
            ).source.input@.len(),
            cap_ok(old(self).source.input@),
        ensures
            untouched(final(self), old(self)),
            final(self).hist@ == old(self).hist@,
            final(self).tokens@ == old(self).tokens@,
            final(self).source.cursor == old(self).source.cursor,
            final(self).source.cursor <= final(self).source.lookahead,
            ({
                let s = old(self).source.input@;
                let la = old(self).source.lookahead as int;
                match crate::model::quote_scan(s, la, end_match, false) {
                    Some(e) => r && final(self).source.lookahead == e,
                    None => !r,
                }
            }),
    {
        let ghost s = self.source.input@;
        let ghost la0 = self.source.lookahead as int;
        let mut last_escape = false;
        loop
            invariant_except_break
                self.source.lookahead <= s.len(),
                crate::model::quote_scan(s, la0, end_match, false) == crate::model::quote_scan(
                    s,
                    self.source.lookahead as int,
                    end_match,
                    last_escape,
                ),
            invariant
                self.source.input@ == s,
                self.source.cursor == old(self).source.cursor,
                la0 == old(self).source.lookahead as int,
                old(self).source.cursor <= self.source.lookahead,
                cap_ok(s),
                untouched_loop(self, old(self)),
            ensures
                self.source.input@ == s,
                self.source.cursor == old(self).source.cursor,
                untouched_loop(self, old(self)),
                ({
                    match crate::model::quote_scan(s, la0, end_match, false) {
                        Some(e) => self.source.lookahead == e,
                        None => true,
                    }
                }),
            decreases s.len() - self.source.lookahead,
        {
            let w = self.source.peek(1);
            if w.len() == 1 {
                let a = w[0];
                if a == end_match && !last_escape {
                    return true;
                } else if a == '\n' {
                    return false;
                } else if a == '\\' && !last_escape {
                    last_escape = true;
                } else if last_escape {
                    last_escape = false;
                }
            } else {
                return false;
            }
        }
    }

    /// Scan a triple-quoted string body by a sliding three-character window.
    /// Reaching the end of input without the closing quote run is fatal.
    fn find_end_tripple_quote(&mut self, end_match: char) -> (r: Result<(), String>)
        requires
            old(self).source.cursor <= old(self).source.lookahead <= old(
                self,
            ).source.input@.len(),
            cap_ok(old(self).source.input@),
        ensures
            untouched(final(self), old(self)),
            final(self).hist@ == old(self).hist@,
            final(self).tokens@ == old(self).tokens@,
            final(self).source.cursor == old(self).source.cursor,
            final(self).source.cursor <= final(self).source.lookahead,
            ({
                let s = old(self).source.input@;
                let la = old(self).source.lookahead as int;
                match crate::model::triple_scan(s, la, end_match, false) {
                    Some(e) => r is Ok && final(self).source.lookahead == e,
                    None => r is Err && r->Err_0@ == crate::model::err_msg(
                        crate::model::LexError::EofInString,
                    ),
                }
            }),
    {
        let ghost s = self.source.input@;
        let ghost la0 = self.source.lookahead as int;
        let mut last_escape = false;
        loop
            invariant_except_break
                self.source.lookahead <= s.len(),
                crate::model::triple_scan(s, la0, end_match, false) == crate::model::triple_scan(
                    s,
                    self.source.lookahead as int,
                    end_match,
                    last_escape,
                ),
            invariant
                self.source.input@ == s,
                self.source.cursor == old(self).source.cursor,
                la0 == old(self).source.lookahead as int,
                old(self).source.cursor <= self.source.lookahead,
                cap_ok(s),
                untouched_loop(self, old(self)),
            ensures
                self.source.input@ == s,
                self.source.cursor == old(self).source.cursor,
                old(self).source.cursor <= self.source.lookahead,
                untouched_loop(self, old(self)),
                crate::model::triple_scan(s, la0, end_match, false) is None,
            decreases s.len() - self.source.lookahead,
        {
            let ghost la = self.source.lookahead as int;
            let w = self.source.peek(3);
            if w.len() == 3 {
                let a = w[0];
                let b = w[1];
                let cc = w[2];
                if a == end_match && b == end_match && cc == end_match && !last_escape {
                    return Ok(());
                }
                last_escape = (a == '\\' && b == '\\' && cc == '\\' && !last_escape)
                    || (cc == '\\' && b != '\\') || (a == '\\' && !last_escape);
                self.source.unpeek(2);
            } else {
                proof {
                    assert(la + 3 > s.len());
                    assert(crate::model::triple_scan(s, la, end_match, last_escape) is None);
                }
                break;
            }
        }
        Err(String::from_str("EOF in multi-line string"))
    }

    /// Attempt to consume a string literal at the cursor: an optional prefix
    /// of at most two letters, then a single- or triple-quoted body. An
    /// unterminated single-quoted string emits a one-scalar ERRORTOKEN; an
    /// unterminated triple-quoted string is fatal.
    #[verifier::rlimit(100)]
    fn consume_next_string_token(&mut self) -> (r: Result<bool, String>)
        requires
            scan_ready(old(self)),
        ensures
            untouched(final(self), old(self)),
            final(self).source.cursor <= final(self).source.lookahead,
            ({
                let s = old(self).source.input@;
                let c = old(self).source.cursor as int;
                match crate::model::str_scan(s, c) {
                    crate::model::StrScan::NoTok => {
                        &&& r == Ok::<bool, String>(false)
                        &&& final(self).source.cursor == old(self).source.cursor
                        &&& final(self).source.lookahead == final(self).source.cursor
                        &&& final(self).hist@ == old(self).hist@
                        &&& final(self).tokens@ == old(self).tokens@
                    },
                    crate::model::StrScan::Tok { kind, end } => {
                        &&& r == Ok::<bool, String>(true)
                        &&& final(self).source.cursor == end
                        &&& final(self).source.lookahead == final(self).source.cursor
                        &&& final(self).hist@ == old(self).hist@.push(
                            span_tok(kind, kind, s, c, end),
                        )
                        &&& final(self).queue_models() == old(self).queue_models().push(
                            span_tok(kind, kind, s, c, end),
                        )
                    },
                    crate::model::StrScan::Fatal => {
                        &&& r is Err
                        &&& r->Err_0@ == crate::model::err_msg(crate::model::LexError::EofInString)
                        &&& final(self).source.cursor == old(self).source.cursor
                        &&& final(self).hist@ == old(self).hist@
                        &&& final(self).tokens@ == old(self).tokens@
                    },
                }
            }),
    {
        let ghost s = self.source.input@;
        let ghost c = self.source.cursor as int;
        let qt: char;
        let w = self.source.peek(3);
        if w.len() >= 1 && (w[0] == '\'' || w[0] == '"') {
            qt = w[0];
            self.source.unpeek(2);
        } else if w.len() >= 2 && Self::is_string_prefix(&w[0]) && (w[1] == '\'' || w[1] == '"') {
            qt = w[1];
            self.source.unpeek(1);
        } else if w.len() == 3 && ((Self::is_raw_prefix(&w[0]) && Self::is_kind_prefix(&w[1]))
            || (Self::is_kind_prefix(&w[0]) && Self::is_raw_prefix(&w[1])))
            && (w[2] == '\'' || w[2] == '"') {
            qt = w[2];
        } else {
            self.source.revert();
            return Ok(false);
        }
        let ghost p = self.source.lookahead as int;
        let w2 = self.source.peek(2);
        if w2.len() == 2 && w2[0] == qt && w2[1] == qt {
            if let Err(errmsg) = self.find_end_tripple_quote(qt) {
                return Err(errmsg);
            }
            proof {
                crate::model::lemma_triple_scan_bounds(s, p + 2, qt, false);
            }
        } else {
            self.source.unpeek(2);
            if !self.find_end_quote(qt) {
                self.source.revert();
                let _w = self.source.peek(1);
                self.commit_to_token(TokenType::ERRORTOKEN, TokenType::ERRORTOKEN);
                return Ok(true);
            }
            proof {
                crate::model::lemma_quote_scan_bounds(s, p, qt, false);
            }
        }
        self.commit_to_token(TokenType::STRING, TokenType::STRING);
        Ok(true)
    }

    /// Whether a character may stand alone as a string prefix.
    fn is_string_prefix(c: &char) -> (r: bool)
        ensures
            r == crate::model::is_str_prefix_char(*c),
    {
        *c == 'b' || *c == 'B' || *c == 'f' || *c == 'F' || *c == 'r' || *c == 'R' || *c == 'u'
            || *c == 'U'
    }

    /// Whether a character is a raw-string prefix letter.
    fn is_raw_prefix(c: &char) -> (r: bool)
        ensures
            r == crate::model::is_raw_prefix_char(*c),
    {
        *c == 'r' || *c == 'R'
    }

    /// Whether a character is a bytes- or format-string prefix letter.
    fn is_kind_prefix(c: &char) -> (r: bool)
        ensures
            r == crate::model::is_kind_prefix_char(*c),
    {
        *c == 'b' || *c == 'B' || *c == 'f' || *c == 'F'
    }

    /// Run the indentation engine at the start of a physical line: measure
    /// the leading whitespace and emit INDENT or DEDENT tokens against the
    /// stack of open levels. A dedent below every open level is fatal.
    #[verifier::rlimit(100)]
    fn consume_next_dent(&mut self) -> (r: Result<bool, String>)
        requires
            scan_ready(old(self)),
            crate::model::indents_wf(old(self).model().indents),
        ensures
            final(self).source.input == old(self).source.input,
            final(self).within_statement == old(self).within_statement,
            final(self).ended == old(self).ended,
            final(self).failed == old(self).failed,
            final(self).delivered == old(self).delivered,
            final(self).source.lookahead == final(self).source.cursor,
            ({
                let s = old(self).source.input@;
                let c = old(self).source.cursor as int;
                let ind = old(self).model().indents;
                match crate::model::dent_outcome(s, c, ind) {
                    crate::model::DentOutcome::Blank { e } => {
                        &&& r == Ok::<bool, String>(false)
                        &&& final(self).source.cursor == e
                        &&& final(self).indents_seen == old(self).indents_seen
                        &&& final(self).hist@ == old(self).hist@
                        &&& final(self).tokens@ == old(self).tokens@
                    },
                    crate::model::DentOutcome::Level { e } => {
                        &&& r == Ok::<bool, String>(false)
                        &&& final(self).source.cursor == e
                        &&& final(self).indents_seen == old(self).indents_seen
                        &&& final(self).hist@ == old(self).hist@
                        &&& final(self).tokens@ == old(self).tokens@
                    },
                    crate::model::DentOutcome::Indent { e, w } => {
                        &&& r == Ok::<bool, String>(true)
                        &&& final(self).source.cursor == e
                        &&& final(self).model().indents == ind.push(w)
                        &&& final(self).hist@ == old(self).hist@.push(
                            span_tok(TokenType::INDENT, TokenType::INDENT, s, c, e),
                        )
                        &&& final(self).queue_models() == old(self).queue_models().push(
                            span_tok(TokenType::INDENT, TokenType::INDENT, s, c, e),
                        )
                    },
                    crate::model::DentOutcome::Dedent { e, k } => {
                        &&& r == Ok::<bool, String>(true)
                        &&& final(self).source.cursor == e
                        &&& final(self).model().indents == ind.take(ind.len() - k)
                        &&& final(self).hist@ == old(self).hist@ + Seq::new(
                            k as nat,
                            |j: int| crate::model::dedent_tok(e),
                        )
                        &&& final(self).queue_models() == old(self).queue_models() + Seq::new(
                            k as nat,
                            |j: int| crate::model::dedent_tok(e),
                        )
                    },
                    crate::model::DentOutcome::Mismatch { e, pops } => {
                        &&& r is Err
                        &&& r->Err_0@ == crate::model::err_msg(
                            crate::model::LexError::DedentMismatch,
                        )
                        &&& final(self).source.cursor == e
                        &&& final(self).model().indents == ind.take(ind.len() - pops)
                        &&& final(self).hist@ == old(self).hist@ + Seq::new(
                            (pops - 1) as nat,
                            |j: int| crate::model::dedent_tok(e),
                        )
                        &&& final(self).queue_models() == old(self).queue_models() + Seq::new(
                            (pops - 1) as nat,
                            |j: int| crate::model::dedent_tok(e),
                        )
                    },
                }
            }),
    {
        let ghost s = self.source.input@;
        let ghost c = self.source.cursor as int;
        let ghost ind = self.model().indents;
        let ghost e0 = crate::model::ws_end(s, c);
        proof {
            crate::model::lemma_ws_end_bounds(s, c);
        }
        let mut spaces: usize = 0;
        let mut no_more_source = true;
        loop
            invariant_except_break
                self.source.lookahead <= e0,
                crate::model::ws_end(s, self.source.lookahead as int) == e0,
                crate::model::width_fold(s, c, e0, 0) == crate::model::width_fold(
                    s,
                    self.source.lookahead as int,
                    e0,
                    spaces as int,
                ),
                spaces <= 8 * (self.source.lookahead - c),
                no_more_source,
            invariant
                self.source.input@ == s,
                self.source.cursor == old(self).source.cursor,
                c == old(self).source.cursor as int,
                c <= self.source.lookahead,
                e0 == crate::model::ws_end(s, c),
                c <= e0 <= s.len(),
                cap_ok(s),
                untouched_loop(self, old(self)),
            ensures
                self.source.input@ == s,
                self.source.cursor == old(self).source.cursor,
                untouched_loop(self, old(self)),
                self.source.lookahead == e0 + 1,
                spaces as int == crate::model::width_fold(s, c, e0, 0),
                spaces <= 8 * (e0 - c),
                no_more_source ==> e0 == s.len(),
                !no_more_source ==> e0 < s.len() && !crate::model::is_blank_line_start(s[e0]),
            decreases e0 + 1 - self.source.lookahead,
        {
            let ghost la = self.source.lookahead as int;
            let w = self.source.peek(1);
            if w.len() == 1 {
                let ch = w[0];
                proof {
                    if crate::model::is_inter_ws(ch) {
                        crate::model::lemma_ws_end_bounds(s, la + 1);
                        assert(la < e0);
                    }
                }
                if ch == ' ' {
                    spaces = spaces + 1;
                } else if ch == '\t' {
                    // round up to the next multiple of 8 spaces
                    spaces = spaces + (8 - spaces % 8);
                } else if ch == '\u{000C}' {
                    // form feeds may be interspersed but add no width
                } else if ch == '\n' || ch == '\\' || ch == '#' {
                    // no code on this line: the measured width is discarded
                    proof {
                        assert(la == e0);
                    }
                    self.source.unpeek(1);
                    self.source.commit();
                    return Ok(false);
                } else {
                    proof {
                        assert(la == e0);
                    }
                    no_more_source = false;
                    break;
                }
            } else {
                proof {
                    assert(la == e0 && e0 == s.len());
                }
                break;
            }
        }
        self.source.unpeek(1);
        if no_more_source {
            // the input ended on this line's leading whitespace
            self.source.commit();
            return Ok(false);
        }
        let top = self.indents_seen[self.indents_seen.len() - 1];
        if top == spaces {
            // the line sits at the current indentation level
            self.source.commit();
            Ok(false)
        } else if top < spaces {
            self.indents_seen.push(spaces);
            proof {
                assert(self.indents_seen@.map_values(|v: usize| v as int) =~= ind.push(
                    spaces as int,
                ));
            }
            self.commit_to_token(TokenType::INDENT, TokenType::INDENT);
            Ok(true)
        } else {
            // one or more DEDENTs until an outer level matches the width
            self.source.commit();
            let ghost w_int = spaces as int;
            proof {
                assert(ind.len() >= 2) by {
                    if ind.len() == 1 {
                        assert(ind.last() == ind[0]);
                    }
                }
                crate::model::lemma_dedent_scan_bounds(ind, w_int);
            }
            let e = self.source.committed_index();
            let ghost mut pops: int = 0;
            loop
                invariant
                    self.source.input == old(self).source.input,
                    self.source.input@ == s,
                    self.source.cursor == e,
                    self.source.lookahead == e,
                    e == e0,
                    c == old(self).source.cursor as int,
                    w_int == spaces as int,
                    ind == old(self).model().indents,
                    crate::model::indents_wf(ind),
                    e0 == crate::model::ws_end(s, c),
                    e0 < s.len(),
                    !crate::model::is_blank_line_start(s[e0]),
                    w_int == crate::model::width_fold(s, c, e0, 0),
                    ind.last() > w_int,
                    0 <= pops <= ind.len() - 2,
                    self.indents_seen@.map_values(|v: usize| v as int) == ind.take(
                        ind.len() - pops,
                    ),
                    self.indents_seen@.len() >= 2,
                    self.indents_seen@.map_values(|v: usize| v as int).last() > w_int,
                    crate::model::indents_wf(
                        self.indents_seen@.map_values(|v: usize| v as int),
                    ),
                    crate::model::dedent_scan(ind, w_int) == ({
                        let rec = crate::model::dedent_scan(
                            self.indents_seen@.map_values(|v: usize| v as int),
                            w_int,
                        );
                        (rec.0 + pops, rec.1)
                    }),
                    self.hist@ == old(self).hist@ + Seq::new(
                        pops as nat,
                        |j: int| crate::model::dedent_tok(e0),
                    ),
                    self.queue_models() == old(self).queue_models() + Seq::new(
                        pops as nat,
                        |j: int| crate::model::dedent_tok(e0),
                    ),
                    self.within_statement == old(self).within_statement,
                    self.ended == old(self).ended,
                    self.failed == old(self).failed,
                    self.delivered == old(self).delivered,
                    cap_ok(s),
                decreases ind.len() - pops,
            {
                let ghost cur = self.indents_seen@.map_values(|v: usize| v as int);
                let _popped = self.indents_seen.pop();
                proof {
                    pops = pops + 1;
                    assert(self.indents_seen@.map_values(|v: usize| v as int) =~= cur.drop_last());
                    assert(cur.drop_last() =~= ind.take(ind.len() - pops));
                }
                let t2 = self.indents_seen[self.indents_seen.len() - 1];
                if t2 == spaces {
                    self.add_token(
                        TokenType::DEDENT,
                        TokenType::DEDENT,
                        String::new(),
                        e,
                        e,
                    );
                    proof {
                        assert(self.hist@ =~= old(self).hist@ + Seq::new(
                            pops as nat,
                            |j: int| crate::model::dedent_tok(e0),
                        ));
                        assert(self.queue_models() =~= old(self).queue_models() + Seq::new(
                            pops as nat,
                            |j: int| crate::model::dedent_tok(e0),
                        ));
                    }
                    return Ok(true);
                } else if t2 < spaces || self.indents_seen.len() == 1 {
                    proof {
                        assert(self.hist@ =~= old(self).hist@ + Seq::new(
                            (pops - 1) as nat,
                            |j: int| crate::model::dedent_tok(e0),
                        ));
                        assert(self.queue_models() =~= old(self).queue_models() + Seq::new(
                            (pops - 1) as nat,
                            |j: int| crate::model::dedent_tok(e0),
                        ));
                    }
                    return Err(String::from_str(
                        "dedent does not match any outer indentation level",
                    ));
                } else {
                    self.add_token(
                        TokenType::DEDENT,
                        TokenType::DEDENT,
                        String::new(),
                        e,
                        e,
                    );
                    proof {
                        assert(self.hist@ =~= old(self).hist@ + Seq::new(
                            pops as nat,
                            |j: int| crate::model::dedent_tok(e0),
                        ));
                        assert(self.queue_models() =~= old(self).queue_models() + Seq::new(
                            pops as nat,
                            |j: int| crate::model::dedent_tok(e0),
                        ));
                    }
                }
            }
        }
    }

    /// Drain the stream at end of input: a synthetic NEWLINE if a statement
    /// is open, one DEDENT per open level, and the ENDMARKER.
    #[verifier::rlimit(100)]
    fn finalize_stream(&mut self) -> (r: Result<(), String>)
        requires
            scan_ready(old(self)),
            crate::model::indents_wf(old(self).model().indents),
            old(self).source.cursor == old(self).source.input@.len(),
        ensures
            r is Ok,
            final(self).source.input == old(self).source.input,
            final(self).source.cursor == old(self).source.cursor,
            final(self).source.lookahead == final(self).source.cursor,
            final(self).within_statement == old(self).within_statement,
            final(self).failed == old(self).failed,
            final(self).delivered == old(self).delivered,
            final(self).model() == crate::model::fin_state(old(self).model()),
            final(self).hist@ == old(self).hist@ + crate::model::fin_toks(old(self).model()),
            final(self).queue_models() == old(self).queue_models() + crate::model::fin_toks(
                old(self).model(),
            ),
    {
        let ghost m0 = old(self).model();
        let ghost ind = m0.indents;
        let ghost nlpart: Seq<TokenModel> = if m0.within {
            seq![
                TokenModel {
                    kind: TokenType::NEWLINE,
                    exact: TokenType::NEWLINE,
                    contents: seq!['\n'],
                    start: m0.cursor,
                    end: m0.cursor + 1,
                },
            ]
        } else {
            Seq::empty()
        };
        if self.within_statement {
            // all statements end in a newline, even if absent from the source
            let ci = self.source.committed_index();
            self.add_token(
                TokenType::NEWLINE,
                TokenType::NEWLINE,
                String::from_str("\n"),
                ci,
                ci + 1,
            );
            proof {
                reveal_strlit("\n");
                assert("\n"@ =~= seq!['\n']);
            }
        }
        let ghost c1 = m0.cursor + 1;
        let ghost mut popped: int = 0;
        proof {
            assert(self.hist@ =~= old(self).hist@ + nlpart + Seq::new(
                0nat,
                |j: int| crate::model::dedent_tok(c1),
            ));
            assert(self.queue_models() =~= old(self).queue_models() + nlpart + Seq::new(
                0nat,
                |j: int| crate::model::dedent_tok(c1),
            ));
        }
        loop
            invariant
                self.source.input == old(self).source.input,
                self.source.cursor == old(self).source.cursor,
                self.source.lookahead == old(self).source.lookahead,
                self.source.cursor == self.source.input@.len(),
                self.within_statement == old(self).within_statement,
                self.ended == old(self).ended,
                self.failed == old(self).failed,
                self.delivered == old(self).delivered,
                ind == old(self).model().indents,
                crate::model::indents_wf(ind),
                m0 == old(self).model(),
                c1 == m0.cursor + 1,
                nlpart == (if m0.within { seq![
                    TokenModel {
                        kind: TokenType::NEWLINE,
                        exact: TokenType::NEWLINE,
                        contents: seq!['\n'],
                        start: m0.cursor,
                        end: m0.cursor + 1,
                    },
                ] } else { Seq::<TokenModel>::empty() }),
                0 <= popped <= ind.len() - 1,
                self.indents_seen@.map_values(|v: usize| v as int) == ind.take(
                    ind.len() - popped,
                ),
                self.indents_seen@.len() >= 1,
                self.hist@ == old(self).hist@ + nlpart + Seq::new(
                    popped as nat,
                    |j: int| crate::model::dedent_tok(c1),
                ),
                self.queue_models() == old(self).queue_models() + nlpart + Seq::new(
                    popped as nat,
                    |j: int| crate::model::dedent_tok(c1),
                ),
                cap_ok(self.source.input@),
            ensures
                self.source.input == old(self).source.input,
                self.source.cursor == old(self).source.cursor,
                self.source.lookahead == old(self).source.lookahead,
                self.within_statement == old(self).within_statement,
                self.ended == old(self).ended,
                self.failed == old(self).failed,
                self.delivered == old(self).delivered,
                self.indents_seen@.map_values(|v: usize| v as int) == ind.take(1),
                self.hist@ == old(self).hist@ + nlpart + Seq::new(
                    (ind.len() - 1) as nat,
                    |j: int| crate::model::dedent_tok(c1),
                ),
                self.queue_models() == old(self).queue_models() + nlpart + Seq::new(
                    (ind.len() - 1) as nat,
                    |j: int| crate::model::dedent_tok(c1),
                ),
            decreases self.indents_seen@.len(),
        {
            if self.indents_seen.len() <= 1 {
                proof {
                    assert(self.indents_seen@.map_values(|v: usize| v as int).len()
                        == self.indents_seen@.len());
                    assert(ind.take(ind.len() - popped).len() == ind.len() - popped);
                    assert(popped == ind.len() - 1);
                }
                break;
            }
            // the bottom of the stack needs no DEDENT
            let ghost cur = self.indents_seen@.map_values(|v: usize| v as int);
            let _popped_level = self.indents_seen.pop();
            let ci = self.source.committed_index();
            self.add_token(TokenType::DEDENT, TokenType::DEDENT, String::new(), ci + 1, ci + 1);
            proof {
                popped = popped + 1;
                assert(self.indents_seen@.map_values(|v: usize| v as int) =~= cur.drop_last());
                assert(cur.drop_last() =~= ind.take(ind.len() - popped));
                assert(self.hist@ =~= old(self).hist@ + nlpart + Seq::new(
                    popped as nat,
                    |j: int| crate::model::dedent_tok(c1),
                ));
                assert(self.queue_models() =~= old(self).queue_models() + nlpart + Seq::new(
                    popped as nat,
                    |j: int| crate::model::dedent_tok(c1),
                ));
            }
        }
        let ci = self.source.committed_index();
        self.add_token(TokenType::ENDMARKER, TokenType::ENDMARKER, String::new(), ci + 1, ci + 1);
        self.ended = true;
        proof {
            assert(final(self).hist@ =~= old(self).hist@ + crate::model::fin_toks(m0));
            assert(final(self).queue_models() =~= old(self).queue_models()
                + crate::model::fin_toks(m0));
            assert(final(self).model().indents =~= ind.take(1));
            assert(final(self).model() == crate::model::fin_state(m0));
        }
        Ok(())
    }

    /// The part of a driver step after the indentation engine: whitespace,
    /// newlines, then the sub-lexers in their priority order.
    #[verifier::rlimit(100)]
    fn consume_rest_token(&mut self) -> (r: Result<(), String>)
        requires
            scan_ready(old(self)),
            model_wf(old(self).model()),
            !old(self).failed,
            !old(self).ended,
        ensures
            final(self).source.input == old(self).source.input,
            final(self).failed == old(self).failed,
            final(self).delivered == old(self).delivered,
            final(self).source.cursor <= final(self).source.lookahead,
            ({
                let st = crate::model::consume_rest(old(self).model());
                &&& final(self).model() == st.m
                &&& final(self).hist@ == old(self).hist@ + st.toks
                &&& final(self).queue_models() == old(self).queue_models() + st.toks
                &&& match st.err {
                    None => r is Ok && final(self).source.lookahead == final(self).source.cursor,
                    Some(e) => r is Err && r->Err_0@ == crate::model::err_msg(e),
                }
            }),
        decreases self.source.input@.len() - self.source.cursor, 0int,
    {
        let ghost m = old(self).model();
        let ghost st = crate::model::consume_rest(m);
        proof {
            reveal(crate::model::consume_rest);
            reveal(crate::model::consume_step);
            crate::model::lemma_ws_end_bounds(m.input, m.cursor);
        }
        self.consume_next_whitespace();
        match self.consume_next_newline() {
            Some(true) => {
                proof {
                    assert(self.hist@ =~= old(self).hist@ + st.toks);
                    assert(self.queue_models() =~= old(self).queue_models() + st.toks);
                }
                return Ok(());
            },
            Some(false) => {
                // an escaped newline is insignificant whitespace: re-enter
                let res = self.consume_next_token();
                proof {
                    assert(self.hist@ =~= old(self).hist@ + st.toks);
                    assert(self.queue_models() =~= old(self).queue_models() + st.toks);
                }
                return res;
            },
            None => {},
        }
        // number before op, to capture a leading decimal point
        if self.consume_next_number_token() {
            self.within_statement = true;
            proof {
                assert(self.hist@ =~= old(self).hist@ + st.toks);
                assert(self.queue_models() =~= old(self).queue_models() + st.toks);
            }
            return Ok(());
        }
        if self.consume_next_op_token() {
            self.within_statement = true;
            proof {
                assert(self.hist@ =~= old(self).hist@ + st.toks);
                assert(self.queue_models() =~= old(self).queue_models() + st.toks);
            }
            return Ok(());
        }
        // string before name, to capture prefix directives
        match self.consume_next_string_token() {
            Ok(true) => {
                self.within_statement = true;
                proof {
                    assert(self.hist@ =~= old(self).hist@ + st.toks);
                    assert(self.queue_models() =~= old(self).queue_models() + st.toks);
                }
                return Ok(());
            },
            Ok(false) => {},
            Err(e) => {
                proof {
                    assert(self.hist@ =~= old(self).hist@ + st.toks);
                    assert(self.queue_models() =~= old(self).queue_models() + st.toks);
                }
                return Err(e);
            },
        }
        if self.consume_next_name_token() {
            self.within_statement = true;
            proof {
                assert(self.hist@ =~= old(self).hist@ + st.toks);
                assert(self.queue_models() =~= old(self).queue_models() + st.toks);
            }
            return Ok(());
        }
        if self.consume_next_comment() {
            proof {
                assert(self.hist@ =~= old(self).hist@ + st.toks);
                assert(self.queue_models() =~= old(self).queue_models() + st.toks);
            }
            return Ok(());
        }
        if self.source.at_end() {
            let res = self.finalize_stream();
            proof {
                assert(self.hist@ =~= old(self).hist@ + st.toks);
                assert(self.queue_models() =~= old(self).queue_models() + st.toks);
            }
            return res;
        }
        let _w = self.source.peek(1);
        self.commit_to_token(TokenType::ERRORTOKEN, TokenType::ERRORTOKEN);
        proof {
            assert(self.hist@ =~= old(self).hist@ + st.toks);
            assert(self.queue_models() =~= old(self).queue_models() + st.toks);
        }
        Ok(())
    }

    /// One driver step: drain at the end of input, run the indentation
    /// engine at the start of a line, then scan the next token.
    #[verifier::rlimit(100)]
    fn consume_next_token(&mut self) -> (r: Result<(), String>)
        requires
            scan_ready(old(self)),
            model_wf(old(self).model()),
            !old(self).failed,
        ensures
            final(self).source.input == old(self).source.input,
            final(self).failed == old(self).failed,
            final(self).delivered == old(self).delivered,
            final(self).source.cursor <= final(self).source.lookahead,
            ({
                let st = consume_step(old(self).model());
                &&& final(self).model() == st.m
                &&& final(self).hist@ == old(self).hist@ + st.toks
                &&& final(self).queue_models() == old(self).queue_models() + st.toks
                &&& match st.err {
                    None => r is Ok && final(self).source.lookahead == final(self).source.cursor,
                    Some(e) => r is Err && r->Err_0@ == crate::model::err_msg(e),
                }
            }),
        decreases self.source.input@.len() - self.source.cursor, 1int,
    {
        proof {
            reveal(crate::model::consume_step);
            reveal(crate::model::consume_rest);
        }
        let ghost st = consume_step(old(self).model());
        if self.ended {
            proof {
                assert(self.hist@ =~= old(self).hist@ + st.toks);
                assert(self.queue_models() =~= old(self).queue_models() + st.toks);
            }
            return Ok(());
        }
        if self.source.at_end() {
            let res = self.finalize_stream();
            proof {
                assert(self.hist@ =~= old(self).hist@ + st.toks);
                assert(self.queue_models() =~= old(self).queue_models() + st.toks);
            }
            return res;
        }
        if !self.within_statement {
            match self.consume_next_dent() {
                Ok(true) => {
                    self.within_statement = true;
                    proof {
                        assert(self.hist@ =~= old(self).hist@ + st.toks);
                        assert(self.queue_models() =~= old(self).queue_models() + st.toks);
                    }
                    return Ok(());
                },
                Ok(false) => {},
                Err(e) => {
                    proof {
                        assert(self.hist@ =~= old(self).hist@ + st.toks);
                        assert(self.queue_models() =~= old(self).queue_models() + st.toks);
                    }
                    return Err(e);
                },
            }
        }
        proof {
            crate::model::lemma_ws_end_bounds(
                old(self).source.input@,
                old(self).source.cursor as int,
            );
        }
        self.consume_rest_token()
    }

    /// Pull the next token. A fresh token is scanned only when the pending
    /// queue is empty; after a fatal error the stream is latched closed and
    /// yields nothing more.
    #[verifier::rlimit(100)]
    pub fn next(&mut self) -> (r: Option<Result<Token, String>>)
        requires
            old(self).wf(),
        ensures
            final(self).wf(),
            final(self).source.input == old(self).source.input,
            old(self).failed ==> r is None && final(self).hist@ == old(self).hist@
                && final(self).delivered@ == old(self).delivered@,
            !old(self).failed ==> ({
                let st = if old(self).tokens@.len() == 0 {
                    consume_step(old(self).model())
                } else {
                    crate::model::no_step(old(self).model())
                };
                &&& final(self).hist@ == old(self).hist@ + st.toks
                &&& match st.err {
                    Some(e) => {
                        &&& r is Some
                        &&& r->Some_0 is Err
                        &&& (r->Some_0)->Err_0@ == crate::model::err_msg(e)
                        &&& final(self).failed
                        &&& final(self).delivered@ == old(self).delivered@
                    },
                    None => {
                        &&& final(self).model() == st.m
                        &&& !final(self).failed
                        &&& (if old(self).delivered@ < final(self).hist@.len() {
                            &&& r is Some
                            &&& r->Some_0 is Ok
                            &&& (r->Some_0)->Ok_0@ == final(self).hist@[old(self).delivered@]
                            &&& final(self).delivered@ == old(self).delivered@ + 1
                        } else {
                            r is None && final(self).delivered@ == old(self).delivered@
                        })
                    },
                }
            }),
    {
        if self.failed {
            return None;
        }
        let ghost m = self.model();
        if self.tokens.len() == 0 {
            proof {
                assert(self.queue_models().len() == 0);
                assert(self.hist@.subrange(self.delivered@, self.hist@.len() as int).len() == 0);
                assert(self.delivered@ == self.hist@.len());
                if !m.ended {
                    crate::model::lemma_step_progress(m);
                }
            }
            let ghost st = consume_step(m);
            proof {
                if m.ended {
                    assert(st.toks =~= Seq::<TokenModel>::empty() && st.m == m && st.err is None)
                        by {
                        reveal(crate::model::consume_step);
                    }
                }
            }
            match self.consume_next_token() {
                Ok(()) => {
                    proof {
                        assert(self.hist@.subrange(
                            self.delivered@,
                            self.hist@.len() as int,
                        ) =~= self.queue_models());
                        if !m.ended {
                            assert(stream_run(m).toks =~= st.toks + stream_run(st.m).toks);
                        }
                        assert(self.hist@ + stream_run(self.model()).toks =~= tokens_of(
                            self.source.input@,
                        ));
                    }
                },
                Err(e) => {
                    self.failed = true;
                    proof {
                        assert(self.hist@.subrange(
                            self.delivered@,
                            self.hist@.len() as int,
                        ) =~= self.queue_models());
                        assert(stream_run(m).toks == st.toks);
                        assert(self.hist@ =~= tokens_of(self.source.input@));
                    }
                    return Some(Err(e));
                },
            }
        }
        let ghost qm = self.queue_models();
        let ghost hist_pre = self.hist@;
        let ghost d_pre = self.delivered@;
        let popped = self.tokens.pop_front();
        match popped {
            None => None,
            Some(t) => {
                proof {
                    assert(qm.len() > 0);
                    assert(qm[0] == t@);
                    assert(hist_pre.subrange(d_pre, hist_pre.len() as int) == qm);
                    assert(d_pre < hist_pre.len());
                    assert(hist_pre.subrange(d_pre, hist_pre.len() as int)[0] == hist_pre[d_pre]);
                    assert(hist_pre[d_pre] == qm[0]);
                    self.delivered@ = self.delivered@ + 1;
                    assert(self.queue_models() =~= qm.drop_first());
                    assert(self.hist@.subrange(self.delivered@, self.hist@.len() as int) =~= qm
                        .drop_first());
                }
                Some(Ok(t))
            },
        }
    }
}

/// Once a stream has ended, every opened indentation level has been closed
/// again: only the bottom level remains.
pub proof fn law_stack_drained(ts: &TokenStream)
    requires
        ts.wf(),
        ts.ended,
    ensures
        ts.model().indents =~= seq![0int],
{
}

/// What a stream has enqueued is always a prefix of the mathematical token
/// sequence of its input: the tokenizer can never produce anything else.
pub proof fn law_history_prefix(ts: &TokenStream)
    requires
        ts.wf(),
    ensures
        ts.hist@.len() <= tokens_of(ts.source.input@).len(),
        ts.hist@ == tokens_of(ts.source.input@).take(ts.hist@.len() as int),
{
    let toks = tokens_of(ts.source.input@);
    if !ts.failed {
        assert(ts.hist@ + stream_run(ts.model()).toks == toks);
        assert(ts.hist@ =~= toks.take(ts.hist@.len() as int));
    } else {
        assert(ts.hist@ =~= toks.take(ts.hist@.len() as int));
    }
}

/// Tokenizing identical input twice yields identical token sequences: two
/// streams over equal inputs agree on every token either one has produced,
/// however far each has been pulled.
pub proof fn law_pure_function(a: &TokenStream, b: &TokenStream)
    requires
        a.wf(),
        b.wf(),
        a.source.input@ == b.source.input@,
    ensures
        forall|i: int|
            0 <= i < a.hist@.len() && i < b.hist@.len() ==> a.hist@[i] == b.hist@[i],
{
    law_history_prefix(a);
    law_history_prefix(b);
    let toks = tokens_of(a.source.input@);
    assert forall|i: int|
        0 <= i < a.hist@.len() && i < b.hist@.len() implies a.hist@[i] == b.hist@[i] by {
        assert(a.hist@[i] == toks.take(a.hist@.len() as int)[i]);
        assert(b.hist@[i] == toks.take(b.hist@.len() as int)[i]);
    }
}

/// Every token a stream has enqueued carries exactly the characters of its
/// span of the input, and offsets never run backwards.
pub proof fn law_stream_coverage(ts: &TokenStream)
    requires
        ts.wf(),
    ensures
        crate::laws::all_placed(ts.hist@, ts.source.input@),
        crate::laws::monotone(ts.hist@),
{
    law_history_prefix(ts);
    crate::laws::law_coverage(ts.source.input@);
    crate::laws::law_monotonic_offsets(ts.source.input@);
    let toks = tokens_of(ts.source.input@);
    assert forall|i: int| 0 <= i < ts.hist@.len() implies crate::laws::placed(
        #[trigger] ts.hist@[i],
        ts.source.input@,
    ) by {
        assert(ts.hist@[i] == toks.take(ts.hist@.len() as int)[i]);
        assert(toks[i] == ts.hist@[i]);
    }
    assert forall|i: int, j: int|
        0 <= i && j == i + 1 && j < ts.hist@.len() implies (#[trigger] ts.hist@[i]).end <= (
    #[trigger] ts.hist@[j]).start by {
        assert(ts.hist@[i] == toks.take(ts.hist@.len() as int)[i]);
        assert(ts.hist@[j] == toks.take(ts.hist@.len() as int)[j]);
        assert(toks[i] == ts.hist@[i] && toks[j] == ts.hist@[j]);
    }
}

/// Fields a sub-lexer never touches.
pub open spec fn untouched(a: &TokenStream, b: &TokenStream) -> bool {
    &&& a.source.input == b.source.input
    &&& a.within_statement == b.within_statement
    &&& a.indents_seen == b.indents_seen
    &&& a.ended == b.ended
    &&& a.failed == b.failed
    &&& a.delivered == b.delivered
}

/// The same frame, together with the queue and history, for use inside
/// loops that only move the lookahead.
pub open spec fn untouched_loop(a: &TokenStream, b: &TokenStream) -> bool {
    &&& untouched(a, b)
    &&& a.hist == b.hist
    &&& a.tokens == b.tokens
}

/// A sub-lexer may start: the scanner is clean and the input is small
/// enough for offset arithmetic.
pub open spec fn scan_ready(ts: &TokenStream) -> bool {
    &&& ts.source.lookahead == ts.source.cursor
    &&& ts.source.cursor <= ts.source.input@.len()
    &&& cap_ok(ts.source.input@)
}

} // verus!
