//! Stream-level guarantees, proved over the model: every token's contents
//! are exactly its span of the input, offsets never run backwards, the
//! stream ends in a single ENDMARKER, indents and dedents balance, and the
//! whole sequence is a pure function of the input.

use vstd::prelude::*;
use crate::model::{
    consume_rest, consume_step, dent_outcome, fin_state, fin_toks, lemma_comment_end_bounds,
    lemma_dedent_scan_bounds, lemma_name_cont_end_bounds, lemma_num_token_bounds,
    lemma_step_progress, lemma_str_scan_bounds, lemma_width_fold_bounds, lemma_ws_end_bounds,
    lex_error_of, model_wf, op_match_at, stream_run, tokens_of, DentOutcome, StreamModel, Step,
    StrScan,
};
use crate::tokens::{TokenModel, TokenType};

verus! {

/// A token is placed: its contents are exactly its span of the input, or it
/// is one of the synthetic terminal tokens past the end.
pub open spec fn placed(t: TokenModel, s: Seq<char>) -> bool {
    &&& 0 <= t.start <= t.end
    &&& (t.end <= s.len() ==> t.contents == s.subrange(t.start, t.end))
    &&& (t.end > s.len() ==> {
        ||| (t.kind == TokenType::NEWLINE && t.contents == seq!['\n'] && t.start == s.len()
            && t.end == s.len() + 1)
        ||| ((t.kind == TokenType::DEDENT || t.kind == TokenType::ENDMARKER)
            && t.contents == Seq::<char>::empty() && t.start == s.len() + 1 && t.end == s.len()
            + 1)
    })
}

/// Offsets never run backwards from one token to the next.
pub open spec fn monotone(toks: Seq<TokenModel>) -> bool {
    forall|i: int, j: int|
        0 <= i && j == i + 1 && j < toks.len() ==> (#[trigger] toks[i]).end <= (
        #[trigger] toks[j]).start
}

/// All spans lie between `lo` and `hi`.
pub open spec fn bounded(toks: Seq<TokenModel>, lo: int, hi: int) -> bool {
    forall|i: int|
        0 <= i < toks.len() ==> lo <= (#[trigger] toks[i]).start && toks[i].end <= hi
}

pub open spec fn all_placed(toks: Seq<TokenModel>, s: Seq<char>) -> bool {
    forall|i: int| 0 <= i < toks.len() ==> placed(#[trigger] toks[i], s)
}

/// How many tokens of the sequence have the given kind.
pub open spec fn count_kind(toks: Seq<TokenModel>, k: TokenType) -> int
    decreases toks.len(),
{
    if toks.len() == 0 {
        0
    } else {
        count_kind(toks.drop_last(), k) + if toks.last().kind == k { 1int } else { 0int }
    }
}

pub proof fn lemma_count_concat(a: Seq<TokenModel>, b: Seq<TokenModel>, k: TokenType)
    ensures
        count_kind(a + b, k) == count_kind(a, k) + count_kind(b, k),
    decreases b.len(),
{
    if b.len() == 0 {
        assert(a + b =~= a);
    } else {
        assert((a + b).drop_last() =~= a + b.drop_last());
        lemma_count_concat(a, b.drop_last(), k);
    }
}

pub proof fn lemma_count_zero(toks: Seq<TokenModel>, k: TokenType)
    requires
        forall|i: int| 0 <= i < toks.len() ==> (#[trigger] toks[i]).kind != k,
    ensures
        count_kind(toks, k) == 0,
    decreases toks.len(),
{
    if toks.len() > 0 {
        lemma_count_zero(toks.drop_last(), k);
    }
}

/// What one driver step emits, described for the whole-stream proofs: every
/// token placed within the step's frontier, offsets monotone, the dent
/// bookkeeping exact, and the ENDMARKER exactly at the end of the stream.
pub open spec fn step_toks_ok(m: StreamModel, st: Step) -> bool {
    let s = m.input;
    let frontier = if st.m.ended { s.len() as int + 1 } else { st.m.cursor };
    &&& all_placed(st.toks, s)
    &&& bounded(st.toks, m.cursor, frontier)
    &&& monotone(st.toks)
    &&& (st.err is None ==> count_kind(st.toks, TokenType::INDENT) - count_kind(
        st.toks,
        TokenType::DEDENT,
    ) == st.m.indents.len() - m.indents.len())
    &&& count_kind(st.toks, TokenType::ENDMARKER) == (if st.m.ended && st.err is None {
        1int
    } else {
        0int
    })
    &&& (st.m.ended && st.err is None ==> st.toks.len() >= 1 && st.toks.last().kind
        == TokenType::ENDMARKER)
    &&& (st.m.ended && st.err is None ==> st.m.indents.len() == 1)
    &&& (st.err is Some ==> !st.m.ended)
}

/// The shape of the terminal drain, token by token.
#[verifier::rlimit(100)]
pub proof fn lemma_fin_toks_shape(m: StreamModel)
    requires
        model_wf(m),
        m.cursor == m.input.len(),
    ensures
        ({
            let toks = fin_toks(m);
            let nlp: int = if m.within { 1int } else { 0int };
            &&& toks.len() == nlp + m.indents.len()
            &&& forall|i: int|
                0 <= i < toks.len() ==> #[trigger] toks[i] == (if m.within && i == 0 {
                    TokenModel {
                        kind: TokenType::NEWLINE,
                        exact: TokenType::NEWLINE,
                        contents: seq!['\n'],
                        start: m.cursor,
                        end: m.cursor + 1,
                    }
                } else if i < toks.len() - 1 {
                    crate::model::dedent_tok(m.cursor + 1)
                } else {
                    TokenModel {
                        kind: TokenType::ENDMARKER,
                        exact: TokenType::ENDMARKER,
                        contents: Seq::<char>::empty(),
                        start: m.cursor + 1,
                        end: m.cursor + 1,
                    }
                })
        }),
{
    let toks = fin_toks(m);
    let nl = TokenModel {
        kind: TokenType::NEWLINE,
        exact: TokenType::NEWLINE,
        contents: seq!['\n'],
        start: m.cursor,
        end: m.cursor + 1,
    };
    let em = TokenModel {
        kind: TokenType::ENDMARKER,
        exact: TokenType::ENDMARKER,
        contents: Seq::<char>::empty(),
        start: m.cursor + 1,
        end: m.cursor + 1,
    };
    let dents = Seq::new((m.indents.len() - 1) as nat, |k: int| crate::model::dedent_tok(
        m.cursor + 1,
    ));
    let nlpart: Seq<TokenModel> = if m.within { seq![nl] } else { Seq::empty() };
    assert(toks == nlpart + dents + seq![em]);
    assert forall|i: int| 0 <= i < toks.len() implies #[trigger] toks[i] == (if m.within && i
        == 0 {
        nl
    } else if i < toks.len() - 1 {
        crate::model::dedent_tok(m.cursor + 1)
    } else {
        em
    }) by {
        if m.within && i == 0 {
            assert(toks[0] == nlpart[0]);
        } else if i < toks.len() - 1 {
            assert(toks[i] == dents[i - nlpart.len()]);
        } else {
            assert(toks[i] == seq![em][0]);
        }
    }
}

/// The terminal drain meets the per-step description.
#[verifier::rlimit(100)]
pub proof fn lemma_fin_toks_ok(m: StreamModel)
    requires
        model_wf(m),
        m.cursor == m.input.len(),
    ensures
        step_toks_ok(
            m,
            Step { m: fin_state(m), toks: fin_toks(m), err: None },
        ),
{
    let s = m.input;
    let toks = fin_toks(m);
    lemma_fin_toks_shape(m);
    lemma_fin_counts(m);
    assert(monotone(toks)) by {
        assert forall|i: int, j: int| 0 <= i && j == i + 1 && j < toks.len() implies (
        #[trigger] toks[i]).end <= (#[trigger] toks[j]).start by {
            assert(toks[i] == toks[i] && toks[j] == toks[j]);
        }
    }
    assert(toks.last().kind == TokenType::ENDMARKER);
    assert(fin_state(m).indents.len() == 1);
}

/// The terminal drain holds no INDENT, one DEDENT per open level, and one
/// ENDMARKER.
#[verifier::rlimit(100)]
pub proof fn lemma_fin_counts(m: StreamModel)
    requires
        model_wf(m),
        m.cursor == m.input.len(),
    ensures
        count_kind(fin_toks(m), TokenType::INDENT) == 0,
        count_kind(fin_toks(m), TokenType::DEDENT) == m.indents.len() - 1,
        count_kind(fin_toks(m), TokenType::ENDMARKER) == 1,
{
    let toks = fin_toks(m);
    let nl = TokenModel {
        kind: TokenType::NEWLINE,
        exact: TokenType::NEWLINE,
        contents: seq!['\n'],
        start: m.cursor,
        end: m.cursor + 1,
    };
    let em = TokenModel {
        kind: TokenType::ENDMARKER,
        exact: TokenType::ENDMARKER,
        contents: Seq::<char>::empty(),
        start: m.cursor + 1,
        end: m.cursor + 1,
    };
    let dents = Seq::new((m.indents.len() - 1) as nat, |k: int| crate::model::dedent_tok(
        m.cursor + 1,
    ));
    let nlpart: Seq<TokenModel> = if m.within { seq![nl] } else { Seq::empty() };
    assert(toks == nlpart + dents + seq![em]);
    assert(toks =~= (nlpart + dents) + seq![em]);
    lemma_count_concat(nlpart + dents, seq![em], TokenType::INDENT);
    lemma_count_concat(nlpart + dents, seq![em], TokenType::DEDENT);
    lemma_count_concat(nlpart + dents, seq![em], TokenType::ENDMARKER);
    lemma_count_concat(nlpart, dents, TokenType::INDENT);
    lemma_count_concat(nlpart, dents, TokenType::DEDENT);
    lemma_count_concat(nlpart, dents, TokenType::ENDMARKER);
    lemma_count_zero(nlpart, TokenType::INDENT);
    lemma_count_zero(nlpart, TokenType::DEDENT);
    lemma_count_zero(nlpart, TokenType::ENDMARKER);
    lemma_count_zero(dents, TokenType::INDENT);
    lemma_count_all(dents, TokenType::DEDENT);
    lemma_count_zero(dents, TokenType::ENDMARKER);
    lemma_count_single(em, TokenType::INDENT);
    lemma_count_single(em, TokenType::DEDENT);
    lemma_count_single(em, TokenType::ENDMARKER);
}

pub proof fn lemma_count_all(toks: Seq<TokenModel>, k: TokenType)
    requires
        forall|i: int| 0 <= i < toks.len() ==> (#[trigger] toks[i]).kind == k,
    ensures
        count_kind(toks, k) == toks.len(),
    decreases toks.len(),
{
    if toks.len() > 0 {
        lemma_count_all(toks.drop_last(), k);
    }
}

pub proof fn lemma_count_single(t: TokenModel, k: TokenType)
    ensures
        count_kind(seq![t], k) == (if t.kind == k { 1int } else { 0int }),
{
    assert(seq![t].len() == 1);
    assert(seq![t].last() == t);
    assert(seq![t].drop_last() =~= Seq::<TokenModel>::empty());
    assert(count_kind(Seq::<TokenModel>::empty(), k) == 0);
}

/// A step that emits one ordinary token within its frontier meets the
/// per-step description.
pub proof fn lemma_single_step_ok(m: StreamModel, st: Step, tok: TokenModel)
    requires
        st.toks == seq![tok],
        placed(tok, m.input),
        m.cursor <= tok.start,
        tok.end <= st.m.cursor,
        st.m.cursor <= m.input.len(),
        tok.kind != TokenType::INDENT,
        tok.kind != TokenType::DEDENT,
        tok.kind != TokenType::ENDMARKER,
        st.m.indents == m.indents,
        !st.m.ended,
        st.err is None,
    ensures
        step_toks_ok(m, st),
{
    lemma_count_single(tok, TokenType::INDENT);
    lemma_count_single(tok, TokenType::DEDENT);
    lemma_count_single(tok, TokenType::ENDMARKER);
    assert forall|i: int| 0 <= i < st.toks.len() implies placed(#[trigger] st.toks[i], m.input)
        by {
        assert(st.toks[i] == tok);
    }
    assert forall|i: int| 0 <= i < st.toks.len() implies m.cursor <= (#[trigger] st.toks[
        i
    ]).start && st.toks[i].end <= st.m.cursor by {
        assert(st.toks[i] == tok);
    }
}

/// What the sub-lexer part of a driver step emits meets the per-step
/// description.
#[verifier::rlimit(100)]
pub proof fn lemma_rest_toks_ok(m: StreamModel)
    requires
        model_wf(m),
        !m.ended,
    ensures
        step_toks_ok(m, consume_rest(m)),
    decreases m.input.len() - m.cursor, 0int,
{
    reveal(crate::model::consume_rest);
    reveal(crate::model::consume_step);
    let s = m.input;
    let len = s.len() as int;
    let st = consume_rest(m);
    lemma_ws_end_bounds(s, m.cursor);
    let c = crate::model::ws_end(s, m.cursor);
    let m2 = StreamModel { cursor: c, ..m };
    if c + 2 <= len && s[c] == '\\' && s[c + 1] == '\n' {
        let m3 = StreamModel { cursor: c + 2, ..m2 };
        lemma_step_toks_ok(m3);
        assert(consume_step(m3) == st);
        assert(step_toks_ok(m3, st));
        assert forall|i: int| 0 <= i < st.toks.len() implies m.cursor <= (#[trigger] st.toks[
            i
        ]).start && st.toks[i].end <= (if st.m.ended { len + 1 } else { st.m.cursor }) by {
            assert(m3.cursor <= st.toks[i].start);
        }
    } else if c < len && s[c] == '\n' {
        let kind = if m.within { TokenType::NEWLINE } else { TokenType::NL };
        lemma_single_step_ok(m, st, crate::model::span_tok(kind, kind, s, c, c + 1));
    } else {
        match crate::model::num_token(s, c) {
            Some((k, e)) => {
                lemma_num_token_bounds(s, c);
                lemma_single_step_ok(m, st, crate::model::span_tok(TokenType::NUMBER, k, s, c, e));
            },
            None => match op_match_at(s, c) {
                Some((tk, l)) => {
                    lemma_single_step_ok(
                        m,
                        st,
                        crate::model::span_tok(TokenType::OP, tk, s, c, c + l),
                    );
                },
                None => match crate::model::str_scan(s, c) {
                    StrScan::Tok { kind, end } => {
                        lemma_str_scan_bounds(s, c);
                        lemma_single_step_ok(
                            m,
                            st,
                            crate::model::span_tok(kind, kind, s, c, end),
                        );
                    },
                    StrScan::Fatal => {
                        assert(st.toks.len() == 0);
                    },
                    StrScan::NoTok => match crate::model::name_match(s, c) {
                        Some(e) => {
                            lemma_name_cont_end_bounds(s, c + 1);
                            lemma_single_step_ok(
                                m,
                                st,
                                crate::model::span_tok(TokenType::NAME, TokenType::NAME, s, c, e),
                            );
                        },
                        None => match crate::model::comment_match(s, c) {
                            Some(e) => {
                                lemma_comment_end_bounds(s, c + 1);
                                lemma_single_step_ok(
                                    m,
                                    st,
                                    crate::model::span_tok(
                                        TokenType::COMMENT,
                                        TokenType::COMMENT,
                                        s,
                                        c,
                                        e,
                                    ),
                                );
                            },
                            None => {
                                if c >= len {
                                    lemma_fin_toks_ok(m2);
                                    assert forall|i: int|
                                        0 <= i < st.toks.len() implies m.cursor <= (
                                    #[trigger] st.toks[i]).start && st.toks[i].end <= (
                                    if st.m.ended {
                                        len + 1
                                    } else {
                                        st.m.cursor
                                    }) by {
                                        assert(m2.cursor <= st.toks[i].start);
                                    }
                                } else {
                                    lemma_single_step_ok(
                                        m,
                                        st,
                                        crate::model::span_tok(
                                            TokenType::ERRORTOKEN,
                                            TokenType::ERRORTOKEN,
                                            s,
                                            c,
                                            c + 1,
                                        ),
                                    );
                                }
                            },
                        },
                    },
                },
            },
        }
    }
}

/// What one whole driver step emits meets the per-step description.
#[verifier::rlimit(100)]
pub proof fn lemma_step_toks_ok(m: StreamModel)
    requires
        model_wf(m),
        !m.ended,
    ensures
        step_toks_ok(m, consume_step(m)),
    decreases m.input.len() - m.cursor, 1int,
{
    reveal(crate::model::consume_step);
    reveal(crate::model::consume_rest);
    let s = m.input;
    let len = s.len() as int;
    let st = consume_step(m);
    if m.cursor >= len {
        lemma_fin_toks_ok(m);
    } else if !m.within {
        lemma_ws_end_bounds(s, m.cursor);
        match dent_outcome(s, m.cursor, m.indents) {
            DentOutcome::Blank { e } => {
                let mb = StreamModel { cursor: e, ..m };
                lemma_rest_toks_ok(mb);
                assert forall|i: int| 0 <= i < st.toks.len() implies m.cursor <= (
                #[trigger] st.toks[i]).start && st.toks[i].end <= (if st.m.ended {
                    len + 1
                } else {
                    st.m.cursor
                }) by {
                    assert(mb.cursor <= st.toks[i].start);
                }
            },
            DentOutcome::Level { e } => {
                let mb = StreamModel { cursor: e, ..m };
                lemma_rest_toks_ok(mb);
                assert forall|i: int| 0 <= i < st.toks.len() implies m.cursor <= (
                #[trigger] st.toks[i]).start && st.toks[i].end <= (if st.m.ended {
                    len + 1
                } else {
                    st.m.cursor
                }) by {
                    assert(mb.cursor <= st.toks[i].start);
                }
            },
            DentOutcome::Indent { e, w } => {
                let tok = crate::model::span_tok(TokenType::INDENT, TokenType::INDENT, s, m.cursor, e);
                lemma_count_single(tok, TokenType::INDENT);
                lemma_count_single(tok, TokenType::DEDENT);
                lemma_count_single(tok, TokenType::ENDMARKER);
                assert forall|i: int| 0 <= i < st.toks.len() implies placed(
                    #[trigger] st.toks[i],
                    s,
                ) by {
                    assert(st.toks[i] == tok);
                }
                assert forall|i: int| 0 <= i < st.toks.len() implies m.cursor <= (
                #[trigger] st.toks[i]).start && st.toks[i].end <= st.m.cursor by {
                    assert(st.toks[i] == tok);
                }
            },
            DentOutcome::Dedent { e, k } => {
                let w = crate::model::width_fold(s, m.cursor, e, 0);
                lemma_width_fold_bounds(s, m.cursor, e, 0);
                assert(m.indents.len() >= 2) by {
                    if m.indents.len() == 1 {
                        assert(m.indents.last() == m.indents[0]);
                    }
                }
                lemma_dedent_scan_bounds(m.indents, w);
                let dt = crate::model::dedent_tok(e);
                assert forall|i: int| 0 <= i < st.toks.len() implies #[trigger] st.toks[i] == dt
                    by {}
                assert forall|i: int| 0 <= i < st.toks.len() implies placed(
                    #[trigger] st.toks[i],
                    s,
                ) by {
                    assert(st.toks[i] == dt);
                    assert(dt.contents =~= s.subrange(e, e));
                }
                lemma_count_all(st.toks, TokenType::DEDENT);
                lemma_count_zero(st.toks, TokenType::INDENT);
                lemma_count_zero(st.toks, TokenType::ENDMARKER);
            },
            DentOutcome::Mismatch { e, pops } => {
                let w = crate::model::width_fold(s, m.cursor, e, 0);
                lemma_width_fold_bounds(s, m.cursor, e, 0);
                assert(m.indents.len() >= 2) by {
                    if m.indents.len() == 1 {
                        assert(m.indents.last() == m.indents[0]);
                    }
                }
                lemma_dedent_scan_bounds(m.indents, w);
                let dt = crate::model::dedent_tok(e);
                assert forall|i: int| 0 <= i < st.toks.len() implies #[trigger] st.toks[i] == dt
                    by {}
                assert forall|i: int| 0 <= i < st.toks.len() implies placed(
                    #[trigger] st.toks[i],
                    s,
                ) by {
                    assert(st.toks[i] == dt);
                    assert(dt.contents =~= s.subrange(e, e));
                }
                lemma_count_zero(st.toks, TokenType::ENDMARKER);
            },
        }
    } else {
        lemma_rest_toks_ok(m);
    }
}

/// Everything a completed run guarantees, by induction over the steps.
#[verifier::rlimit(100)]
pub proof fn lemma_run_ok(m: StreamModel)
    requires
        model_wf(m),
    ensures
        ({
            let run = stream_run(m);
            &&& all_placed(run.toks, m.input)
            &&& bounded(run.toks, m.cursor, m.input.len() as int + 1)
            &&& monotone(run.toks)
            &&& m.ended ==> run.toks.len() == 0
            &&& (!m.ended && run.err is None) ==> {
                &&& count_kind(run.toks, TokenType::ENDMARKER) == 1
                &&& run.toks.len() >= 1
                &&& run.toks.last().kind == TokenType::ENDMARKER
                &&& count_kind(run.toks, TokenType::INDENT) - count_kind(
                    run.toks,
                    TokenType::DEDENT,
                ) == 1 - m.indents.len()
            }
            &&& run.err is Some ==> count_kind(run.toks, TokenType::ENDMARKER) == 0
        }),
    decreases m.input.len() - m.cursor, m.indents.len(), (if m.ended { 0int } else { 1int }),
{
    let run = stream_run(m);
    if m.ended {
    } else {
        let st = consume_step(m);
        lemma_step_progress(m);
        lemma_step_toks_ok(m);
        match st.err {
            Some(e) => {
                assert(run.toks == st.toks);
            },
            None => {
                let rest = stream_run(st.m);
                lemma_run_ok(st.m);
                assert(run.toks == st.toks + rest.toks);
                lemma_count_concat(st.toks, rest.toks, TokenType::ENDMARKER);
                lemma_count_concat(st.toks, rest.toks, TokenType::INDENT);
                lemma_count_concat(st.toks, rest.toks, TokenType::DEDENT);
                assert forall|i: int| 0 <= i < run.toks.len() implies placed(
                    #[trigger] run.toks[i],
                    m.input,
                ) by {
                    if i < st.toks.len() {
                        assert(run.toks[i] == st.toks[i]);
                    } else {
                        assert(run.toks[i] == rest.toks[i - st.toks.len()]);
                    }
                }
                assert forall|i: int| 0 <= i < run.toks.len() implies m.cursor <= (
                #[trigger] run.toks[i]).start && run.toks[i].end <= m.input.len() + 1 by {
                    if i < st.toks.len() {
                        assert(run.toks[i] == st.toks[i]);
                    } else {
                        assert(run.toks[i] == rest.toks[i - st.toks.len()]);
                    }
                }
                assert(monotone(run.toks)) by {
                    assert forall|i: int, j: int| 0 <= i && j == i + 1 && j < run.toks.len()
                        implies (#[trigger] run.toks[i]).end <= (#[trigger] run.toks[j]).start
                        by {
                        if i + 1 < st.toks.len() {
                            assert(run.toks[i] == st.toks[i]);
                            assert(run.toks[i + 1] == st.toks[i + 1]);
                        } else if i >= st.toks.len() {
                            assert(run.toks[i] == rest.toks[i - st.toks.len()]);
                            assert(run.toks[i + 1] == rest.toks[i + 1 - st.toks.len()]);
                        } else {
                            // the boundary between this step and the rest
                            assert(run.toks[i] == st.toks[i]);
                            assert(run.toks[i + 1] == rest.toks[0]);
                            assert(rest.toks.len() > 0);
                            assert(!st.m.ended);
                            assert(st.toks[i].end <= st.m.cursor);
                            assert(st.m.cursor <= rest.toks[0].start);
                        }
                    }
                }
                if run.err is None {
                    if st.m.ended {
                        assert(rest.toks.len() == 0);
                        assert(run.toks =~= st.toks);
                        assert(run.toks.last().kind == TokenType::ENDMARKER);
                    } else {
                        assert(rest.toks.len() >= 1);
                        assert(run.toks.last() == rest.toks.last());
                    }
                }
            },
        }
    }
}

/// An INDENT or DEDENT token.
pub open spec fn is_dent(k: TokenType) -> bool {
    k == TokenType::INDENT || k == TokenType::DEDENT
}

/// At most one indentation transition at a time: an INDENT is never
/// followed directly by another INDENT or a DEDENT, and a DEDENT never by
/// an INDENT.
pub open spec fn dents_ok(toks: Seq<TokenModel>) -> bool {
    forall|i: int, j: int|
        0 <= i && j == i + 1 && j < toks.len() ==> {
            &&& ((#[trigger] toks[i]).kind == TokenType::INDENT ==> !is_dent(
                (#[trigger] toks[j]).kind,
            ))
            &&& (toks[i].kind == TokenType::DEDENT ==> toks[j].kind != TokenType::INDENT)
        }
}

/// The dent shape of what one sub-lexer step emits.
#[verifier::rlimit(100)]
pub proof fn lemma_rest_dents(m: StreamModel)
    requires
        model_wf(m),
        !m.ended,
    ensures
        ({
            let st = consume_rest(m);
            &&& (st.err is None ==> st.toks.len() >= 1)
            &&& dents_ok(st.toks)
            &&& (m.within && st.toks.len() > 0 ==> !is_dent(st.toks[0].kind))
            &&& (st.err is None && st.toks.len() > 0 && is_dent(st.toks.last().kind)
                ==> st.m.within)
        }),
    decreases m.input.len() - m.cursor, 0int,
{
    reveal(crate::model::consume_rest);
    reveal(crate::model::consume_step);
    let s = m.input;
    let len = s.len() as int;
    let st = consume_rest(m);
    lemma_ws_end_bounds(s, m.cursor);
    let c = crate::model::ws_end(s, m.cursor);
    let m2 = StreamModel { cursor: c, ..m };
    if c + 2 <= len && s[c] == '\\' && s[c + 1] == '\n' {
        lemma_step_dents(StreamModel { cursor: c + 2, ..m2 });
    } else {
        match crate::model::num_token(s, c) {
            Some(_) => {},
            None => match op_match_at(s, c) {
                Some(_) => {},
                None => match crate::model::str_scan(s, c) {
                    StrScan::Tok { kind, end } => {},
                    StrScan::Fatal => {},
                    StrScan::NoTok => match crate::model::name_match(s, c) {
                        Some(_) => {},
                        None => match crate::model::comment_match(s, c) {
                            Some(_) => {},
                            None => {
                                if c >= len {
                                    lemma_fin_dents(m2);
                                }
                            },
                        },
                    },
                },
            },
        }
    }
}

/// The dent shape of the terminal drain.
#[verifier::rlimit(100)]
pub proof fn lemma_fin_dents(m: StreamModel)
    requires
        model_wf(m),
        m.cursor == m.input.len(),
    ensures
        fin_toks(m).len() >= 1,
        dents_ok(fin_toks(m)),
        m.within && fin_toks(m).len() > 0 ==> !is_dent(fin_toks(m)[0].kind),
        !is_dent(fin_toks(m).last().kind),
{
    let toks = fin_toks(m);
    lemma_fin_toks_shape(m);
    assert(dents_ok(toks)) by {
        assert forall|i: int, j: int| 0 <= i && j == i + 1 && j < toks.len() implies {
            &&& ((#[trigger] toks[i]).kind == TokenType::INDENT ==> !is_dent(
                (#[trigger] toks[j]).kind,
            ))
            &&& (toks[i].kind == TokenType::DEDENT ==> toks[j].kind != TokenType::INDENT)
        } by {
            assert(toks[i] == toks[i] && toks[j] == toks[j]);
        }
    }
}

/// The dent shape of what one whole driver step emits.
#[verifier::rlimit(100)]
pub proof fn lemma_step_dents(m: StreamModel)
    requires
        model_wf(m),
        !m.ended,
    ensures
        ({
            let st = consume_step(m);
            &&& (st.err is None ==> st.toks.len() >= 1)
            &&& dents_ok(st.toks)
            &&& (m.within && st.toks.len() > 0 ==> !is_dent(st.toks[0].kind))
            &&& (st.err is None && st.toks.len() > 0 && is_dent(st.toks.last().kind)
                ==> st.m.within)
        }),
    decreases m.input.len() - m.cursor, 1int,
{
    reveal(crate::model::consume_step);
    reveal(crate::model::consume_rest);
    let s = m.input;
    let len = s.len() as int;
    let st = consume_step(m);
    if m.cursor >= len {
        lemma_fin_dents(m);
    } else if !m.within {
        lemma_ws_end_bounds(s, m.cursor);
        match dent_outcome(s, m.cursor, m.indents) {
            DentOutcome::Blank { e } => {
                lemma_rest_dents(StreamModel { cursor: e, ..m });
            },
            DentOutcome::Level { e } => {
                lemma_rest_dents(StreamModel { cursor: e, ..m });
            },
            DentOutcome::Indent { e, w } => {},
            DentOutcome::Dedent { e, k } => {
                let wd = crate::model::width_fold(s, m.cursor, e, 0);
                lemma_width_fold_bounds(s, m.cursor, e, 0);
                assert(m.indents.len() >= 2) by {
                    if m.indents.len() == 1 {
                        assert(m.indents.last() == m.indents[0]);
                    }
                }
                lemma_dedent_scan_bounds(m.indents, wd);
                let dt = crate::model::dedent_tok(e);
                assert forall|i: int| 0 <= i < st.toks.len() implies #[trigger] st.toks[i] == dt
                    by {}
            },
            DentOutcome::Mismatch { e, pops } => {
                let dt = crate::model::dedent_tok(e);
                assert forall|i: int| 0 <= i < st.toks.len() implies #[trigger] st.toks[i] == dt
                    by {}
            },
        }
    } else {
        lemma_rest_dents(m);
    }
}

/// The dent shape of a whole run, by induction over the steps.
#[verifier::rlimit(100)]
pub proof fn lemma_run_dents(m: StreamModel)
    requires
        model_wf(m),
    ensures
        dents_ok(stream_run(m).toks),
        m.within && stream_run(m).toks.len() > 0 ==> !is_dent(stream_run(m).toks[0].kind),
    decreases m.input.len() - m.cursor, m.indents.len(), (if m.ended { 0int } else { 1int }),
{
    let run = stream_run(m);
    if m.ended {
    } else {
        let st = consume_step(m);
        lemma_step_progress(m);
        lemma_step_dents(m);
        match st.err {
            Some(e) => {
                assert(run.toks == st.toks);
            },
            None => {
                let rest = stream_run(st.m);
                lemma_run_dents(st.m);
                assert(run.toks == st.toks + rest.toks);
                assert(st.toks.len() >= 1);
                assert forall|i: int, j: int| 0 <= i && j == i + 1 && j < run.toks.len() implies {
                    &&& ((#[trigger] run.toks[i]).kind == TokenType::INDENT ==> !is_dent(
                        (#[trigger] run.toks[j]).kind,
                    ))
                    &&& (run.toks[i].kind == TokenType::DEDENT ==> run.toks[j].kind
                        != TokenType::INDENT)
                } by {
                    if j < st.toks.len() {
                        assert(run.toks[i] == st.toks[i]);
                        assert(run.toks[j] == st.toks[j]);
                    } else if i >= st.toks.len() {
                        assert(run.toks[i] == rest.toks[i - st.toks.len()]);
                        assert(run.toks[j] == rest.toks[j - st.toks.len()]);
                    } else {
                        // the boundary: a dent run ends the step only with
                        // the statement flag set, and a step that starts
                        // within a statement opens with no dent token
                        assert(run.toks[i] == st.toks[st.toks.len() - 1]);
                        assert(run.toks[j] == rest.toks[0]);
                        if is_dent(st.toks.last().kind) {
                            assert(st.m.within);
                            assert(!is_dent(rest.toks[0].kind));
                        }
                    }
                }
                assert(run.toks[0] == st.toks[0]);
            },
        }
    }
}

/// Between one token and the next there is at most one indentation
/// transition: no INDENT directly follows an INDENT or precedes a DEDENT,
/// and no DEDENT is directly followed by an INDENT.
pub proof fn law_single_dent_transition(input: Seq<char>)
    ensures
        dents_ok(tokens_of(input)),
{
    lemma_run_dents(crate::model::init_model(input));
}

/// The input woven back together from a token list: the gap before each
/// token, then its contents, and after the last token the rest of the
/// input.
pub open spec fn weave(s: Seq<char>, toks: Seq<TokenModel>, from: int) -> Seq<char>
    decreases toks.len(),
{
    if toks.len() == 0 {
        s.subrange(from, s.len() as int)
    } else {
        s.subrange(from, toks[0].start) + toks[0].contents + weave(
            s,
            toks.drop_first(),
            toks[0].end,
        )
    }
}

/// How many tokens from the front of the list lie inside the input; the
/// synthetic terminal tokens past the end follow them.
pub open spec fn real_prefix_len(toks: Seq<TokenModel>, len: int) -> int
    decreases toks.len(),
{
    if toks.len() == 0 {
        0
    } else if toks[0].end <= len {
        1 + real_prefix_len(toks.drop_first(), len)
    } else {
        0
    }
}

pub proof fn lemma_real_prefix_len_bounds(toks: Seq<TokenModel>, len: int)
    ensures
        0 <= real_prefix_len(toks, len) <= toks.len(),
        forall|i: int|
            0 <= i < real_prefix_len(toks, len) ==> (#[trigger] toks[i]).end <= len,
        real_prefix_len(toks, len) < toks.len() ==> toks[real_prefix_len(toks, len)].end > len,
    decreases toks.len(),
{
    if toks.len() > 0 && toks[0].end <= len {
        lemma_real_prefix_len_bounds(toks.drop_first(), len);
        assert forall|i: int| 0 <= i < real_prefix_len(toks, len) implies (
        #[trigger] toks[i]).end <= len by {
            if i > 0 {
                assert(toks[i] == toks.drop_first()[i - 1]);
            }
        }
        let k = real_prefix_len(toks, len);
        if k < toks.len() {
            assert(toks[k] == toks.drop_first()[k - 1]);
        }
    }
}

/// Weaving placed, monotone tokens back together restores the input from
/// `from` on.
pub proof fn lemma_weave(s: Seq<char>, toks: Seq<TokenModel>, from: int)
    requires
        all_placed(toks, s),
        monotone(toks),
        forall|i: int| 0 <= i < toks.len() ==> (#[trigger] toks[i]).end <= s.len(),
        0 <= from <= s.len(),
        toks.len() > 0 ==> from <= toks[0].start,
    ensures
        weave(s, toks, from) == s.subrange(from, s.len() as int),
    decreases toks.len(),
{
    if toks.len() > 0 {
        let t0 = toks[0];
        let rest = toks.drop_first();
        assert(placed(t0, s));
        assert forall|i: int| 0 <= i < rest.len() implies placed(#[trigger] rest[i], s)
            && rest[i].end <= s.len() by {
            assert(rest[i] == toks[i + 1]);
        }
        assert(monotone(rest)) by {
            assert forall|i: int, j: int| 0 <= i && j == i + 1 && j < rest.len() implies (
            #[trigger] rest[i]).end <= (#[trigger] rest[j]).start by {
                assert(rest[i] == toks[i + 1]);
                assert(rest[j] == toks[j + 1]);
            }
        }
        if rest.len() > 0 {
            assert(rest[0] == toks[1]);
            assert(t0.end <= toks[1].start);
        }
        lemma_weave(s, rest, t0.end);
        assert(weave(s, toks, from) =~= s.subrange(from, s.len() as int));
    }
}

/// The concatenation of the gaps between tokens and the token contents is
/// exactly the input: nothing is misplaced, invented or lost, but for the
/// synthetic terminal tokens, which stand past the end and follow every
/// token that lies inside the input.
pub proof fn law_coverage_concat(input: Seq<char>)
    ensures
        ({
            let toks = tokens_of(input);
            let k = real_prefix_len(toks, input.len() as int);
            &&& weave(input, toks.take(k), 0) == input
            &&& forall|i: int|
                real_prefix_len(toks, input.len() as int) <= i < toks.len()
                    ==> (#[trigger] toks[i]).end > input.len()
        }),
{
    let toks = tokens_of(input);
    let len = input.len() as int;
    let k = real_prefix_len(toks, len);
    lemma_run_ok(crate::model::init_model(input));
    lemma_real_prefix_len_bounds(toks, len);
    let kept = toks.take(k);
    assert forall|i: int| 0 <= i < kept.len() implies placed(#[trigger] kept[i], input)
        && kept[i].end <= input.len() by {
        assert(kept[i] == toks[i]);
    }
    assert(monotone(kept)) by {
        assert forall|i: int, j: int| 0 <= i && j == i + 1 && j < kept.len() implies (
        #[trigger] kept[i]).end <= (#[trigger] kept[j]).start by {
            assert(kept[i] == toks[i]);
            assert(kept[j] == toks[j]);
        }
    }
    if kept.len() > 0 {
        assert(kept[0] == toks[0]);
    }
    lemma_weave(input, kept, 0);
    assert(weave(input, kept, 0) =~= input);
    assert forall|i: int| k <= i < toks.len() implies (#[trigger] toks[i]).end > input.len()
        by {
        lemma_real_prefix_after(toks, len, i);
    }
}

/// Past the real prefix, every token stands past the end of the input:
/// once one token does, the monotone offsets keep every later one there.
pub proof fn lemma_real_prefix_after(toks: Seq<TokenModel>, len: int, i: int)
    requires
        monotone(toks),
        forall|j: int| 0 <= j < toks.len() ==> (#[trigger] toks[j]).start <= toks[j].end,
        real_prefix_len(toks, len) <= i < toks.len(),
    ensures
        toks[i].end > len,
    decreases i,
{
    let k = real_prefix_len(toks, len);
    lemma_real_prefix_len_bounds(toks, len);
    if i == k {
    } else {
        lemma_real_prefix_after(toks, len, i - 1);
        assert(toks[i - 1].end <= toks[i].start);
    }
}

/// Tokenizing never misquotes the input: every token of the stream carries
/// exactly the characters of its span, and the synthetic terminal tokens
/// stand just past the end.
pub proof fn law_coverage(input: Seq<char>)
    ensures
        all_placed(tokens_of(input), input),
        bounded(tokens_of(input), 0, input.len() as int + 1),
{
    lemma_run_ok(crate::model::init_model(input));
}

/// Offsets are monotone: a token never starts before the previous one ends.
pub proof fn law_monotonic_offsets(input: Seq<char>)
    ensures
        monotone(tokens_of(input)),
{
    lemma_run_ok(crate::model::init_model(input));
}

/// A stream that does not abort ends with exactly one ENDMARKER, in the
/// last position.
pub proof fn law_well_formed_stream(input: Seq<char>)
    ensures
        lex_error_of(input) is None ==> {
            &&& tokens_of(input).len() >= 1
            &&& tokens_of(input).last().kind == TokenType::ENDMARKER
            &&& count_kind(tokens_of(input), TokenType::ENDMARKER) == 1
        },
{
    lemma_run_ok(crate::model::init_model(input));
}

/// Across a stream that does not abort, INDENT and DEDENT tokens balance
/// exactly: every opened level is closed before the ENDMARKER.
pub proof fn law_balanced_dents(input: Seq<char>)
    ensures
        lex_error_of(input) is None ==> count_kind(tokens_of(input), TokenType::INDENT)
            == count_kind(tokens_of(input), TokenType::DEDENT),
{
    lemma_run_ok(crate::model::init_model(input));
}

} // verus!
