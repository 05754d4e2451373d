//! The laws of the engine, stated over the mathematical models and proved
//! for every tree.
//!
//! * `lemma_round_trip`: decoding an encoded tree yields the tree itself,
//!   structurally equal — so the decoded tree evaluates, renders and
//!   re-encodes exactly as the original does.
//! * `lemma_conditional_short_circuit`: a conditional's value is the value
//!   of the branch its condition selects, whatever the other branch would
//!   have done — even if evaluating it would fail.

use vstd::prelude::*;
use crate::ast::{op_char, op_of_char, Expr, Op};
use crate::encode::{enc_tokens, lemma_enc_tokens_ok, lemma_encode_is_spaced_tokens, spec_encode};
use crate::eval::{spec_eval, EvalError};
use crate::numtext::{lemma_int_text_round_trip, text_of_int};
use crate::parse::{spec_decode, spec_parse_at, ParseError};
use crate::tokens::{lemma_tokenize_units, spaced, spec_tokenize};

verus! {

/// A single operator character always reads back as its operator.
pub proof fn lemma_op_char_round_trip(op: Op)
    ensures
        op_of_char(op_char(op)) == Some(op),
{
}

/// Parsing from the start of a tree's token list inside any larger token
/// stream succeeds, yields that tree, and consumes exactly its tokens.
proof fn lemma_parse_enc_tokens(e: Expr, toks: Seq<Seq<char>>, i: int)
    requires
        0 <= i,
        i + enc_tokens(e).len() <= toks.len(),
        toks.subrange(i, i + enc_tokens(e).len() as int) == enc_tokens(e),
    ensures
        spec_parse_at(toks, i) == Ok::<(Expr, int), ParseError>(
            (e, i + enc_tokens(e).len() as int),
        ),
    decreases e,
{
    let ec = enc_tokens(e);
    assert(forall|k: int|
        0 <= k < ec.len() ==> toks[i + k] == #[trigger] ec[k]) by {
        assert(forall|k: int|
            0 <= k < ec.len() ==> toks.subrange(i, i + ec.len() as int)[k] == #[trigger] ec[k]);
    }
    match e {
        Expr::Const { value } => {
            assert(toks[i + 0] == ec[0] && ec[0] == seq!['C']);
            assert(toks[i + 1] == ec[1] && ec[1] == text_of_int(value as int));
            lemma_int_text_round_trip(value as int);
            assert(spec_parse_at(toks, i) == Ok::<(Expr, int), ParseError>((e, i + 2)));
        },
        Expr::BinOp { operator, lhs, rhs } => {
            let lt = enc_tokens(*lhs);
            let rt = enc_tokens(*rhs);
            lemma_enc_tokens_ok(*lhs);
            lemma_enc_tokens_ok(*rhs);
            assert(toks[i + 0] == ec[0] && ec[0] == seq!['B', 'O', 'p']);
            assert(toks[i + 1] == ec[1] && ec[1] == seq![op_char(operator)]);
            assert(toks[i] == seq!['B', 'O', 'p']);
            assert(toks[i] != seq!['C']);
            lemma_op_char_round_trip(operator);
            assert(toks.subrange(i + 2, i + 2 + lt.len() as int) =~= lt) by {
                assert(forall|k: int| 0 <= k < lt.len() ==> #[trigger] lt[k] == ec[2 + k]);
                assert(forall|k: int|
                    0 <= k < lt.len() ==> toks[i + (2 + k)] == #[trigger] ec[2 + k]);
            }
            lemma_parse_enc_tokens(*lhs, toks, i + 2);
            let j = i + 2 + lt.len() as int;
            assert(toks.subrange(j, j + rt.len() as int) =~= rt) by {
                assert(forall|k: int|
                    0 <= k < rt.len() ==> #[trigger] rt[k] == ec[2 + lt.len() + k]);
                assert(forall|k: int|
                    0 <= k < rt.len() ==> toks[i + (2 + lt.len() + k)] == #[trigger] ec[2
                        + lt.len() + k]);
            }
            lemma_parse_enc_tokens(*rhs, toks, j);
            let k = j + rt.len() as int;
            assert(k == i + ec.len());
            assert((Expr::BinOp { operator, lhs: Box::new(*lhs), rhs: Box::new(*rhs) }) == e);
            assert(spec_parse_at(toks, i) == Ok::<(Expr, int), ParseError>((e, k)));
        },
        Expr::TriOp { condition, on_true, on_false } => {
            let ct = enc_tokens(*condition);
            let tt = enc_tokens(*on_true);
            let ft = enc_tokens(*on_false);
            lemma_enc_tokens_ok(*condition);
            lemma_enc_tokens_ok(*on_true);
            lemma_enc_tokens_ok(*on_false);
            assert(toks[i + 0] == ec[0] && ec[0] == seq!['T', 'O', 'p']);
            assert(toks[i] == seq!['T', 'O', 'p']);
            assert(toks[i] != seq!['C']);
            assert(toks[i] != seq!['B', 'O', 'p']);
            assert(toks.subrange(i + 1, i + 1 + ct.len() as int) =~= ct) by {
                assert(forall|k: int| 0 <= k < ct.len() ==> #[trigger] ct[k] == ec[1 + k]);
                assert(forall|k: int|
                    0 <= k < ct.len() ==> toks[i + (1 + k)] == #[trigger] ec[1 + k]);
            }
            lemma_parse_enc_tokens(*condition, toks, i + 1);
            let j = i + 1 + ct.len() as int;
            assert(toks.subrange(j, j + tt.len() as int) =~= tt) by {
                assert(forall|k: int|
                    0 <= k < tt.len() ==> #[trigger] tt[k] == ec[1 + ct.len() + k]);
                assert(forall|k: int|
                    0 <= k < tt.len() ==> toks[i + (1 + ct.len() + k)] == #[trigger] ec[1
                        + ct.len() + k]);
            }
            lemma_parse_enc_tokens(*on_true, toks, j);
            let k = j + tt.len() as int;
            assert(toks.subrange(k, k + ft.len() as int) =~= ft) by {
                assert(forall|k2: int|
                    0 <= k2 < ft.len() ==> #[trigger] ft[k2] == ec[1 + ct.len() + tt.len() + k2]);
                assert(forall|k2: int|
                    0 <= k2 < ft.len() ==> toks[i + (1 + ct.len() + tt.len() + k2)] == #[trigger] ec[
                        1 + ct.len() + tt.len() + k2]);
            }
            lemma_parse_enc_tokens(*on_false, toks, k);
            let m = k + ft.len() as int;
            assert(m == i + ec.len());
            assert((Expr::TriOp {
                condition: Box::new(*condition),
                on_true: Box::new(*on_true),
                on_false: Box::new(*on_false),
            }) == e);
            assert(spec_parse_at(toks, i) == Ok::<(Expr, int), ParseError>((e, m)));
        },
    }
}

/// Law: the codec round-trips.  Decoding the encoding of any tree succeeds
/// and returns a structurally equal tree — which therefore evaluates,
/// renders and re-encodes exactly as the original does.
pub proof fn lemma_round_trip(e: Expr)
    ensures
        spec_decode(spec_encode(e)) == Ok::<Expr, ParseError>(e),
{
    lemma_encode_is_spaced_tokens(e);
    lemma_enc_tokens_ok(e);
    lemma_tokenize_units(enc_tokens(e), Seq::empty());
    assert(spec_encode(e) =~= spaced(enc_tokens(e)) + Seq::empty());
    let toks = enc_tokens(e) + seq![Seq::<char>::empty()];
    assert(spec_tokenize(spec_encode(e)) == enc_tokens(e) + spec_tokenize(Seq::empty()));
    assert(spec_tokenize(Seq::empty()) == seq![Seq::<char>::empty()]);
    assert(spec_tokenize(spec_encode(e)) =~= toks);
    assert(toks.subrange(0, enc_tokens(e).len() as int) =~= enc_tokens(e));
    lemma_parse_enc_tokens(e, toks, 0);
}

/// Law: a conditional short-circuits.  When the condition evaluates to
/// zero, the whole conditional evaluates exactly as its `on_false` branch,
/// whatever `on_true` is — even a tree whose evaluation would fail; and
/// symmetrically for a non-zero condition.
pub proof fn lemma_conditional_short_circuit(condition: Expr, on_true: Expr, on_false: Expr)
    ensures
        spec_eval(condition) == Ok::<i64, EvalError>(0) ==> spec_eval(
            (Expr::TriOp {
                condition: Box::new(condition),
                on_true: Box::new(on_true),
                on_false: Box::new(on_false),
            }),
        ) == spec_eval(on_false),
        (spec_eval(condition) matches Ok(c) && c != 0) ==> spec_eval(
            (Expr::TriOp {
                condition: Box::new(condition),
                on_true: Box::new(on_true),
                on_false: Box::new(on_false),
            }),
        ) == spec_eval(on_true),
{
}

} // verus!
