//! The parser: recursive descent over a whitespace-split token stream with
//! a shared cursor and one token of lookahead.
//!
//! `spec_parse_at` is the mathematical parser: given the token list and a
//! cursor, it returns the parsed tree and the cursor one past the tokens the
//! tree consumed, or the exact error the input deserves.  `load_from_terms`
//! is the executable parser, proved to return exactly that; `load` splits a
//! text and parses from its first token.
//!
//! Malformed input is reported, never recovered from:
//! * a missing token is `UnexpectedEof`,
//! * a constant token that is not an in-range signed decimal literal is
//!   `InvalidInteger`,
//! * an operator token that is not one single character of `+ - * /` is
//!   `InvalidOperator` (an empty token, from repeated spaces, is rejected
//!   this way too),
//! * any other tag token — including an empty one — is `UnknownTag`.
//!
//! Tokens after a complete tree are deliberately ignored: each encoding is
//! self-delimiting, so a parse stops exactly where the tree ends and what
//! follows cannot belong to it.

use vstd::prelude::*;
use crate::ast::{op_of_char, Expr, Op};
use crate::numtext::{int_token_value, is_i64_token, parse_i64_token};
use crate::tokens::{spec_tokenize, str_eq, tokenize, views_of};

verus! {

/// Why parsing a token stream can fail.
#[derive(Clone, Copy, Debug, PartialEq, Eq, Structural)]
pub enum ParseError {
    /// The stream ended where a token was still required.
    UnexpectedEof,
    /// The token after `C` is not a signed 64-bit decimal literal.
    InvalidInteger,
    /// The token after `BOp` is not one of the four operator characters.
    InvalidOperator,
    /// A tag token is none of `C`, `BOp`, `TOp`.
    UnknownTag,
}

/// The operator a token denotes: exactly one character, one of the four.
pub open spec fn op_of_token(t: Seq<char>) -> Option<Op> {
    if t.len() == 1 {
        op_of_char(t[0])
    } else {
        None
    }
}

/// Parse one tree from `toks` starting at cursor `i`.  Returns the tree and
/// the cursor one past its last token, or the error for the first flaw met.
///
/// A successful parse always moves the cursor forward and never past the
/// end; the two guards on the recursive results restate that so that the
/// termination measure is visibly decreasing, and are otherwise unreachable.
pub open spec fn spec_parse_at(toks: Seq<Seq<char>>, i: int) -> Result<(Expr, int), ParseError>
    decreases toks.len() - i,
{
    if i < 0 || i >= toks.len() {
        Err(ParseError::UnexpectedEof)
    } else if toks[i] == seq!['C'] {
        if i + 1 >= toks.len() {
            Err(ParseError::UnexpectedEof)
        } else if is_i64_token(toks[i + 1]) {
            Ok((Expr::Const { value: int_token_value(toks[i + 1]) as i64 }, i + 2))
        } else {
            Err(ParseError::InvalidInteger)
        }
    } else if toks[i] == seq!['B', 'O', 'p'] {
        if i + 1 >= toks.len() {
            Err(ParseError::UnexpectedEof)
        } else {
            match op_of_token(toks[i + 1]) {
                None => Err(ParseError::InvalidOperator),
                Some(operator) => match spec_parse_at(toks, i + 2) {
                    Err(err) => Err(err),
                    Ok((lhs, j)) => if !(i + 2 < j <= toks.len()) {
                        Err(ParseError::UnexpectedEof)
                    } else {
                        match spec_parse_at(toks, j) {
                            Err(err) => Err(err),
                            Ok((rhs, k)) => Ok(
                                (
                                    Expr::BinOp {
                                        operator,
                                        lhs: Box::new(lhs),
                                        rhs: Box::new(rhs),
                                    },
                                    k,
                                ),
                            ),
                        }
                    },
                },
            }
        }
    } else if toks[i] == seq!['T', 'O', 'p'] {
        match spec_parse_at(toks, i + 1) {
            Err(err) => Err(err),
            Ok((condition, j)) => if !(i + 1 < j <= toks.len()) {
                Err(ParseError::UnexpectedEof)
            } else {
                match spec_parse_at(toks, j) {
                    Err(err) => Err(err),
                    Ok((on_true, k)) => if !(j < k <= toks.len()) {
                        Err(ParseError::UnexpectedEof)
                    } else {
                        match spec_parse_at(toks, k) {
                            Err(err) => Err(err),
                            Ok((on_false, m)) => Ok(
                                (
                                    Expr::TriOp {
                                        condition: Box::new(condition),
                                        on_true: Box::new(on_true),
                                        on_false: Box::new(on_false),
                                    },
                                    m,
                                ),
                            ),
                        }
                    },
                }
            },
        }
    } else {
        Err(ParseError::UnknownTag)
    }
}

/// What decoding a whole text yields: split it on spaces, parse one tree
/// from the first token on.  Tokens after the tree are ignored.
pub open spec fn spec_decode(s: Seq<char>) -> Result<Expr, ParseError> {
    match spec_parse_at(spec_tokenize(s), 0) {
        Ok((e, _)) => Ok(e),
        Err(err) => Err(err),
    }
}

/// Parse one tree from the token stream, advancing the shared cursor past
/// the tokens the tree consumed.  Returns exactly what `spec_parse_at` says
/// for the starting cursor; on success the cursor moved forward and is at
/// most one past the last token.
pub fn load_from_terms(terms: &Vec<&str>, pos: &mut usize) -> (r: Result<Expr, ParseError>)
    ensures
        match r {
            Ok(e) => spec_parse_at(views_of(terms@), *old(pos) as int) == Ok::<(Expr, int),
                ParseError,
            >((e, *final (pos) as int)) && *old(pos) < *final (pos) <= terms.len(),
            Err(err) => spec_parse_at(views_of(terms@), *old(pos) as int) == Err::<(Expr, int),
                ParseError,
            >(err),
        },
    decreases terms.len() - *pos,
{
    let ghost tv = views_of(terms@);
    proof {
        reveal_strlit("C");
        reveal_strlit("BOp");
        reveal_strlit("TOp");
        assert("C"@ =~= seq!['C']);
        assert("BOp"@ =~= seq!['B', 'O', 'p']);
        assert("TOp"@ =~= seq!['T', 'O', 'p']);
    }
    let n = terms.len();
    let i = *pos;
    if i >= n {
        return Err(ParseError::UnexpectedEof);
    }
    let tag = terms[i];
    assert(tag@ == tv[i as int]);
    if str_eq(tag, "C") {
        if i + 1 >= n {
            return Err(ParseError::UnexpectedEof);
        }
        match parse_i64_token(terms[i + 1]) {
            Some(value) => {
                *pos = i + 2;
                assert(value == int_token_value(tv[i as int + 1]) as i64);
                Ok(Expr::Const { value })
            },
            None => Err(ParseError::InvalidInteger),
        }
    } else if str_eq(tag, "BOp") {
        if i + 1 >= n {
            return Err(ParseError::UnexpectedEof);
        }
        let ot = terms[i + 1];
        let opt: Option<Op> = if ot.unicode_len() == 1 {
            Op::from_char(ot.get_char(0))
        } else {
            None
        };
        assert(opt == op_of_token(tv[i as int + 1]));
        match opt {
            None => Err(ParseError::InvalidOperator),
            Some(operator) => {
                *pos = i + 2;
                let lhs = match load_from_terms(terms, pos) {
                    Ok(e) => e,
                    Err(err) => {
                        return Err(err);
                    },
                };
                let rhs = match load_from_terms(terms, pos) {
                    Ok(e) => e,
                    Err(err) => {
                        return Err(err);
                    },
                };
                Ok(Expr::BinOp { operator, lhs: Box::new(lhs), rhs: Box::new(rhs) })
            },
        }
    } else if str_eq(tag, "TOp") {
        *pos = i + 1;
        let condition = match load_from_terms(terms, pos) {
            Ok(e) => e,
            Err(err) => {
                return Err(err);
            },
        };
        let on_true = match load_from_terms(terms, pos) {
            Ok(e) => e,
            Err(err) => {
                return Err(err);
            },
        };
        let on_false = match load_from_terms(terms, pos) {
            Ok(e) => e,
            Err(err) => {
                return Err(err);
            },
        };
        Ok(
            Expr::TriOp {
                condition: Box::new(condition),
                on_true: Box::new(on_true),
                on_false: Box::new(on_false),
            },
        )
    } else {
        Err(ParseError::UnknownTag)
    }
}

/// Split a text on spaces and parse one tree from its first token.
/// Returns exactly `spec_decode(input@)`; tokens after the tree are
/// ignored, as the wire format's self-delimiting encodings allow.
pub fn load(input: &str) -> (r: Result<Expr, ParseError>)
    ensures
        r == spec_decode(input@),
{
    let terms = tokenize(input);
    let mut pos: usize = 0;
    match load_from_terms(&terms, &mut pos) {
        Ok(e) => Ok(e),
        Err(err) => Err(err),
    }
}

} // verus!
