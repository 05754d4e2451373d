//! The serializer.  `spec_encode` is the exact prefix token stream of a
//! tree: every token is followed by one space, so each sub-encoding is
//! self-delimiting and children concatenate without extra separators.
//! `enc_tokens` is the same stream seen as a token list, and the two views
//! are proved to agree; the parser's round-trip proof rests on that.

use vstd::prelude::*;
use vstd::string::StringExecFns;
use crate::ast::{op_char, Expr, Op};
use crate::numtext::{lemma_int_text_no_space, push_int_decimal, text_of_int};
use crate::tokens::{spaced, token_ok, tokens_ok, lemma_spaced_append};

verus! {

/// The prefix token stream of a tree, as text:
/// * `Const { value }` writes `C value ` (a trailing space after the value),
/// * `BinOp` writes `BOp op ` then the encodings of `lhs` and `rhs`,
/// * `TriOp` writes `TOp ` then the encodings of its three children.
pub open spec fn spec_encode(e: Expr) -> Seq<char>
    decreases e,
{
    match e {
        Expr::Const { value } => seq!['C', ' '] + text_of_int(value as int) + seq![' '],
        Expr::BinOp { operator, lhs, rhs } => seq!['B', 'O', 'p', ' ', op_char(operator), ' ']
            + spec_encode(*lhs) + spec_encode(*rhs),
        Expr::TriOp { condition, on_true, on_false } => seq!['T', 'O', 'p', ' '] + spec_encode(
            *condition,
        ) + spec_encode(*on_true) + spec_encode(*on_false),
    }
}

/// The same stream as a list of tokens, tag first, children depth-first.
pub open spec fn enc_tokens(e: Expr) -> Seq<Seq<char>>
    decreases e,
{
    match e {
        Expr::Const { value } => seq![seq!['C'], text_of_int(value as int)],
        Expr::BinOp { operator, lhs, rhs } => seq![seq!['B', 'O', 'p'], seq![op_char(operator)]]
            + enc_tokens(*lhs) + enc_tokens(*rhs),
        Expr::TriOp { condition, on_true, on_false } => seq![seq!['T', 'O', 'p']] + enc_tokens(
            *condition,
        ) + enc_tokens(*on_true) + enc_tokens(*on_false),
    }
}

/// An operator's character is never a space.
pub proof fn lemma_op_char_not_space(op: Op)
    ensures
        op_char(op) != ' ',
{
}

/// The encoding of a tree is its token list with one space after each token.
pub proof fn lemma_encode_is_spaced_tokens(e: Expr)
    ensures
        spec_encode(e) == spaced(enc_tokens(e)),
    decreases e,
{
    match e {
        Expr::Const { value } => {
            assert(spaced(enc_tokens(e)) =~= seq!['C', ' '] + text_of_int(value as int)
                + seq![' ']) by {
                reveal_with_fuel(spaced, 4);
                assert(enc_tokens(e).skip(1) =~= seq![text_of_int(value as int)]);
                assert(enc_tokens(e).skip(1).skip(1) =~= Seq::<Seq<char>>::empty());
            }
        },
        Expr::BinOp { operator, lhs, rhs } => {
            lemma_encode_is_spaced_tokens(*lhs);
            lemma_encode_is_spaced_tokens(*rhs);
            let head = seq![seq!['B', 'O', 'p'], seq![op_char(operator)]];
            assert(enc_tokens(e) =~= (head + enc_tokens(*lhs)) + enc_tokens(*rhs));
            lemma_spaced_append(head + enc_tokens(*lhs), enc_tokens(*rhs));
            lemma_spaced_append(head, enc_tokens(*lhs));
            assert(spaced(head) =~= seq!['B', 'O', 'p', ' ', op_char(operator), ' ']) by {
                reveal_with_fuel(spaced, 4);
                assert(head.skip(1) =~= seq![seq![op_char(operator)]]);
                assert(head.skip(1).skip(1) =~= Seq::<Seq<char>>::empty());
            }
            assert(spec_encode(e) =~= spaced(enc_tokens(e)));
        },
        Expr::TriOp { condition, on_true, on_false } => {
            lemma_encode_is_spaced_tokens(*condition);
            lemma_encode_is_spaced_tokens(*on_true);
            lemma_encode_is_spaced_tokens(*on_false);
            let head = seq![seq!['T', 'O', 'p']];
            assert(enc_tokens(e) =~= ((head + enc_tokens(*condition)) + enc_tokens(*on_true))
                + enc_tokens(*on_false));
            lemma_spaced_append(
                (head + enc_tokens(*condition)) + enc_tokens(*on_true),
                enc_tokens(*on_false),
            );
            lemma_spaced_append(head + enc_tokens(*condition), enc_tokens(*on_true));
            lemma_spaced_append(head, enc_tokens(*condition));
            assert(spaced(head) =~= seq!['T', 'O', 'p', ' ']) by {
                reveal_with_fuel(spaced, 4);
                assert(head.skip(1) =~= Seq::<Seq<char>>::empty());
            }
            assert(spec_encode(e) =~= spaced(enc_tokens(e)));
        },
    }
}

/// A tree's token list is non-empty and every token in it is a wire token:
/// non-empty and free of spaces.
pub proof fn lemma_enc_tokens_ok(e: Expr)
    ensures
        enc_tokens(e).len() >= 1,
        tokens_ok(enc_tokens(e)),
    decreases e,
{
    match e {
        Expr::Const { value } => {
            lemma_int_text_no_space(value as int);
            assert(token_ok(seq!['C']));
            assert(token_ok(text_of_int(value as int)));
        },
        Expr::BinOp { operator, lhs, rhs } => {
            lemma_enc_tokens_ok(*lhs);
            lemma_enc_tokens_ok(*rhs);
            lemma_op_char_not_space(operator);
            assert(token_ok(seq!['B', 'O', 'p']));
            assert(token_ok(seq![op_char(operator)]));
        },
        Expr::TriOp { condition, on_true, on_false } => {
            lemma_enc_tokens_ok(*condition);
            lemma_enc_tokens_ok(*on_true);
            lemma_enc_tokens_ok(*on_false);
            assert(token_ok(seq!['T', 'O', 'p']));
        },
    }
}

impl Expr {
    /// Append the prefix token stream of this tree to `out`.
    fn encode_into(&self, out: &mut String)
        ensures
            final (out)@ == old(out)@ + spec_encode(*self),
        decreases *self,
    {
        proof {
            reveal_strlit("C ");
            reveal_strlit("BOp ");
            reveal_strlit("TOp ");
            reveal_strlit("+ ");
            reveal_strlit("- ");
            reveal_strlit("* ");
            reveal_strlit("/ ");
            reveal_strlit(" ");
        }
        match self {
            Expr::Const { value } => {
                out.append("C ");
                push_int_decimal(out, *value);
                out.append(" ");
                assert(out@ =~= old(out)@ + spec_encode(*self));
            },
            Expr::BinOp { operator, lhs, rhs } => {
                out.append("BOp ");
                let op: &str = match operator {
                    Op::Add => "+ ",
                    Op::Sub => "- ",
                    Op::Mul => "* ",
                    Op::Div => "/ ",
                };
                assert(op@ =~= seq![op_char(*operator), ' ']);
                out.append(op);
                lhs.encode_into(out);
                rhs.encode_into(out);
                assert(out@ =~= old(out)@ + spec_encode(*self));
            },
            Expr::TriOp { condition, on_true, on_false } => {
                out.append("TOp ");
                condition.encode_into(out);
                on_true.encode_into(out);
                on_false.encode_into(out);
                assert(out@ =~= old(out)@ + spec_encode(*self));
            },
        }
    }

    /// Write the tree as its prefix token stream.  The returned string holds
    /// exactly the characters `spec_encode` assigns to the tree.
    pub fn save(&self) -> (r: String)
        ensures
            r@ == spec_encode(*self),
    {
        let mut out = String::new();
        self.encode_into(&mut out);
        assert(out@ =~= spec_encode(*self));
        out
    }
}

} // verus!
