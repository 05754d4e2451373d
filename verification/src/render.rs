//! The printer.  `spec_render` is the exact fully parenthesized infix text
//! of a tree; `Expr::pretty_print` produces a `String` whose characters are
//! exactly that text.  No whitespace is inserted.

use vstd::prelude::*;
use vstd::string::StringExecFns;
use crate::ast::{op_char, Expr, Op};
use crate::numtext::{push_int_decimal, text_of_int};

verus! {

/// The infix rendering of a tree:
/// * a constant shows as `(value)`,
/// * a binary node as `(lhs op rhs)` without spaces,
/// * a conditional as `(condition?on_true:on_false)`.
pub open spec fn spec_render(e: Expr) -> Seq<char>
    decreases e,
{
    match e {
        Expr::Const { value } => seq!['('] + text_of_int(value as int) + seq![')'],
        Expr::BinOp { operator, lhs, rhs } => seq!['('] + spec_render(*lhs) + seq![
            op_char(operator),
        ] + spec_render(*rhs) + seq![')'],
        Expr::TriOp { condition, on_true, on_false } => seq!['('] + spec_render(*condition)
            + seq!['?'] + spec_render(*on_true) + seq![':'] + spec_render(*on_false) + seq![')'],
    }
}

impl Expr {
    /// Append the infix rendering of this tree to `out`.
    fn render_into(&self, out: &mut String)
        ensures
            final (out)@ == old(out)@ + spec_render(*self),
        decreases *self,
    {
        proof {
            reveal_strlit("(");
            reveal_strlit(")");
            reveal_strlit("+");
            reveal_strlit("-");
            reveal_strlit("*");
            reveal_strlit("/");
            reveal_strlit("?");
            reveal_strlit(":");
        }
        match self {
            Expr::Const { value } => {
                out.append("(");
                push_int_decimal(out, *value);
                out.append(")");
                assert(out@ =~= old(out)@ + spec_render(*self));
            },
            Expr::BinOp { operator, lhs, rhs } => {
                out.append("(");
                lhs.render_into(out);
                let op: &str = match operator {
                    Op::Add => "+",
                    Op::Sub => "-",
                    Op::Mul => "*",
                    Op::Div => "/",
                };
                assert(op@ =~= seq![op_char(*operator)]);
                out.append(op);
                rhs.render_into(out);
                out.append(")");
                assert(out@ =~= old(out)@ + spec_render(*self));
            },
            Expr::TriOp { condition, on_true, on_false } => {
                out.append("(");
                condition.render_into(out);
                out.append("?");
                on_true.render_into(out);
                out.append(":");
                on_false.render_into(out);
                out.append(")");
                assert(out@ =~= old(out)@ + spec_render(*self));
            },
        }
    }

    /// Render the tree as fully parenthesized infix text.  The returned
    /// string holds exactly the characters `spec_render` assigns to the tree.
    pub fn pretty_print(&self) -> (r: String)
        ensures
            r@ == spec_render(*self),
    {
        let mut out = String::new();
        self.render_into(&mut out);
        assert(out@ =~= spec_render(*self));
        out
    }
}

} // verus!
