//! The expression tree: a leaf constant, a binary arithmetic node, or a
//! ternary conditional node.  Trees are immutable after construction and
//! every child is exclusively owned by its parent.

use vstd::prelude::*;

verus! {

/// The closed set of binary operators.  Keeping this an enum (rather than a
/// bare character) makes an invalid operator unrepresentable: it is rejected
/// when a tree is parsed, never discovered during evaluation.
#[derive(Clone, Copy, Debug, PartialEq, Eq, Structural)]
pub enum Op {
    Add,
    Sub,
    Mul,
    Div,
}

/// One node of an expression tree.
///
/// * `Const` holds one 64-bit signed integer.
/// * `BinOp` applies `operator` to the values of `lhs` and `rhs`.
/// * `TriOp` evaluates `condition` and picks `on_true` when it is non-zero,
///   `on_false` when it is zero.
#[derive(Debug, PartialEq, Eq)]
pub enum Expr {
    Const { value: i64 },
    BinOp { operator: Op, lhs: Box<Expr>, rhs: Box<Expr> },
    TriOp { condition: Box<Expr>, on_true: Box<Expr>, on_false: Box<Expr> },
}

/// The character an operator shows in rendered and encoded text.
pub open spec fn op_char(op: Op) -> char {
    match op {
        Op::Add => '+',
        Op::Sub => '-',
        Op::Mul => '*',
        Op::Div => '/',
    }
}

/// The operator written with a given character, if any.
pub open spec fn op_of_char(c: char) -> Option<Op> {
    if c == '+' {
        Some(Op::Add)
    } else if c == '-' {
        Some(Op::Sub)
    } else if c == '*' {
        Some(Op::Mul)
    } else if c == '/' {
        Some(Op::Div)
    } else {
        None
    }
}

impl Op {
    /// The character this operator shows in rendered and encoded text.
    pub fn as_char(self) -> (c: char)
        ensures
            c == op_char(self),
    {
        match self {
            Op::Add => '+',
            Op::Sub => '-',
            Op::Mul => '*',
            Op::Div => '/',
        }
    }

    /// The operator written with character `c`, if `c` is one of the four.
    pub fn from_char(c: char) -> (r: Option<Op>)
        ensures
            r == op_of_char(c),
    {
        if c == '+' {
            Some(Op::Add)
        } else if c == '-' {
            Some(Op::Sub)
        } else if c == '*' {
            Some(Op::Mul)
        } else if c == '/' {
            Some(Op::Div)
        } else {
            None
        }
    }
}

} // verus!
