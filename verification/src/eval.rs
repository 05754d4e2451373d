//! The evaluator.  `spec_eval` is the mathematical meaning of a tree;
//! `Expr::compute` is the executable evaluator, proved to return exactly
//! that meaning.
//!
//! Arithmetic is checked: a result outside the 64-bit signed range is the
//! explicit error `Overflow`, and division by zero is `DivisionByZero`.
//! Division truncates toward zero, as Rust's `/` does on signed integers.

use vstd::prelude::*;
use crate::ast::{Expr, Op};

verus! {

/// Why evaluating a tree can fail.
#[derive(Clone, Copy, Debug, PartialEq, Eq, Structural)]
pub enum EvalError {
    /// The right operand of `/` evaluated to zero.
    DivisionByZero,
    /// An intermediate result fell outside the 64-bit signed range.
    Overflow,
}

/// Truncating (round-toward-zero) integer division: what `/` computes on
/// Rust's signed integers.  Verus's own `/` on `int` rounds toward negative
/// infinity, so the negative cases are written out via absolute values.
pub open spec fn div_trunc(x: int, d: int) -> int
    recommends
        d != 0,
{
    if x == 0 {
        0
    } else if x > 0 && d > 0 {
        x / d
    } else if x < 0 && d < 0 {
        (x * -1) / (d * -1)
    } else if x < 0 {
        ((x * -1) / d) * -1
    } else {
        (x / (d * -1)) * -1
    }
}

/// `Ok` with the value when it fits in 64 signed bits, `Overflow` otherwise.
pub open spec fn clip_result(x: int) -> Result<i64, EvalError> {
    if i64::MIN <= x <= i64::MAX {
        Ok(x as i64)
    } else {
        Err(EvalError::Overflow)
    }
}

/// The value a binary operator yields on two already-evaluated operands.
pub open spec fn apply_op(op: Op, l: i64, r: i64) -> Result<i64, EvalError> {
    match op {
        Op::Add => clip_result(l + r),
        Op::Sub => clip_result(l - r),
        Op::Mul => clip_result(l * r),
        Op::Div => if r == 0 {
            Err(EvalError::DivisionByZero)
        } else {
            clip_result(div_trunc(l as int, r as int))
        },
    }
}

/// The meaning of a tree: the integer it evaluates to, or the first error
/// met walking it.  Operands are evaluated left before right; a conditional
/// evaluates its condition and then only the branch the condition selects.
pub open spec fn spec_eval(e: Expr) -> Result<i64, EvalError>
    decreases e,
{
    match e {
        Expr::Const { value } => Ok(value),
        Expr::BinOp { operator, lhs, rhs } => match spec_eval(*lhs) {
            Err(err) => Err(err),
            Ok(l) => match spec_eval(*rhs) {
                Err(err) => Err(err),
                Ok(r) => apply_op(operator, l, r),
            },
        },
        Expr::TriOp { condition, on_true, on_false } => match spec_eval(*condition) {
            Err(err) => Err(err),
            Ok(c) => if c != 0 {
                spec_eval(*on_true)
            } else {
                spec_eval(*on_false)
            },
        },
    }
}

impl Expr {
    /// Evaluate the tree.  Returns exactly the value `spec_eval` assigns to
    /// it, so `Ok` comes back if and only if no division by zero and no
    /// out-of-range intermediate result is met on the evaluated path.
    pub fn compute(&self) -> (r: Result<i64, EvalError>)
        ensures
            r == spec_eval(*self),
        decreases *self,
    {
        match self {
            Expr::Const { value } => Ok(*value),
            Expr::BinOp { operator, lhs, rhs } => {
                let l = match lhs.compute() {
                    Ok(v) => v,
                    Err(err) => {
                        return Err(err);
                    },
                };
                let r = match rhs.compute() {
                    Ok(v) => v,
                    Err(err) => {
                        return Err(err);
                    },
                };
                match operator {
                    Op::Add => match l.checked_add(r) {
                        Some(v) => Ok(v),
                        None => Err(EvalError::Overflow),
                    },
                    Op::Sub => match l.checked_sub(r) {
                        Some(v) => Ok(v),
                        None => Err(EvalError::Overflow),
                    },
                    Op::Mul => match l.checked_mul(r) {
                        Some(v) => Ok(v),
                        None => Err(EvalError::Overflow),
                    },
                    Op::Div => {
                        if r == 0 {
                            Err(EvalError::DivisionByZero)
                        } else {
                            match l.checked_div(r) {
                                Some(v) => Ok(v),
                                None => Err(EvalError::Overflow),
                            }
                        }
                    },
                }
            },
            Expr::TriOp { condition, on_true, on_false } => {
                let c = match condition.compute() {
                    Ok(v) => v,
                    Err(err) => {
                        return Err(err);
                    },
                };
                if c != 0 {
                    on_true.compute()
                } else {
                    on_false.compute()
                }
            },
        }
    }
}

} // verus!
