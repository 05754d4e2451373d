use exprtree::ast::{Expr, Op};
use exprtree::eval::EvalError;
use exprtree::parse::{load, load_from_terms, ParseError};

fn c(value: i64) -> Expr {
    Expr::Const { value }
}

fn bin(operator: Op, lhs: Expr, rhs: Expr) -> Expr {
    Expr::BinOp { operator, lhs: Box::new(lhs), rhs: Box::new(rhs) }
}

fn tri(condition: Expr, on_true: Expr, on_false: Expr) -> Expr {
    Expr::TriOp {
        condition: Box::new(condition),
        on_true: Box::new(on_true),
        on_false: Box::new(on_false),
    }
}

#[test]
fn compute_addition() {
    assert_eq!(bin(Op::Add, c(2), c(2)).compute(), Ok(4));
}

#[test]
fn compute_multiplication() {
    assert_eq!(bin(Op::Mul, c(2), c(3)).compute(), Ok(6));
}

#[test]
fn compute_subtraction_and_division() {
    assert_eq!(bin(Op::Sub, c(2), c(5)).compute(), Ok(-3));
    assert_eq!(bin(Op::Div, c(9), c(2)).compute(), Ok(4));
}

#[test]
fn division_truncates_toward_zero() {
    assert_eq!(bin(Op::Div, c(-7), c(2)).compute(), Ok(-3));
    assert_eq!(bin(Op::Div, c(7), c(-2)).compute(), Ok(-3));
    assert_eq!(bin(Op::Div, c(-7), c(-2)).compute(), Ok(3));
}

#[test]
fn division_by_zero_fails() {
    assert_eq!(bin(Op::Div, c(5), c(0)).compute(), Err(EvalError::DivisionByZero));
}

#[test]
fn overflow_is_reported() {
    assert_eq!(bin(Op::Add, c(i64::MAX), c(1)).compute(), Err(EvalError::Overflow));
    assert_eq!(bin(Op::Sub, c(i64::MIN), c(1)).compute(), Err(EvalError::Overflow));
    assert_eq!(bin(Op::Mul, c(i64::MAX), c(2)).compute(), Err(EvalError::Overflow));
    assert_eq!(bin(Op::Div, c(i64::MIN), c(-1)).compute(), Err(EvalError::Overflow));
}

#[test]
fn conditional_short_circuits_on_zero() {
    // the true branch would divide by zero; it is never evaluated
    let poisoned = bin(Op::Div, c(1), c(0));
    assert_eq!(tri(c(0), poisoned, c(5)).compute(), Ok(5));
}

#[test]
fn conditional_short_circuits_on_nonzero() {
    let poisoned = bin(Op::Div, c(1), c(0));
    assert_eq!(tri(c(-3), c(7), poisoned).compute(), Ok(7));
}

#[test]
fn render_format() {
    assert_eq!(bin(Op::Add, c(2), c(2)).pretty_print(), "((2)+(2))");
}

#[test]
fn render_negative_and_conditional() {
    assert_eq!(c(-5).pretty_print(), "(-5)");
    assert_eq!(tri(c(1), c(2), c(-3)).pretty_print(), "((1)?(2):(-3))");
    assert_eq!(
        bin(Op::Div, bin(Op::Sub, c(10), c(4)), c(3)).pretty_print(),
        "(((10)-(4))/(3))"
    );
}

#[test]
fn encode_example() {
    assert_eq!(bin(Op::Add, c(2), c(2)).save(), "BOp + C 2 C 2 ");
}

#[test]
fn encode_leaf_and_conditional() {
    assert_eq!(c(42).save(), "C 42 ");
    assert_eq!(c(-1).save(), "C -1 ");
    assert_eq!(tri(c(1), c(2), c(3)).save(), "TOp C 1 C 2 C 3 ");
}

#[test]
fn decode_nested_input() {
    // condition (2+2)*3 = 12, non-zero, so the true branch Const{1} is taken
    let tree = load("TOp BOp * BOp + C 2 C 2 C 3 C 1 C 2").unwrap();
    assert_eq!(tree.compute(), Ok(1));
    assert_eq!(
        tree,
        tri(bin(Op::Mul, bin(Op::Add, c(2), c(2)), c(3)), c(1), c(2))
    );
}

#[test]
fn decode_leaf() {
    assert_eq!(load("C 7 "), Ok(c(7)));
    assert_eq!(load("C -12"), Ok(c(-12)));
    assert_eq!(load("C +5"), Ok(c(5)));
    assert_eq!(load("C 0007"), Ok(c(7)));
}

#[test]
fn decode_extreme_values() {
    assert_eq!(load("C 9223372036854775807"), Ok(c(i64::MAX)));
    assert_eq!(load("C -9223372036854775808"), Ok(c(i64::MIN)));
}

#[test]
fn round_trip_hand_built_trees() {
    let trees = vec![
        c(0),
        c(-1),
        c(i64::MIN),
        c(i64::MAX),
        bin(Op::Add, c(2), c(2)),
        bin(Op::Div, c(-7), c(2)),
        bin(Op::Sub, bin(Op::Mul, c(3), c(-4)), tri(c(1), c(2), c(3))),
        tri(bin(Op::Add, c(0), c(0)), c(1), tri(c(5), c(6), c(7))),
    ];
    for tree in trees {
        let reloaded = load(&tree.save()).unwrap();
        assert_eq!(reloaded, tree);
        assert_eq!(reloaded.compute(), tree.compute());
        assert_eq!(reloaded.pretty_print(), tree.pretty_print());
        assert_eq!(reloaded.save(), tree.save());
    }
}

#[test]
fn decode_invalid_integer() {
    assert_eq!(load("C abc"), Err(ParseError::InvalidInteger));
    assert_eq!(load("C 99999999999999999999"), Err(ParseError::InvalidInteger));
    assert_eq!(load("C -"), Err(ParseError::InvalidInteger));
}

#[test]
fn decode_missing_operand() {
    assert_eq!(load("BOp + C 2"), Err(ParseError::UnexpectedEof));
    assert_eq!(load("C"), Err(ParseError::UnexpectedEof));
    assert_eq!(load("TOp C 1 C 2"), Err(ParseError::UnexpectedEof));
}

#[test]
fn decode_invalid_operator() {
    assert_eq!(load("BOp % C 1 C 2"), Err(ParseError::InvalidOperator));
    assert_eq!(load("BOp ++ C 1 C 2"), Err(ParseError::InvalidOperator));
}

#[test]
fn decode_unknown_tag() {
    assert_eq!(load("X 1"), Err(ParseError::UnknownTag));
    assert_eq!(load(""), Err(ParseError::UnknownTag));
}

#[test]
fn decode_rejects_doubled_spaces() {
    // "C  2" splits into ["C", "", "2"]; the empty token is no integer
    assert_eq!(load("C  2"), Err(ParseError::InvalidInteger));
    // an empty token where a tag is expected is an unknown tag
    assert_eq!(load(" C 2"), Err(ParseError::UnknownTag));
}

#[test]
fn decode_ignores_trailing_tokens() {
    assert_eq!(load("C 2 C 3"), Ok(c(2)));
    assert_eq!(load("BOp + C 1 C 2 junk"), Ok(bin(Op::Add, c(1), c(2))));
}

#[test]
fn cursor_advances_per_tree() {
    let terms: Vec<&str> = vec!["C", "7", "C", "8"];
    let mut pos: usize = 0;
    assert_eq!(load_from_terms(&terms, &mut pos), Ok(c(7)));
    assert_eq!(pos, 2);
    assert_eq!(load_from_terms(&terms, &mut pos), Ok(c(8)));
    assert_eq!(pos, 4);
}

#[test]
fn operator_characters_round_trip() {
    for (op, ch) in [(Op::Add, '+'), (Op::Sub, '-'), (Op::Mul, '*'), (Op::Div, '/')] {
        assert_eq!(op.as_char(), ch);
        assert_eq!(Op::from_char(ch), Some(op));
    }
    assert_eq!(Op::from_char('%'), None);
}
