//! The original evaluation scenarios: each expression text is parsed by the
//! library and the resulting tree is folded to an `f64` here, outside the
//! verified core, with IEEE-754 semantics.

use rcalc::lex::UNKNOWN_SYMBOL;
use rcalc::parse::{parse, CalcErr, Expr, Operator, UNEXPECTED_TOKEN};

fn fold(e: Expr) -> f64 {
    match e {
        Expr::Num(lit) => lit.into_iter().collect::<String>().parse::<f64>().unwrap(),
        Expr::Unary(Operator::Neg, x) => -fold(*x),
        Expr::Unary(_, x) => fold(*x),
        Expr::Binary(Operator::Add, x, y) => fold(*x) + fold(*y),
        Expr::Binary(Operator::Sub, x, y) | Expr::Binary(Operator::Neg, x, y) => {
            fold(*x) - fold(*y)
        }
        Expr::Binary(Operator::Mul, x, y) => fold(*x) * fold(*y),
        Expr::Binary(Operator::Div, x, y) => fold(*x) / fold(*y),
        Expr::Binary(Operator::Mod, x, y) => fold(*x) % fold(*y),
        Expr::Binary(Operator::Pow, x, y) => fold(*x).powf(fold(*y)),
    }
}

fn eval(input: &str) -> Result<f64, CalcErr> {
    Ok(fold(parse(input)?))
}

#[test]
fn num_is_parsed() {
    assert_eq!(1.0, eval("1.0").unwrap());
}

#[test]
fn mul() {
    assert_eq!(15.0, eval("3 * 5").unwrap());
}

#[test]
fn modulus() {
    assert_eq!(1.0, eval("1 % 2").unwrap());
    assert_eq!(0.0, eval("4 % 2").unwrap());
    assert_eq!(2.0, eval("8 % 3").unwrap());
    assert_eq!(4.0, eval("11 % 7").unwrap());
    assert_eq!(2.0, eval("8 % 3").unwrap());
}

#[test]
fn add() {
    assert_eq!(9.0, eval("2 + 7").unwrap());
}

#[test]
fn sub() {
    assert_eq!(10.0, eval("11 - 1").unwrap());
}

#[test]
fn pow() {
    assert_eq!(25.0, eval("5^2").unwrap());
    assert_eq!(3.0, eval("9^0.5").unwrap());
}

#[test]
fn double_neg() {
    assert_eq!(2.0, eval("1--1").unwrap());
}

#[test]
fn chained_add() {
    assert_eq!(3.0, eval("1+1+1").unwrap());
}

#[test]
fn paren_before_add() {
    assert_eq!(0.3125, eval("(1+0.25)*0.25").unwrap());
    assert_eq!(0.66, eval("1.2*(0.3+0.25)").unwrap());
}

#[test]
fn paren_before_mul() {
    assert_eq!(12.0, eval("2 * (5 + 1)").unwrap());
    assert_eq!(11.0, eval("(2 * 5) + 1").unwrap());
}

#[test]
fn mul_before_add() {
    assert_eq!(14.0, eval("4 * 3 + 2").unwrap());
    assert_eq!(14.0, eval("2 + 4 * 3").unwrap());
}

#[test]
fn neg_before_add() {
    assert_eq!(0.0, eval("-5 + 5").unwrap());
    assert_eq!(-10.0, eval("-(5 + 5)").unwrap());
}

#[test]
fn pow_before_all() {
    assert_eq!(-25.0, eval("-5^2").unwrap());
    assert_eq!(37.0, eval("6^2+1").unwrap());
    assert_eq!(200.0, eval("2*10^2").unwrap());
    assert_eq!(2.0, eval("2^2/2").unwrap());
}

#[test]
fn is_left_associative() {
    assert_eq!(1.0, eval("5 * 2 % 3").unwrap());
    assert_eq!(9.0, eval("6 / 2 * 3").unwrap())
}

#[test]
fn unexpected_token_is_rejected() {
    assert_eq!(Err(CalcErr::Lex((7, UNEXPECTED_TOKEN))), eval("1 - 5 */ 5"));
    assert_eq!(Err(CalcErr::Lex((1, UNEXPECTED_TOKEN))), eval("2()"));
    assert_eq!(Err(CalcErr::Lex((3, UNEXPECTED_TOKEN))), eval("2*()"));
}

#[test]
fn incomplete_expr_is_identified() {
    assert_eq!(Err(CalcErr::Incomplete), eval("2 * "));
    assert_eq!(Err(CalcErr::Incomplete), eval("2 * ("));
    assert_eq!(Err(CalcErr::Incomplete), eval("2 * (5+2"));
    assert_eq!(Ok(14.0), eval("2 * (5+2)"));
}

#[test]
fn unknown_symbol_is_rejected() {
    assert_eq!(Err(CalcErr::Lex((4, UNKNOWN_SYMBOL))), eval("2 * &"));
    assert_eq!(Err(CalcErr::Lex((6, UNKNOWN_SYMBOL))), eval("2 * (1a"));
}

#[test]
fn empty_input_is_incomplete() {
    assert_eq!(Err(CalcErr::Incomplete), eval(""));
    assert_eq!(Err(CalcErr::Incomplete), eval("   "));
}

#[test]
fn evaluation_is_deterministic() {
    assert_eq!(eval("2 * (5+2)"), eval("2 * (5+2)"));
    assert_eq!(eval("1 - 5 */ 5"), eval("1 - 5 */ 5"));
    assert_eq!(eval("2 * ("), eval("2 * ("));
}

#[test]
fn dot_literals() {
    assert_eq!(5.0, eval("5.").unwrap());
    assert_eq!(0.5, eval(".5").unwrap());
    assert_eq!(Err(CalcErr::Lex((0, UNKNOWN_SYMBOL))), eval("."));
    assert_eq!(Err(CalcErr::Lex((2, UNEXPECTED_TOKEN))), eval("5..2"));
}

#[test]
fn exponent_notation_is_rejected() {
    assert_eq!(Err(CalcErr::Lex((1, UNKNOWN_SYMBOL))), eval("1e10"));
}

#[test]
fn unicode_whitespace_is_skipped() {
    assert_eq!(3.0, eval("1\u{00A0}+\u{2003}2").unwrap());
    assert_eq!(Err(CalcErr::Lex((4, UNKNOWN_SYMBOL))), eval("1 + \u{00B2}"));
}

#[test]
fn division_by_zero_is_ieee() {
    assert_eq!(f64::INFINITY, eval("1/0").unwrap());
    assert!(eval("0/0").unwrap().is_nan());
    assert!(eval("(0-2)^0.5").unwrap().is_nan());
}
