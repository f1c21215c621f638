use computor::ast::{Expr, Opcode};
use computor::error::EvalError;
use computor::number::Number;

fn num(n: i64) -> Expr {
    Expr::Number(Number::new(n))
}

fn frac(a: i64, b: i64) -> Expr {
    Expr::Number(Number::fraction(a, b).unwrap())
}

fn cx(a: i64, b: i64) -> Expr {
    Expr::Complex(Number::new(a), Number::new(b))
}

#[test]
fn numbers_in_lowest_terms() {
    assert_eq!(num(42).to_text(), "42");
    assert_eq!(num(-7).to_text(), "-7");
    assert_eq!(frac(2, 4).to_text(), "1/2");
    assert_eq!(frac(-6, 4).to_text(), "-3/2");
    assert_eq!(frac(4, 2).to_text(), "2");
    assert_eq!(num(0).to_text(), "0");
    assert_eq!(num(i64::MIN).to_text(), "-9223372036854775808");
}

#[test]
fn complex_with_sign() {
    assert_eq!(cx(1, 2).to_text(), "1 + 2i");
    assert_eq!(cx(1, -2).to_text(), "1 -2i");
    assert_eq!(Expr::Imaginary.to_text(), "i");
}

#[test]
fn matrix_rows_and_cells() {
    let m = Expr::Matrix(vec![vec![num(1), num(2)], vec![num(3), num(4)]]);
    assert_eq!(m.to_text(), "[ [1, 2] ; [3, 4] ]");
}

#[test]
fn operations_and_functions() {
    let e = Expr::Op(Box::new(Expr::Variable("x".to_string())), Opcode::Pow, Box::new(num(2)));
    assert_eq!(e.to_text(), "x ^ 2");
    let f = Expr::Function("f".to_string(), Box::new(num(3)));
    assert_eq!(f.to_text(), "f(3)");
    assert_eq!(Opcode::Prod.symbol(), "**");
    assert_eq!(Opcode::Sub.name(), "substract");
}

#[test]
fn error_messages() {
    assert_eq!(EvalError::DivisionByZero.to_text(), "Can't divide by 0");
    let e = EvalError::DimensionMismatch { expected: 2, found: 3 };
    assert_eq!(e.to_text(), "invalid dimensions: expected 2, found 3");
    let m = Expr::Matrix(vec![vec![num(1), num(2)], vec![num(3), num(4)]]);
    let d = Expr::Matrix(vec![vec![num(1), num(0)], vec![num(1), num(1)]]);
    let err = m.div(d).unwrap_err();
    assert_eq!(err.to_text(), "Can't divide by 0 at [1, 0]");
    let k = num(1).rem(Expr::Variable("x".to_string())).unwrap_err();
    assert_eq!(k.to_text(), "Can't modulo number with variable");
}

#[test]
fn every_failed_cell_on_its_own_line() {
    let m = Expr::Matrix(vec![vec![num(1), num(2)]]);
    let err = m.div(num(0)).unwrap_err();
    assert_eq!(err.to_text(), "Can't divide by 0 at [0, 0]\nCan't divide by 0 at [1, 0]");
}
