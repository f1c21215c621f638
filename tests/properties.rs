use computor::ast::{Expr, Opcode, Pow};
use computor::error::EvalError;
use computor::number::Number;
use computor::ops::apply;
use computor::solver::Solver;

fn num(n: i64) -> Expr {
    Expr::Number(Number::new(n))
}

fn cx(a: i64, b: i64) -> Expr {
    Expr::Complex(Number::new(a), Number::new(b))
}

fn scalars() -> Vec<Expr> {
    vec![
        num(3),
        num(-2),
        Expr::Number(Number::fraction(5, 7).unwrap()),
        cx(1, 2),
        cx(-4, 0),
        Expr::Imaginary,
    ]
}

fn copy(e: &Expr) -> Expr {
    e.copy()
}

#[test]
fn addition_and_multiplication_commute() {
    for x in scalars() {
        for y in scalars() {
            assert_eq!(copy(&x).add(copy(&y)).unwrap(), copy(&y).add(copy(&x)).unwrap());
            assert_eq!(copy(&x).mul(copy(&y)).unwrap(), copy(&y).mul(copy(&x)).unwrap());
        }
    }
}

#[test]
fn other_operators_do_not_commute() {
    assert_ne!(num(3).sub(num(-2)).unwrap(), num(-2).sub(num(3)).unwrap());
    assert_ne!(num(3).div(num(-2)).unwrap(), num(-2).div(num(3)).unwrap());
    assert_ne!(num(3).rem(num(-2)).unwrap(), num(-2).rem(num(3)).unwrap());
    assert_ne!(num(3).pow(num(-2)).unwrap(), num(-2).pow(num(3)).unwrap());
}

#[test]
fn zero_and_one_are_identities() {
    let mut values = scalars();
    values.push(Expr::Matrix(vec![vec![num(1), cx(2, 3)], vec![Expr::Imaginary, num(4)]]));
    for x in values {
        assert_eq!(copy(&x).add(num(0)).unwrap(), x);
        assert_eq!(copy(&x).mul(num(1)).unwrap(), x);
    }
}

#[test]
fn imaginary_is_the_unit_under_every_operator() {
    let ops = [Opcode::Add, Opcode::Sub, Opcode::Mul, Opcode::Div, Opcode::Rem, Opcode::Pow];
    for op in ops {
        for y in [num(2), cx(3, 1), Expr::Imaginary] {
            let a = apply(op, Expr::Imaginary, copy(&y));
            let b = apply(op, cx(0, 1), copy(&y));
            match (a, b) {
                (Ok(u), Ok(v)) => assert_eq!(u, v),
                (Err(_), Err(_)) => {},
                (u, v) => panic!("{:?} differs from {:?}", u, v),
            }
        }
    }
}

#[test]
fn division_and_remainder_by_zero() {
    for x in scalars() {
        assert!(matches!(copy(&x).div(num(0)), Err(EvalError::DivisionByZero)));
    }
    assert!(matches!(num(3).rem(num(0)), Err(EvalError::DivisionByZero)));
}

#[test]
fn evaluating_a_value_gives_it_back() {
    let solver = Solver::new();
    for x in scalars() {
        let v = solver.eval(copy(&x)).unwrap();
        assert_eq!(v, x);
    }
    let m = Expr::Matrix(vec![vec![num(1), cx(2, 3)], vec![Expr::Imaginary, num(4)]]);
    let v = solver.eval(copy(&m)).unwrap();
    assert_eq!(v, m);
}
