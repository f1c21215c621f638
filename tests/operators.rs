use computor::ast::{Expr, Kind, Opcode, Pow};
use computor::error::EvalError;
use computor::number::Number;
use computor::ops::{apply, mul_reduce_simple, sub_reduce_simple};

fn num(n: i64) -> Expr {
    Expr::Number(Number::new(n))
}

fn frac(a: i64, b: i64) -> Expr {
    Expr::Number(Number::fraction(a, b).unwrap())
}

fn cx(a: i64, b: i64) -> Expr {
    Expr::Complex(Number::new(a), Number::new(b))
}

fn var(s: &str) -> Expr {
    Expr::Variable(s.to_string())
}

fn op(a: Expr, o: Opcode, b: Expr) -> Expr {
    Expr::Op(Box::new(a), o, Box::new(b))
}

fn is_number(e: &Expr, n: i64) -> bool {
    match e {
        Expr::Number(x) => x.eq_value(&Number::new(n)),
        _ => false,
    }
}

fn is_variable(e: &Expr, name: &str) -> bool {
    match e {
        Expr::Variable(s) => s == name,
        _ => false,
    }
}

#[test]
fn add_number_complex_both_orders() {
    assert_eq!(num(2).add(cx(3, 4)).unwrap(), cx(5, 4));
    assert_eq!(cx(3, 4).add(num(2)).unwrap(), cx(5, 4));
}

#[test]
fn add_imaginary_and_number() {
    let r = Expr::Imaginary.add(num(5)).unwrap();
    assert!(matches!(r, Expr::Complex(_, _)));
    assert_eq!(r, cx(5, 1));
    assert_eq!(num(5).add(Expr::Imaginary).unwrap(), cx(5, 1));
}

#[test]
fn sub_is_not_commutative() {
    assert_eq!(num(1).sub(num(2)).unwrap(), num(-1));
    assert_eq!(num(2).sub(num(1)).unwrap(), num(1));
    assert_ne!(cx(1, 1).sub(num(3)).unwrap(), num(3).sub(cx(1, 1)).unwrap());
}

#[test]
fn div_rem_pow_are_not_commutative() {
    assert_eq!(num(1).div(num(2)).unwrap(), frac(1, 2));
    assert_eq!(num(2).div(num(1)).unwrap(), num(2));
    assert_eq!(num(7).rem(num(3)).unwrap(), num(1));
    assert_eq!(num(3).rem(num(7)).unwrap(), num(3));
    assert_eq!(num(2).pow(num(3)).unwrap(), num(8));
    assert_eq!(num(3).pow(num(2)).unwrap(), num(9));
}

#[test]
fn imaginary_squared_is_minus_one() {
    assert_eq!(Expr::Imaginary.mul(Expr::Imaginary).unwrap(), num(-1));
}

#[test]
fn complex_products_and_quotients() {
    assert_eq!(cx(1, 2).mul(cx(3, 4)).unwrap(), cx(-5, 10));
    let q = cx(1, 2).div(cx(3, 4)).unwrap();
    assert_eq!(q, Expr::Complex(Number::fraction(11, 25).unwrap(), Number::fraction(2, 25).unwrap()));
    assert_eq!(num(2).div(Expr::Imaginary).unwrap(), cx(0, -2));
}

#[test]
fn division_by_number_zero() {
    assert!(matches!(num(5).div(num(0)), Err(EvalError::DivisionByZero)));
    assert!(matches!(num(5).rem(num(0)), Err(EvalError::DivisionByZero)));
    assert!(matches!(cx(1, 2).div(num(0)), Err(EvalError::DivisionByZero)));
    assert!(matches!(Expr::Imaginary.div(num(0)), Err(EvalError::DivisionByZero)));
}

#[test]
fn complex_remainder_by_component() {
    assert_eq!(cx(7, 5).rem(cx(3, 2)).unwrap(), cx(1, 1));
    assert_eq!(Expr::Imaginary.rem(cx(0, 1)).unwrap(), cx(0, 0));
    assert!(matches!(cx(3, 0).rem(Expr::Imaginary), Err(EvalError::DivisionByZero)));
}

#[test]
fn real_powers() {
    assert_eq!(num(2).pow(num(10)).unwrap(), num(1024));
    assert_eq!(num(2).pow(num(-2)).unwrap(), frac(1, 4));
    assert!(matches!(num(0).pow(num(-1)), Err(EvalError::DivisionByZero)));
    assert!(matches!(num(2).pow(frac(1, 2)), Err(EvalError::InvalidArgument)));
}

#[test]
fn complex_powers() {
    assert_eq!(cx(1, 1).pow(num(2)).unwrap(), cx(0, 2));
    assert_eq!(Expr::Imaginary.pow(num(2)).unwrap(), num(-1));
    assert_eq!(
        cx(0, 2).pow(num(-1)).unwrap(),
        Expr::Complex(Number::new(0), Number::fraction(-1, 2).unwrap())
    );
    assert_eq!(
        cx(1, 1).pow(frac(1, 2)).unwrap(),
        Expr::Complex(Number::fraction(1, 2).unwrap(), Number::fraction(1, 2).unwrap())
    );
}

#[test]
fn unsupported_operand_kinds() {
    match num(2).pow(cx(1, 1)) {
        Err(EvalError::UnsupportedOperandKinds { left, op, right }) => {
            assert_eq!(left, Kind::Number);
            assert_eq!(op, Opcode::Pow);
            assert_eq!(right, Kind::Complex);
        },
        other => panic!("unexpected {:?}", other),
    }
    match var("x").rem(num(2)) {
        Err(EvalError::UnsupportedOperandKinds { left, op, right }) => {
            assert_eq!(left, Kind::Variable);
            assert_eq!(op, Opcode::Rem);
            assert_eq!(right, Kind::Number);
        },
        other => panic!("unexpected {:?}", other),
    }
}

#[test]
fn unresolved_operand_stays() {
    match var("x").add(num(1)).unwrap() {
        Expr::Op(a, Opcode::Add, b) => {
            assert!(is_variable(&a, "x"));
            assert!(is_number(&b, 1));
        },
        other => panic!("unexpected {:?}", other),
    }
}

#[test]
fn two_operations_cannot_reduce() {
    let a = op(var("x"), Opcode::Add, num(1));
    let b = op(var("y"), Opcode::Add, num(1));
    assert!(matches!(a.add(b), Err(EvalError::CannotReduce)));
}

#[test]
fn reduce_constant_left_of_literal() {
    let e = op(num(2), Opcode::Add, var("x"));
    match e.add(num(3)).unwrap() {
        Expr::Op(a, Opcode::Add, b) => {
            assert!(is_number(&a, 5));
            assert!(is_variable(&b, "x"));
        },
        other => panic!("unexpected {:?}", other),
    }
}

#[test]
fn reduce_literal_then_constant() {
    let e = op(var("x"), Opcode::Add, num(2));
    match e.sub(num(3)).unwrap() {
        Expr::Op(a, Opcode::Add, b) => {
            assert!(is_variable(&a, "x"));
            assert!(is_number(&b, -1));
        },
        other => panic!("unexpected {:?}", other),
    }
    let e = op(var("x"), Opcode::Sub, num(2));
    match e.add(num(3)).unwrap() {
        Expr::Op(a, Opcode::Sub, b) => {
            assert!(is_variable(&a, "x"));
            assert!(is_number(&b, -1));
        },
        other => panic!("unexpected {:?}", other),
    }
}

#[test]
fn reduce_operation_on_the_right() {
    let e = op(var("x"), Opcode::Sub, num(1));
    match num(3).sub(e).unwrap() {
        Expr::Op(a, Opcode::Sub, b) => {
            assert!(is_number(&a, 4));
            assert!(is_variable(&b, "x"));
        },
        other => panic!("unexpected {:?}", other),
    }
    let e = op(num(2), Opcode::Add, var("x"));
    match num(10).sub(e).unwrap() {
        Expr::Op(a, Opcode::Sub, b) => {
            assert!(is_number(&a, 8));
            assert!(is_variable(&b, "x"));
        },
        other => panic!("unexpected {:?}", other),
    }
}

#[test]
fn distribute_constant_factor() {
    let e = op(var("x"), Opcode::Add, num(1));
    match num(2).mul(e).unwrap() {
        Expr::Op(a, Opcode::Add, b) => {
            assert!(matches!(*a, Expr::Op(_, Opcode::Mul, _)));
            assert!(is_number(&b, 2));
        },
        other => panic!("unexpected {:?}", other),
    }
    let e = op(var("x"), Opcode::Sub, num(1));
    match e.mul(num(3)).unwrap() {
        Expr::Op(a, Opcode::Sub, b) => {
            assert!(matches!(*a, Expr::Op(_, Opcode::Mul, _)));
            assert!(is_number(&b, 3));
        },
        other => panic!("unexpected {:?}", other),
    }
}

#[test]
fn conservative_rebuild() {
    let e = op(var("x"), Opcode::Mul, num(2));
    match e.add(num(3)).unwrap() {
        Expr::Op(a, Opcode::Add, b) => {
            assert!(matches!(*a, Expr::Op(_, Opcode::Mul, _)));
            assert!(is_number(&b, 3));
        },
        other => panic!("unexpected {:?}", other),
    }
    let e = op(var("x"), Opcode::Add, var("y"));
    match e.add(num(3)).unwrap() {
        Expr::Op(a, Opcode::Add, b) => {
            assert!(matches!(*a, Expr::Op(_, Opcode::Add, _)));
            assert!(is_number(&b, 3));
        },
        other => panic!("unexpected {:?}", other),
    }
}

#[test]
fn apply_dispatches_on_opcode() {
    assert_eq!(apply(Opcode::Add, num(2), num(3)).unwrap(), num(5));
    assert_eq!(apply(Opcode::Pow, num(2), num(3)).unwrap(), num(8));
    assert!(matches!(apply(Opcode::ProdDiv, num(2), num(3)), Err(EvalError::UnsupportedOperandKinds { .. })));
}

#[test]
fn equality_by_value() {
    assert_eq!(frac(1, 2), frac(2, 4));
    assert_eq!(num(3), cx(3, 0));
    assert_ne!(cx(1, 1), cx(1, 2));
    assert_eq!(cx(5, 1), Expr::Imaginary);
    assert_ne!(var("x"), var("x"));
}

#[test]
fn order_by_value_and_modulus() {
    assert!(num(-3) > num(2));
    assert!(num(-1) < num(2));
    assert_eq!(num(-2).partial_cmp(&num(2)), Some(std::cmp::Ordering::Equal));
    assert_eq!(cx(3, 4).partial_cmp(&num(5)), Some(std::cmp::Ordering::Equal));
    assert!(Expr::Imaginary < cx(1, 1));
    assert_eq!(Expr::Imaginary.partial_cmp(&var("x")), None);
}

#[test]
fn reduction_entry_points() {
    match sub_reduce_simple(num(7), var("x"), num(2), Opcode::Add).unwrap() {
        Expr::Op(a, Opcode::Add, b) => {
            assert!(is_number(&a, 5));
            assert!(is_variable(&b, "x"));
        },
        other => panic!("unexpected {:?}", other),
    }
    match mul_reduce_simple(num(2), var("x"), num(3), Opcode::Sub).unwrap() {
        Expr::Op(a, Opcode::Sub, b) => {
            assert!(is_number(&a, 6));
            assert!(matches!(*b, Expr::Op(_, Opcode::Mul, _)));
        },
        other => panic!("unexpected {:?}", other),
    }
}

#[test]
fn distribute_over_any_factor() {
    let e = op(num(1), Opcode::Add, var("x"));
    match e.mul(var("y")).unwrap() {
        Expr::Op(a, Opcode::Add, b) => {
            assert!(matches!(*a, Expr::Op(_, Opcode::Mul, _)));
            assert!(matches!(*b, Expr::Op(_, Opcode::Mul, _)));
        },
        other => panic!("unexpected {:?}", other),
    }
    let e = op(var("x"), Opcode::Sub, num(1));
    match var("y").mul(e).unwrap() {
        Expr::Op(a, Opcode::Sub, b) => {
            assert!(matches!(*a, Expr::Op(_, Opcode::Mul, _)));
            assert!(matches!(*b, Expr::Op(_, Opcode::Mul, _)));
        },
        other => panic!("unexpected {:?}", other),
    }
}
