use computor::complex::Complex;
use computor::error::EvalError;
use computor::number::Number;

#[test]
fn fraction_sum_is_exact() {
    let a = Number::fraction(1, 2).unwrap();
    let b = Number::fraction(1, 3).unwrap();
    let s = a.add(b).unwrap();
    assert_eq!(s.numerator(), 5);
    assert_eq!(s.denominator(), 6);
}

#[test]
fn fraction_with_negative_denominator() {
    let a = Number::fraction(3, -6).unwrap();
    assert!(a.denominator() > 0);
    assert!(a.eq_value(&Number::fraction(-1, 2).unwrap()));
}

#[test]
fn fraction_over_zero_fails() {
    assert!(matches!(Number::fraction(1, 0), Err(EvalError::DivisionByZero)));
}

#[test]
fn number_arithmetic() {
    let a = Number::new(7);
    let b = Number::new(2);
    assert!(a.sub(b).unwrap().eq_value(&Number::new(5)));
    assert!(a.mul(b).unwrap().eq_value(&Number::new(14)));
    assert!(a.div(b).unwrap().eq_value(&Number::fraction(7, 2).unwrap()));
}

#[test]
fn number_division_by_zero() {
    assert!(matches!(Number::new(7).div(Number::new(0)), Err(EvalError::DivisionByZero)));
    assert!(matches!(Number::new(0).verify(), Err(EvalError::DivisionByZero)));
    assert!(Number::new(3).verify().is_ok());
}

#[test]
fn number_overflow() {
    assert!(matches!(Number::new(i64::MAX).add(Number::new(1)), Err(EvalError::Overflow)));
    assert!(matches!(Number::new(i64::MIN).mul(Number::new(-1)), Err(EvalError::Overflow)));
}

#[test]
fn number_remainder_truncates() {
    assert_eq!(Number::new(7).rem(Number::new(3)).unwrap().numerator(), 1);
    assert_eq!(Number::new(-7).rem(Number::new(3)).unwrap().numerator(), -1);
    assert_eq!(Number::fraction(7, 2).unwrap().rem(Number::new(2)).unwrap().numerator(), 1);
    assert!(matches!(Number::new(7).rem(Number::fraction(1, 2).unwrap()), Err(EvalError::DivisionByZero)));
}

#[test]
fn number_trunc_and_whole() {
    assert_eq!(Number::fraction(-7, 2).unwrap().trunc(), -3);
    assert_eq!(Number::fraction(7, 2).unwrap().trunc(), 3);
    assert!(Number::fraction(4, 2).unwrap().is_whole());
    assert!(!Number::fraction(3, 2).unwrap().is_whole());
}

#[test]
fn number_order() {
    assert!(Number::new(-3).lt_value(&Number::new(2)));
    assert!(!Number::new(2).lt_value(&Number::fraction(4, 2).unwrap()));
}

#[test]
fn complex_multiplication() {
    let a = Complex { re: Number::new(1), im: Number::new(2) };
    let b = Complex { re: Number::new(3), im: Number::new(4) };
    let p = a.mul(b).unwrap();
    assert!(p.re.eq_value(&Number::new(-5)));
    assert!(p.im.eq_value(&Number::new(10)));
}

#[test]
fn complex_division_by_conjugate() {
    let a = Complex { re: Number::new(1), im: Number::new(2) };
    let b = Complex { re: Number::new(3), im: Number::new(4) };
    let q = a.div(b).unwrap();
    assert!(q.re.eq_value(&Number::fraction(11, 25).unwrap()));
    assert!(q.im.eq_value(&Number::fraction(2, 25).unwrap()));
}

#[test]
fn complex_division_by_zero() {
    let a = Complex { re: Number::new(1), im: Number::new(2) };
    assert!(matches!(a.div(Complex::new(Number::new(0))), Err(EvalError::DivisionByZero)));
}

#[test]
fn complex_squared_module() {
    let a = Complex { re: Number::new(3), im: Number::new(4) };
    assert!(a.squared_module().unwrap().eq_value(&Number::new(25)));
    let u = Complex::imaginary_unit();
    assert!(u.squared_module().unwrap().eq_value(&Number::new(1)));
}

#[test]
fn exact_square_roots() {
    let r = Number::fraction(9, 4).unwrap().sqrt().unwrap();
    assert_eq!(r.numerator(), 3);
    assert_eq!(r.denominator(), 2);
    assert!(matches!(Number::new(2).sqrt(), Err(EvalError::InvalidArgument)));
    let r = Number::fraction(8, 2).unwrap().sqrt().unwrap();
    assert!(r.eq_value(&Number::new(2)));
    assert!(matches!(Number::new(0).sqrt(), Err(EvalError::InvalidArgument)));
    assert!(matches!(Number::new(-4).sqrt(), Err(EvalError::InvalidArgument)));
}

#[test]
fn complex_modulus() {
    let a = Complex { re: Number::new(3), im: Number::new(4) };
    assert!(a.module().unwrap().eq_value(&Number::new(5)));
    let b = Complex { re: Number::new(1), im: Number::new(1) };
    assert!(matches!(b.module(), Err(EvalError::InvalidArgument)));
}

#[test]
fn results_are_in_lowest_terms() {
    let h = Number::fraction(1, 2).unwrap();
    let one = h.add(h).unwrap();
    assert_eq!(one.numerator(), 1);
    assert_eq!(one.denominator(), 1);
    let r = Number::fraction(6, -4).unwrap();
    assert_eq!(r.numerator(), -3);
    assert_eq!(r.denominator(), 2);
}

#[test]
fn small_fractions_times_one_fit() {
    let a = Number::fraction(1, 1 << 40).unwrap();
    let b = Number::fraction(1, 847288609443).unwrap();
    let c = Complex { re: a, im: b };
    let p = c.mul(Complex::new(Number::new(1))).unwrap();
    assert!(p.re.eq_value(&a));
    assert!(p.im.eq_value(&b));
}
