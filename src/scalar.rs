//! Operators between numbers, complex numbers and the imaginary unit.

use vstd::prelude::*;
use crate::ast::{Expr, Opcode};
use crate::complex::Complex;
use crate::error::EvalError;
use crate::number::Number;
use crate::rules::{complex_pow, complex_power, num_power, number_pow, scalar_outcome};

verus! {

proof fn lemma_num_power_fails_up(b: Number, i: int, k: int)
    requires
        0 <= i <= k,
        num_power(b, i) is Err,
    ensures
        num_power(b, k) == num_power(b, i),
    decreases k - i,
{
    if i < k {
        lemma_num_power_fails_up(b, i, k - 1);
    }
}

proof fn lemma_num_power_fails_down(b: Number, i: int, k: int)
    requires
        k <= i <= 0,
        num_power(b, i) is Err,
    ensures
        num_power(b, k) == num_power(b, i),
    decreases i - k,
{
    if k < i {
        lemma_num_power_fails_down(b, i, k + 1);
    }
}

proof fn lemma_complex_power_fails_up(c: Complex, i: int, k: int)
    requires
        0 <= i <= k,
        complex_power(c, i) is Err,
    ensures
        complex_power(c, k) == complex_power(c, i),
    decreases k - i,
{
    if i < k {
        lemma_complex_power_fails_up(c, i, k - 1);
    }
}

proof fn lemma_complex_power_fails_down(c: Complex, i: int, k: int)
    requires
        k <= i <= 0,
        complex_power(c, i) is Err,
    ensures
        complex_power(c, k) == complex_power(c, i),
    decreases i - k,
{
    if k < i {
        lemma_complex_power_fails_down(c, i, k + 1);
    }
}

/// `b^k` by `k` multiplications, or `-k` divisions.
fn number_power(b: Number, k: i64) -> (r: Result<Number, EvalError>)
    ensures
        r == num_power(b, k as int),
{
    let mut p = Number::new(1);
    let mut i: i64 = 0;
    if k >= 0 {
        while i < k
            invariant
                0 <= i <= k,
                num_power(b, i as int) == Ok::<Number, EvalError>(p),
            decreases k - i,
        {
            let next = p.mul(b);
            assert(num_power(b, i + 1) == next);
            match next {
                Ok(q) => p = q,
                Err(e) => {
                    proof {
                        lemma_num_power_fails_up(b, i + 1, k as int);
                    }
                    return Err(e);
                },
            }
            i = i + 1;
        }
    } else {
        while i > k
            invariant
                k <= i <= 0,
                num_power(b, i as int) == Ok::<Number, EvalError>(p),
            decreases i - k,
        {
            let next = p.div(b);
            assert(num_power(b, i - 1) == next);
            match next {
                Ok(q) => p = q,
                Err(e) => {
                    proof {
                        lemma_num_power_fails_down(b, i - 1, k as int);
                    }
                    return Err(e);
                },
            }
            i = i - 1;
        }
    }
    Ok(p)
}

/// `c^k` by `k` multiplications, or `-k` divisions.
fn complex_power_int(c: Complex, k: i64) -> (r: Result<Complex, EvalError>)
    ensures
        r == complex_power(c, k as int),
{
    let mut p = Complex::new(Number::new(1));
    let mut i: i64 = 0;
    if k >= 0 {
        while i < k
            invariant
                0 <= i <= k,
                complex_power(c, i as int) == Ok::<Complex, EvalError>(p),
            decreases k - i,
        {
            let next = p.mul(c);
            assert(complex_power(c, i + 1) == next);
            match next {
                Ok(q) => p = q,
                Err(e) => {
                    proof {
                        lemma_complex_power_fails_up(c, i + 1, k as int);
                    }
                    return Err(e);
                },
            }
            i = i + 1;
        }
    } else {
        while i > k
            invariant
                k <= i <= 0,
                complex_power(c, i as int) == Ok::<Complex, EvalError>(p),
            decreases i - k,
        {
            let next = p.div(c);
            assert(complex_power(c, i - 1) == next);
            match next {
                Ok(q) => p = q,
                Err(e) => {
                    proof {
                        lemma_complex_power_fails_down(c, i - 1, k as int);
                    }
                    return Err(e);
                },
            }
            i = i - 1;
        }
    }
    Ok(p)
}

/// A real power of a real; the exponent must be an integer.
pub fn pow_number_number(b: Number, e: Number) -> (r: Result<Expr, EvalError>)
    ensures
        r == number_pow(b, e),
{
    if !e.is_whole() {
        return Err(EvalError::InvalidArgument);
    }
    let p = number_power(b, e.trunc())?;
    Ok(Expr::Number(p))
}

/// A real power of a complex: the integer part of the exponent by repeated
/// multiplication (or division), the fractional part `s`, when not zero, as one
/// more multiplication (or division) by `c * s`.
pub fn pow_complex_number(c: Complex, e: Number) -> (r: Result<Expr, EvalError>)
    ensures
        r == complex_pow(c, e),
{
    let k = e.trunc();
    let s = e.sub(Number::new(k))?;
    let p = complex_power_int(c, k)?;
    if s.is_zero() {
        return Ok(Expr::Complex(p.re, p.im));
    }
    let cs = c.mul(Complex::new(s))?;
    let q = if e.lt_value(&Number::new(0)) {
        p.div(cs)?
    } else {
        p.mul(cs)?
    };
    Ok(Expr::Complex(q.re, q.im))
}

fn from_complex(r: Result<Complex, EvalError>) -> (s: Result<Expr, EvalError>)
    ensures
        s == crate::rules::lift(r),
{
    match r {
        Ok(c) => Ok(Expr::Complex(c.re, c.im)),
        Err(e) => Err(e),
    }
}

fn from_number(r: Result<Number, EvalError>) -> (s: Result<Expr, EvalError>)
    ensures
        s == crate::rules::lift_num(r),
{
    match r {
        Ok(n) => Ok(Expr::Number(n)),
        Err(e) => Err(e),
    }
}

/// An operator between two scalars: two numbers stay numbers; any other pair
/// is computed as complex numbers, `Imaginary` standing for `0 + 1i`.
pub fn scalar_operate(op: Opcode, x: &Expr, y: &Expr) -> (r: Result<Expr, EvalError>)
    requires
        x.is_scalar(),
        y.is_scalar(),
    ensures
        r == scalar_outcome(op, *x, *y),
{
    if let (Expr::Number(a), Expr::Number(b)) = (x, y) {
        let (a, b) = (*a, *b);
        return match op {
            Opcode::Add => from_number(a.add(b)),
            Opcode::Sub => from_number(a.sub(b)),
            Opcode::Mul => from_number(a.mul(b)),
            Opcode::Div => from_number(a.div(b)),
            Opcode::Rem => from_number(a.rem(b)),
            Opcode::Pow => pow_number_number(a, b),
            Opcode::Prod => Ok(Expr::Op(Box::new(x.copy_scalar()), op, Box::new(y.copy_scalar()))),
            Opcode::ProdDiv => Err(Expr::type_error(x, y, op)),
        };
    }
    let cx = x.to_complex();
    let cy = y.to_complex();
    match op {
        Opcode::Add => from_complex(cx.add(cy)),
        Opcode::Sub => from_complex(cx.sub(cy)),
        Opcode::Mul => from_complex(cx.mul(cy)),
        Opcode::Div => from_complex(cx.div(cy)),
        Opcode::Rem => from_complex(cx.rem(cy)),
        Opcode::Pow => match y {
            Expr::Number(e) => pow_complex_number(cx, *e),
            _ => Err(Expr::type_error(x, y, op)),
        },
        Opcode::Prod => Ok(Expr::Op(Box::new(x.copy_scalar()), op, Box::new(y.copy_scalar()))),
        Opcode::ProdDiv => Err(Expr::type_error(x, y, op)),
    }
}

} // verus!
