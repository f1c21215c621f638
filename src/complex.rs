//! Complex numbers with exact parts.

use vstd::prelude::*;
use crate::error::EvalError;
use crate::number::{is_square, Number};

verus! {

/// A complex number `re + im i` with exact parts.
#[derive(Clone, Copy, Debug)]
pub struct Complex {
    pub re: Number,
    pub im: Number,
}

/// The complex number of two parts, or the first failure among them.
pub open spec fn both(re: Result<Number, EvalError>, im: Result<Number, EvalError>) -> Result<Complex, EvalError> {
    match re {
        Err(e) => Err(e),
        Ok(x) => match im {
            Err(e) => Err(e),
            Ok(y) => Ok(Complex { re: x, im: y }),
        },
    }
}

/// `a + b` where both operands may have failed already.
pub open spec fn then_plus(a: Result<Number, EvalError>, b: Result<Number, EvalError>) -> Result<Number, EvalError> {
    match a {
        Err(e) => Err(e),
        Ok(x) => match b {
            Err(e) => Err(e),
            Ok(y) => x.plus(y),
        },
    }
}

/// `a - b` where both operands may have failed already.
pub open spec fn then_minus(a: Result<Number, EvalError>, b: Result<Number, EvalError>) -> Result<Number, EvalError> {
    match a {
        Err(e) => Err(e),
        Ok(x) => match b {
            Err(e) => Err(e),
            Ok(y) => x.minus(y),
        },
    }
}

/// `a / m` where `a` may have failed already.
pub open spec fn then_over(a: Result<Number, EvalError>, m: Number) -> Result<Number, EvalError> {
    match a {
        Err(e) => Err(e),
        Ok(x) => x.over(m),
    }
}

/// Integer remainder of one component: a zero divisor is accepted only for a
/// zero dividend, which leaves zero.
pub open spec fn part_modulo(a: Number, b: Number) -> Result<Number, EvalError> {
    if b.whole() == 0 {
        if a.whole() == 0 {
            Ok(Number::from_int(0))
        } else {
            Err(EvalError::DivisionByZero)
        }
    } else {
        a.modulo(b)
    }
}

impl Complex {
    /// `n + 0i`.
    pub open spec fn of_real(n: Number) -> Complex {
        Complex { re: n, im: Number::from_int(0) }
    }

    /// `0 + 1i`.
    pub open spec fn unit() -> Complex {
        Complex { re: Number::from_int(0), im: Number::from_int(1) }
    }

    pub open spec fn plus(self, o: Complex) -> Result<Complex, EvalError> {
        both(self.re.plus(o.re), self.im.plus(o.im))
    }

    pub open spec fn minus(self, o: Complex) -> Result<Complex, EvalError> {
        both(self.re.minus(o.re), self.im.minus(o.im))
    }

    /// `(a + bi)(c + di) = (ac - bd) + (bc + ad)i`.
    pub open spec fn times(self, o: Complex) -> Result<Complex, EvalError> {
        both(
            then_minus(self.re.times(o.re), self.im.times(o.im)),
            then_plus(self.im.times(o.re), self.re.times(o.im)),
        )
    }

    /// `|self|^2 = re^2 + im^2`.
    pub open spec fn norm_sq(self) -> Result<Number, EvalError> {
        then_plus(self.re.times(self.re), self.im.times(self.im))
    }

    /// Division by the conjugate: `(a + bi)/(c + di) = ((ac + bd) + (bc - ad)i) / (c^2 + d^2)`.
    pub open spec fn over(self, o: Complex) -> Result<Complex, EvalError> {
        match o.norm_sq() {
            Err(e) => Err(e),
            Ok(m) => if m.is_zero_value() {
                Err(EvalError::DivisionByZero)
            } else {
                both(
                    then_over(then_plus(self.re.times(o.re), self.im.times(o.im)), m),
                    then_over(then_minus(self.im.times(o.re), self.re.times(o.im)), m),
                )
            },
        }
    }

    /// Integer remainder, component by component.
    pub open spec fn modulo(self, o: Complex) -> Result<Complex, EvalError> {
        both(part_modulo(self.re, o.re), part_modulo(self.im, o.im))
    }

    /// `n + 0i`.
    pub fn new(n: Number) -> (r: Complex)
        ensures
            r == Complex::of_real(n),
    {
        Complex { re: n, im: Number::new(0) }
    }

    /// The imaginary unit `i`.
    pub fn imaginary_unit() -> (r: Complex)
        ensures
            r == Complex::unit(),
    {
        Complex { re: Number::new(0), im: Number::new(1) }
    }

    pub fn add(self, o: Complex) -> (r: Result<Complex, EvalError>)
        ensures
            r == self.plus(o),
    {
        let re = self.re.add(o.re)?;
        let im = self.im.add(o.im)?;
        Ok(Complex { re, im })
    }

    pub fn sub(self, o: Complex) -> (r: Result<Complex, EvalError>)
        ensures
            r == self.minus(o),
    {
        let re = self.re.sub(o.re)?;
        let im = self.im.sub(o.im)?;
        Ok(Complex { re, im })
    }

    pub fn mul(self, o: Complex) -> (r: Result<Complex, EvalError>)
        ensures
            r == self.times(o),
    {
        let ac = self.re.mul(o.re)?;
        let bd = self.im.mul(o.im)?;
        let re = ac.sub(bd)?;
        let bc = self.im.mul(o.re)?;
        let ad = self.re.mul(o.im)?;
        let im = bc.add(ad)?;
        Ok(Complex { re, im })
    }

    /// `re^2 + im^2`.
    pub fn squared_module(self) -> (r: Result<Number, EvalError>)
        ensures
            r == self.norm_sq(),
    {
        let a = self.re.mul(self.re)?;
        let b = self.im.mul(self.im)?;
        a.add(b)
    }

    pub fn div(self, o: Complex) -> (r: Result<Complex, EvalError>)
        ensures
            r == self.over(o),
    {
        let m = o.squared_module()?;
        if m.is_zero() {
            return Err(EvalError::DivisionByZero);
        }
        let ac = self.re.mul(o.re)?;
        let bd = self.im.mul(o.im)?;
        let re = ac.add(bd)?.div(m)?;
        let bc = self.im.mul(o.re)?;
        let ad = self.re.mul(o.im)?;
        let im = bc.sub(ad)?.div(m)?;
        Ok(Complex { re, im })
    }

    /// The modulus `sqrt(re^2 + im^2)`, where `Number::sqrt` gives it exactly
    /// (as a fraction in lowest terms).
    pub fn module(&self) -> (r: Result<Number, EvalError>)
        ensures
            self.norm_sq() matches Err(e) ==> r == Err::<Number, EvalError>(e),
            self.norm_sq() matches Ok(m) ==> (r is Ok <==> m.numer() > 0 && is_square(m.reduced().0) && is_square(
                m.reduced().1,
            )),
            self.norm_sq() is Ok && r is Err ==> r == Err::<Number, EvalError>(EvalError::InvalidArgument),
            r matches Ok(s) ==> self.norm_sq() matches Ok(m) && s.numer() > 0 && s.numer() * s.numer()
                == m.reduced().0 && s.denom() * s.denom() == m.reduced().1,
    {
        let m = self.squared_module()?;
        m.sqrt()
    }

    /// Integer remainder of the parts (rounded toward zero), component by component.
    pub fn rem(self, o: Complex) -> (r: Result<Complex, EvalError>)
        ensures
            r == self.modulo(o),
    {
        let re = part_rem(self.re, o.re)?;
        let im = part_rem(self.im, o.im)?;
        Ok(Complex { re, im })
    }
}

fn part_rem(a: Number, b: Number) -> (r: Result<Number, EvalError>)
    ensures
        r == part_modulo(a, b),
{
    if b.trunc() == 0 {
        if a.trunc() == 0 {
            Ok(Number::new(0))
        } else {
            Err(EvalError::DivisionByZero)
        }
    } else {
        a.rem(b)
    }
}

} // verus!
