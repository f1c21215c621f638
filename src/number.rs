//! Exact real numbers as fractions of 64-bit integers.

use vstd::prelude::*;
use crate::error::EvalError;

verus! {

/// An exact real scalar: the fraction `num / den`, with `den > 0`.
///
/// The results of arithmetic are reduced to lowest terms; numbers compare
/// by value through `same_value`, whatever their representation.
#[derive(Clone, Copy, Debug)]
pub struct Number {
    num: i64,
    den: i64,
}

/// Whether a numerator and a denominator can be held by a `Number`.
pub open spec fn fits(n: int, d: int) -> bool {
    i64::MIN <= n <= i64::MAX && 0 < d <= i64::MAX
}

/// The numerator of `n / d` in lowest terms.
pub open spec fn reduced_num(n: int, d: int) -> int {
    let g = gcd(abs(n) as nat, d as nat) as int;
    if n < 0 {
        -(abs(n) / g)
    } else {
        n / g
    }
}

/// The denominator of `n / d` in lowest terms.
pub open spec fn reduced_den(n: int, d: int) -> int {
    d / (gcd(abs(n) as nat, d as nat) as int)
}

/// The absolute value.
pub open spec fn abs(a: int) -> int {
    if a >= 0 { a } else { -a }
}

/// Integer division rounding toward zero, as Rust's `/` does.
pub open spec fn trunc_div(a: int, b: int) -> int {
    if (a >= 0) == (b > 0) {
        abs(a) / abs(b)
    } else {
        -(abs(a) / abs(b))
    }
}

/// Remainder of `trunc_div`: it has the sign of `a`, as Rust's `%` has.
pub open spec fn trunc_rem(a: int, b: int) -> int {
    if a >= 0 {
        abs(a) % abs(b)
    } else {
        -(abs(a) % abs(b))
    }
}

proof fn lemma_product_bound(a: int, b: int)
    requires
        -0x8000_0000_0000_0000 <= a <= 0x8000_0000_0000_0000,
        -0x8000_0000_0000_0000 <= b <= 0x8000_0000_0000_0000,
    ensures
        -0x4000_0000_0000_0000_0000_0000_0000_0000 <= a * b <= 0x4000_0000_0000_0000_0000_0000_0000_0000,
{
    assert(-0x4000_0000_0000_0000_0000_0000_0000_0000 <= a * b <= 0x4000_0000_0000_0000_0000_0000_0000_0000)
        by (nonlinear_arith)
        requires
            -0x8000_0000_0000_0000 <= a <= 0x8000_0000_0000_0000,
            -0x8000_0000_0000_0000 <= b <= 0x8000_0000_0000_0000,
    ;
}

proof fn lemma_scaled_bound(a: int, b: int)
    requires
        -0x8000_0000_0000_0000 <= a <= 0x8000_0000_0000_0000,
        0 < b <= 0x7fff_ffff_ffff_ffff,
    ensures
        -0x3fff_ffff_ffff_ffff_8000_0000_0000_0000 <= a * b <= 0x3fff_ffff_ffff_ffff_8000_0000_0000_0000,
{
    assert(-0x3fff_ffff_ffff_ffff_8000_0000_0000_0000 <= a * b <= 0x3fff_ffff_ffff_ffff_8000_0000_0000_0000)
        by (nonlinear_arith)
        requires
            -0x8000_0000_0000_0000 <= a <= 0x8000_0000_0000_0000,
            0 < b <= 0x7fff_ffff_ffff_ffff,
    ;
}

proof fn lemma_positive_product(a: int, b: int)
    requires
        a > 0,
        b > 0,
    ensures
        a * b > 0,
{
    assert(a * b > 0) by (nonlinear_arith)
        requires
            a > 0,
            b > 0,
    ;
}

impl Number {
    #[verifier::type_invariant]
    pub closed spec fn wf(&self) -> bool {
        self.den > 0
    }

    /// The numerator.
    pub closed spec fn numer(&self) -> int {
        self.num as int
    }

    /// The denominator, positive for every `Number`.
    pub closed spec fn denom(&self) -> int {
        self.den as int
    }

    /// The number `n / d` in lowest terms, or `Overflow` where it cannot be held.
    pub closed spec fn from_parts(n: int, d: int) -> Result<Number, EvalError> {
        if d > 0 && fits(reduced_num(n, d), reduced_den(n, d)) {
            Ok(Number { num: reduced_num(n, d) as i64, den: reduced_den(n, d) as i64 })
        } else {
            Err(EvalError::Overflow)
        }
    }

    /// The integer `n` as a fraction over one.
    pub closed spec fn from_int(n: int) -> Number {
        Number { num: n as i64, den: 1 }
    }

    /// Whether two numbers denote the same rational value.
    pub open spec fn same_value(self, other: Number) -> bool {
        self.numer() * other.denom() == other.numer() * self.denom()
    }

    /// Whether the value is zero.
    pub open spec fn is_zero_value(self) -> bool {
        self.numer() == 0
    }

    /// Whether the value of `self` is below the value of `other`.
    pub open spec fn below(self, other: Number) -> bool {
        self.numer() * other.denom() < other.numer() * self.denom()
    }

    /// The sum; over the common denominator where the two are equal.
    pub open spec fn plus(self, other: Number) -> Result<Number, EvalError> {
        if self.denom() == other.denom() {
            Number::from_parts(self.numer() + other.numer(), self.denom())
        } else {
            Number::from_parts(
                self.numer() * other.denom() + other.numer() * self.denom(),
                self.denom() * other.denom(),
            )
        }
    }

    /// The difference; over the common denominator where the two are equal.
    pub open spec fn minus(self, other: Number) -> Result<Number, EvalError> {
        if self.denom() == other.denom() {
            Number::from_parts(self.numer() - other.numer(), self.denom())
        } else {
            Number::from_parts(
                self.numer() * other.denom() - other.numer() * self.denom(),
                self.denom() * other.denom(),
            )
        }
    }

    /// The product.
    pub open spec fn times(self, other: Number) -> Result<Number, EvalError> {
        Number::from_parts(self.numer() * other.numer(), self.denom() * other.denom())
    }

    /// The quotient, with the sign carried by the numerator.
    pub open spec fn over(self, other: Number) -> Result<Number, EvalError> {
        if other.numer() == 0 {
            Err(EvalError::DivisionByZero)
        } else if other.numer() > 0 {
            Number::from_parts(self.numer() * other.denom(), self.denom() * other.numer())
        } else {
            Number::from_parts(-(self.numer() * other.denom()), -(self.denom() * other.numer()))
        }
    }

    /// The integer part, rounded toward zero.
    pub open spec fn whole(self) -> int {
        trunc_div(self.numer(), self.denom())
    }

    /// The remainder of the integer parts, with the sign of the dividend.
    pub open spec fn modulo(self, other: Number) -> Result<Number, EvalError> {
        if other.whole() == 0 {
            Err(EvalError::DivisionByZero)
        } else {
            Ok(Number::from_int(trunc_rem(self.whole(), other.whole())))
        }
    }

    /// Whether the value is an integer.
    pub open spec fn is_integer(self) -> bool {
        abs(self.numer()) % self.denom() == 0
    }

    fn build(n: i128, d: i128) -> (r: Result<Number, EvalError>)
        requires
            d > 0,
            n > i128::MIN,
        ensures
            r == Number::from_parts(n as int, d as int),
    {
        let a: u128 = if n < 0 {
            (-n) as u128
        } else {
            n as u128
        };
        let g = gcd_of_wide(a, d as u128);
        proof {
            lemma_gcd_positive(a as nat, d as nat);
        }
        let p = (a / g) as i128;
        let p = if n < 0 {
            -p
        } else {
            p
        };
        let q = (d as u128 / g) as i128;
        if p < i64::MIN as i128 || p > i64::MAX as i128 || q > i64::MAX as i128 || q <= 0 {
            Err(EvalError::Overflow)
        } else {
            Ok(Number { num: p as i64, den: q as i64 })
        }
    }

    /// The integer `n`.
    pub fn new(n: i64) -> (r: Number)
        ensures
            r == Number::from_int(n as int),
    {
        Number { num: n, den: 1 }
    }

    /// The fraction `num / den`; `DivisionByZero` when `den` is zero.
    pub fn fraction(num: i64, den: i64) -> (r: Result<Number, EvalError>)
        ensures
            r == Number::from_int(num as int).over(Number::from_int(den as int)),
    {
        Number::new(num).div(Number::new(den))
    }

    pub fn numerator(&self) -> (r: i64)
        ensures
            r == self.numer(),
    {
        self.num
    }

    pub fn denominator(&self) -> (r: i64)
        ensures
            r == self.denom(),
            r > 0,
    {
        proof {
            use_type_invariant(self);
        }
        self.den
    }

    /// `self` itself, or `DivisionByZero` when it is zero.
    pub fn verify(self) -> (r: Result<Number, EvalError>)
        ensures
            self.is_zero_value() ==> r == Err::<Number, EvalError>(EvalError::DivisionByZero),
            !self.is_zero_value() ==> r == Ok::<Number, EvalError>(self),
    {
        if self.num == 0 {
            Err(EvalError::DivisionByZero)
        } else {
            Ok(self)
        }
    }

    pub fn is_zero(&self) -> (r: bool)
        ensures
            r == self.is_zero_value(),
    {
        self.num == 0
    }

    pub fn add(self, other: Number) -> (r: Result<Number, EvalError>)
        ensures
            r == self.plus(other),
    {
        proof {
            use_type_invariant(&self);
            use_type_invariant(&other);
            lemma_scaled_bound(self.num as int, other.den as int);
            lemma_scaled_bound(other.num as int, self.den as int);
            lemma_product_bound(self.den as int, other.den as int);
            lemma_positive_product(self.den as int, other.den as int);
        }
        if self.den == other.den {
            return Number::build(self.num as i128 + other.num as i128, self.den as i128);
        }
        let n = self.num as i128 * other.den as i128 + other.num as i128 * self.den as i128;
        let d = self.den as i128 * other.den as i128;
        Number::build(n, d)
    }

    pub fn sub(self, other: Number) -> (r: Result<Number, EvalError>)
        ensures
            r == self.minus(other),
    {
        proof {
            use_type_invariant(&self);
            use_type_invariant(&other);
            lemma_scaled_bound(self.num as int, other.den as int);
            lemma_scaled_bound(other.num as int, self.den as int);
            lemma_product_bound(self.den as int, other.den as int);
            lemma_positive_product(self.den as int, other.den as int);
        }
        if self.den == other.den {
            return Number::build(self.num as i128 - other.num as i128, self.den as i128);
        }
        let n = self.num as i128 * other.den as i128 - other.num as i128 * self.den as i128;
        let d = self.den as i128 * other.den as i128;
        Number::build(n, d)
    }

    pub fn mul(self, other: Number) -> (r: Result<Number, EvalError>)
        ensures
            r == self.times(other),
    {
        proof {
            use_type_invariant(&self);
            use_type_invariant(&other);
            lemma_product_bound(self.num as int, other.num as int);
            lemma_product_bound(self.den as int, other.den as int);
            lemma_positive_product(self.den as int, other.den as int);
        }
        let n = self.num as i128 * other.num as i128;
        let d = self.den as i128 * other.den as i128;
        Number::build(n, d)
    }

    pub fn div(self, other: Number) -> (r: Result<Number, EvalError>)
        ensures
            r == self.over(other),
    {
        proof {
            use_type_invariant(&self);
            use_type_invariant(&other);
            lemma_product_bound(self.num as int, other.den as int);
            lemma_product_bound(self.den as int, other.num as int);
        }
        if other.num == 0 {
            return Err(EvalError::DivisionByZero);
        }
        let n = self.num as i128 * other.den as i128;
        let d = self.den as i128 * other.num as i128;
        if other.num > 0 {
            proof {
                lemma_positive_product(self.den as int, other.num as int);
            }
            Number::build(n, d)
        } else {
            proof {
                lemma_positive_product(self.den as int, -other.num);
                assert(self.den * (-other.num) == -(self.den * other.num)) by (nonlinear_arith);
            }
            Number::build(-n, -d)
        }
    }

    /// The integer part, rounded toward zero.
    pub fn trunc(&self) -> (r: i64)
        ensures
            r == self.whole(),
    {
        proof {
            use_type_invariant(self);
        }
        let n = self.num as i128;
        let d = self.den as i128;
        if n >= 0 {
            (n / d) as i64
        } else {
            proof {
                let ghost m = -(n as int);
                assert(m / (d as int) <= m) by (nonlinear_arith)
                    requires
                        m > 0,
                        d > 0,
                ;
            }
            (-((-n) / d)) as i64
        }
    }

    /// Integer remainder of the integer parts (both rounded toward zero).
    pub fn rem(self, other: Number) -> (r: Result<Number, EvalError>)
        ensures
            r == self.modulo(other),
    {
        let a = self.trunc() as i128;
        let b = other.trunc() as i128;
        if b == 0 {
            return Err(EvalError::DivisionByZero);
        }
        let ua = if a >= 0 { a } else { -a };
        let ub = if b >= 0 { b } else { -b };
        let m = ua % ub;
        proof {
            assert(0 <= m < ub);
        }
        let r = if a >= 0 { m } else { -m };
        Ok(Number { num: r as i64, den: 1 })
    }

    /// Whether the value is an integer.
    pub fn is_whole(&self) -> (r: bool)
        ensures
            r == self.is_integer(),
    {
        proof {
            use_type_invariant(self);
        }
        let n = self.num as i128;
        let a = if n >= 0 { n } else { -n };
        a % (self.den as i128) == 0
    }

    /// Whether `self` and `other` denote the same value.
    pub fn eq_value(&self, other: &Number) -> (r: bool)
        ensures
            r == self.same_value(*other),
    {
        proof {
            use_type_invariant(self);
            use_type_invariant(other);
            lemma_product_bound(self.num as int, other.den as int);
            lemma_product_bound(other.num as int, self.den as int);
        }
        self.num as i128 * other.den as i128 == other.num as i128 * self.den as i128
    }

    /// Whether the value of `self` is below the value of `other`.
    pub fn lt_value(&self, other: &Number) -> (r: bool)
        ensures
            r == self.below(*other),
    {
        proof {
            use_type_invariant(self);
            use_type_invariant(other);
            lemma_product_bound(self.num as int, other.den as int);
            lemma_product_bound(other.num as int, self.den as int);
        }
        (self.num as i128) * (other.den as i128) < (other.num as i128) * (self.den as i128)
    }
}

/// Addition of numbers is commutative.
pub proof fn lemma_plus_commutes(a: Number, b: Number)
    ensures
        a.plus(b) == b.plus(a),
{
    assert(a.num + b.num == b.num + a.num);
    assert(a.num * b.den + b.num * a.den == b.num * a.den + a.num * b.den);
    assert(a.den * b.den == b.den * a.den) by (nonlinear_arith);
}

/// Multiplication of numbers is commutative.
pub proof fn lemma_times_commutes(a: Number, b: Number)
    ensures
        a.times(b) == b.times(a),
{
    assert(a.num * b.num == b.num * a.num) by (nonlinear_arith);
    assert(a.den * b.den == b.den * a.den) by (nonlinear_arith);
}

/// If `x` is `n / d` reduced and `n / d` has the value of `a`, so has `x`.
proof fn lemma_reduced_value(x: Number, n: int, d: int, a: Number)
    requires
        d > 0,
        a.den > 0,
        Number::from_parts(n, d) == Ok::<Number, EvalError>(x),
        n * a.den == a.num * d,
    ensures
        x.same_value(a),
{
    lemma_reduced(n, d);
    let p = x.num as int;
    let q = x.den as int;
    assert(p * d == n * q);
    assert(p * a.den == a.num * q) by (nonlinear_arith)
        requires
            p * d == n * q,
            n * a.den == a.num * d,
            d > 0,
    ;
}

/// Adding zero gives a number of the same value.
pub proof fn lemma_plus_zero(a: Number)
    requires
        a.wf(),
    ensures
        a.plus(Number::from_int(0)) matches Ok(v) && v.same_value(a),
{
    assert(a.num * 1 + 0 * a.den == a.num) by (nonlinear_arith);
    assert(a.den * 1 == a.den) by (nonlinear_arith);
    lemma_reduced(a.num as int, a.den as int);
    let r = a.plus(Number::from_int(0));
    lemma_reduced_value(r->Ok_0, a.num as int, a.den as int, a);
}

/// Multiplying by one gives a number of the same value.
pub proof fn lemma_times_one(a: Number)
    requires
        a.wf(),
    ensures
        a.times(Number::from_int(1)) matches Ok(v) && v.same_value(a) && v.wf(),
{
    lemma_from_parts(a.num as int * 1, a.den as int * 1);
    assert(a.num * 1 == a.num) by (nonlinear_arith);
    assert(a.den * 1 == a.den) by (nonlinear_arith);
    lemma_reduced(a.num as int, a.den as int);
    let r = a.times(Number::from_int(1));
    lemma_reduced_value(r->Ok_0, a.num as int, a.den as int, a);
}

/// The ring operations fail, if at all, with `Overflow`.
pub proof fn lemma_ring_errors(a: Number, b: Number)
    ensures
        a.plus(b) is Ok || a.plus(b) == Err::<Number, EvalError>(EvalError::Overflow),
        a.minus(b) is Ok || a.minus(b) == Err::<Number, EvalError>(EvalError::Overflow),
        a.times(b) is Ok || a.times(b) == Err::<Number, EvalError>(EvalError::Overflow),
{
}

/// A number built from `n / d` is well formed and holds `n / d` in lowest
/// terms; it can be built wherever `n` and `d` fit.
pub proof fn lemma_from_parts(n: int, d: int)
    ensures
        Number::from_parts(n, d) matches Ok(x) ==> x.wf() && x.numer() == reduced_num(n, d) && x.denom()
            == reduced_den(n, d),
        fits(n, d) ==> Number::from_parts(n, d) is Ok,
{
    if fits(n, d) {
        lemma_reduced(n, d);
    }
}

/// An integer is well formed and holds the integer over one.
pub proof fn lemma_from_int(n: int)
    requires
        i64::MIN <= n <= i64::MAX,
    ensures
        Number::from_int(n).wf(),
        Number::from_int(n).numer() == n,
        Number::from_int(n).denom() == 1,
        Number::from_int(n).is_zero_value() <==> n == 0,
{
}

} // verus!

verus! {

/// Having the same value is transitive.
pub proof fn lemma_same_value_trans(x: Number, y: Number, z: Number)
    requires
        y.wf(),
        x.same_value(y),
        y.same_value(z),
    ensures
        x.same_value(z),
{
    assert(x.num * z.den == z.num * x.den) by (nonlinear_arith)
        requires
            x.num * y.den == y.num * x.den,
            y.num * z.den == z.num * y.den,
            y.den > 0,
    ;
}

/// Every number has its own value.
pub proof fn lemma_same_value_refl(a: Number)
    ensures
        a.same_value(a),
{
}

/// Subtracting a zero leaves the value, where the result fits.
pub proof fn lemma_minus_zero_value(a: Number, z: Number)
    requires
        a.wf(),
        z.wf(),
        z.is_zero_value(),
    ensures
        a.minus(z) matches Ok(r) ==> r.same_value(a),
{
    if a.minus(z) is Ok {
        if a.den == z.den {
            lemma_reduced_value(a.minus(z)->Ok_0, a.num - z.num, a.den as int, a);
        } else {
            assert((a.num * z.den - z.num * a.den) * a.den == a.num * (a.den * z.den)) by (nonlinear_arith)
                requires
                    z.num == 0,
            ;
            lemma_positive_product(a.den as int, z.den as int);
            lemma_reduced_value(a.minus(z)->Ok_0, a.num * z.den - z.num * a.den, a.den * z.den, a);
        }
    }
}

/// Adding a zero leaves the value, where the result fits.
pub proof fn lemma_plus_zero_value(a: Number, z: Number)
    requires
        a.wf(),
        z.wf(),
        z.is_zero_value(),
    ensures
        a.plus(z) matches Ok(r) ==> r.same_value(a),
{
    if a.plus(z) is Ok {
        if a.den == z.den {
            lemma_reduced_value(a.plus(z)->Ok_0, a.num + z.num, a.den as int, a);
        } else {
            assert((a.num * z.den + z.num * a.den) * a.den == a.num * (a.den * z.den)) by (nonlinear_arith)
                requires
                    z.num == 0,
            ;
            lemma_positive_product(a.den as int, z.den as int);
            lemma_reduced_value(a.plus(z)->Ok_0, a.num * z.den + z.num * a.den, a.den * z.den, a);
        }
    }
}

/// Multiplying by zero gives a zero, where the result fits.
pub proof fn lemma_times_zero(a: Number)
    requires
        a.wf(),
    ensures
        a.times(Number::from_int(0)) matches Ok(r) && r.is_zero_value() && r.wf(),
{
    assert(a.num * 0 == 0) by (nonlinear_arith);
    assert(a.den * 1 == a.den) by (nonlinear_arith);
    assert(gcd(0, a.den as nat) == a.den as nat) by {
        assert(0nat % (a.den as nat) == 0);
        assert(gcd(a.den as nat, 0) == a.den as nat);
    }
    lemma_from_parts(0, a.den as int);
}

/// The integers zero and one.
pub proof fn lemma_small_ints()
    ensures
        Number::from_int(0).wf(),
        Number::from_int(1).wf(),
        Number::from_int(0).is_zero_value(),
        !Number::from_int(1).is_zero_value(),
        Number::from_int(0).whole() == 0,
        Number::from_int(1).same_value(Number::from_int(1)),
        Number::from_int(0).times(Number::from_int(0)) == Ok::<Number, EvalError>(Number::from_int(0)),
        Number::from_int(0).plus(Number::from_int(0)) == Ok::<Number, EvalError>(Number::from_int(0)),
        Number::from_int(0).times(Number::from_int(1)) == Ok::<Number, EvalError>(Number::from_int(0)),
        Number::from_int(1).times(Number::from_int(0)) == Ok::<Number, EvalError>(Number::from_int(0)),
        Number::from_int(1).times(Number::from_int(1)) == Ok::<Number, EvalError>(Number::from_int(1)),
        Number::from_int(0).minus(Number::from_int(0)) == Ok::<Number, EvalError>(Number::from_int(0)),
        Number::from_int(1).plus(Number::from_int(0)) == Ok::<Number, EvalError>(Number::from_int(1)),
{
    assert(gcd(0, 1) == 1) by {
        assert(gcd(1, 0) == 1);
    }
    assert(gcd(1, 1) == 1) by {
        assert(gcd(1, 0) == 1);
    }
}

/// Dividing by zero fails.
pub proof fn lemma_over_zero(a: Number)
    ensures
        a.over(Number::from_int(0)) == Err::<Number, EvalError>(EvalError::DivisionByZero),
        a.modulo(Number::from_int(0)) == Err::<Number, EvalError>(EvalError::DivisionByZero),
{
}

} // verus!

verus! {

/// Whether `r` is the integer square root of `n`: the largest `r` with `r * r <= n`.
pub open spec fn is_isqrt(r: int, n: int) -> bool {
    r >= 0 && r * r <= n < (r + 1) * (r + 1)
}

/// Whether `n` is the square of an integer.
pub open spec fn is_square(n: int) -> bool {
    exists|p: int| p >= 0 && #[trigger] (p * p) == n
}

proof fn lemma_isqrt_of_square(r: int, p: int, n: int)
    requires
        is_isqrt(r, n),
        p >= 0,
        p * p == n,
    ensures
        r == p,
{
    if r < p {
        assert(false) by (nonlinear_arith)
            requires
                r >= 0,
                r + 1 <= p,
                p * p == n,
                n < (r + 1) * (r + 1),
        ;
    } else if r > p {
        assert(false) by (nonlinear_arith)
            requires
                p >= 0,
                p + 1 <= r,
                p * p == n,
                r * r <= n,
        ;
    }
}

/// The integer square root of `n`, by bisection.
fn isqrt(n: u64) -> (r: u64)
    ensures
        is_isqrt(r as int, n as int),
        r < 0x1_0000_0000,
{
    let mut lo: u64 = 0;
    let mut hi: u64 = 0x1_0000_0000;
    assert(n < hi * hi) by (nonlinear_arith)
        requires
            hi == 0x1_0000_0000,
            n <= 0xffff_ffff_ffff_ffff,
    ;
    while hi - lo > 1
        invariant
            lo < hi <= 0x1_0000_0000,
            lo * lo <= n,
            n < hi * hi,
        decreases hi - lo,
    {
        let mid = lo + (hi - lo) / 2;
        assert(mid * mid <= 0x1_0000_0000 * 0x1_0000_0000) by (nonlinear_arith)
            requires
                mid <= 0x1_0000_0000,
        ;
        if (mid as u128) * (mid as u128) <= n as u128 {
            lo = mid;
        } else {
            hi = mid;
        }
    }
    assert(hi == lo + 1);
    lo
}

impl Number {
    /// The reduced numerator `|num| / g` and denominator `den / g`, where `g`
    /// is their greatest common divisor.
    pub open spec fn reduced(self) -> (int, int) {
        let g = gcd(abs(self.numer()) as nat, self.denom() as nat) as int;
        (abs(self.numer()) / g, self.denom() / g)
    }

    /// The exact square root of a positive number whose fraction, in lowest
    /// terms, has a square numerator and a square denominator;
    /// `InvalidArgument` otherwise, as no exact root can be given (a value that
    /// is not positive has none).
    pub fn sqrt(&self) -> (r: Result<Number, EvalError>)
        ensures
            r is Ok <==> self.numer() > 0 && is_square(self.reduced().0) && is_square(self.reduced().1),
            r is Err ==> r == Err::<Number, EvalError>(EvalError::InvalidArgument),
            r matches Ok(s) ==> s.numer() > 0 && s.numer() * s.numer() == self.reduced().0 && s.denom() * s.denom()
                == self.reduced().1,
    {
        proof {
            use_type_invariant(self);
        }
        if self.num <= 0 {
            return Err(EvalError::InvalidArgument);
        }
        let a = self.num as u64;
        let d = self.den as u64;
        let g = gcd_of(a, d);
        proof {
            lemma_gcd_bounds(a as nat, d as nat);
            assert(a / g >= 1 && d / g >= 1) by (nonlinear_arith)
                requires
                    0 < g <= a,
                    g <= d,
            ;
        }
        let pn = a / g;
        let qn = d / g;
        assert(pn == self.reduced().0 && qn == self.reduced().1);
        let p = isqrt(pn);
        let q = isqrt(qn);
        if (p as u128) * (p as u128) != pn as u128 || (q as u128) * (q as u128) != qn as u128 {
            proof {
                if is_square(pn as int) && is_square(qn as int) {
                    let x = choose|x: int| x >= 0 && #[trigger] (x * x) == pn as int;
                    let y = choose|y: int| y >= 0 && #[trigger] (y * y) == qn as int;
                    lemma_isqrt_of_square(p as int, x, pn as int);
                    lemma_isqrt_of_square(q as int, y, qn as int);
                }
            }
            return Err(EvalError::InvalidArgument);
        }
        proof {
            assert(p * p == pn);
            assert(q * q == qn);
            assert(is_square(pn as int));
            assert(is_square(qn as int));
            assert(p > 0) by (nonlinear_arith)
                requires
                    p * p == pn,
                    pn > 0,
            ;
            assert(q > 0) by (nonlinear_arith)
                requires
                    q * q == qn,
                    qn > 0,
            ;
        }
        Ok(Number { num: p as i64, den: q as i64 })
    }
}

/// Greatest common divisor, by Euclid's algorithm.
pub open spec fn gcd(a: nat, b: nat) -> nat
    decreases b,
{
    if b == 0 {
        a
    } else {
        gcd(b, a % b)
    }
}

/// The greatest common divisor of a positive number is positive.
pub proof fn lemma_gcd_positive(a: nat, b: nat)
    requires
        b > 0,
    ensures
        gcd(a, b) > 0,
    decreases b,
{
    if a % b != 0 {
        lemma_gcd_positive(b, a % b);
    } else {
        assert(gcd(b, 0) == b);
    }
}

proof fn lemma_gcd_at_most_second(a: nat, b: nat)
    requires
        b > 0,
    ensures
        gcd(a, b) <= b,
    decreases b,
{
    if a % b != 0 {
        lemma_gcd_at_most_second(b, a % b);
    } else {
        assert(gcd(b, 0) == b);
    }
}

/// The greatest common divisor of two positive numbers is at most either.
pub proof fn lemma_gcd_bounds(a: nat, b: nat)
    requires
        a > 0,
        b > 0,
    ensures
        0 < gcd(a, b) <= a,
        gcd(a, b) <= b,
{
    lemma_gcd_positive(a, b);
    lemma_gcd_at_most_second(a, b);
    let q = a / b;
    let r = a % b;
    vstd::arithmetic::div_mod::lemma_fundamental_div_mod(a as int, b as int);
    assert(q >= 0 && 0 <= r < b);
    if r == 0 {
        assert(gcd(b, 0) == b);
        assert(q >= 1) by (nonlinear_arith)
            requires
                a == b * q + r,
                r == 0,
                a > 0,
                q >= 0,
        ;
        assert(b * q >= b) by (nonlinear_arith)
            requires
                q >= 1,
                b > 0,
        ;
    } else {
        lemma_gcd_at_most_second(b, r);
        assert(b * q >= 0) by (nonlinear_arith)
            requires
                q >= 0,
                b > 0,
        ;
    }
}

/// The greatest common divisor of `a` and `b`, for wide integers.
fn gcd_of_wide(a: u128, b: u128) -> (r: u128)
    ensures
        r == gcd(a as nat, b as nat),
{
    let mut x = a;
    let mut y = b;
    while y != 0
        invariant
            gcd(x as nat, y as nat) == gcd(a as nat, b as nat),
        decreases y,
    {
        let t = x % y;
        x = y;
        y = t;
    }
    x
}

/// The greatest common divisor divides both numbers.
pub proof fn lemma_gcd_divides(a: nat, b: nat)
    requires
        a > 0 || b > 0,
    ensures
        gcd(a, b) > 0,
        a % gcd(a, b) == 0,
        b % gcd(a, b) == 0,
    decreases b,
{
    if b == 0 {
        vstd::arithmetic::div_mod::lemma_mod_multiples_basic(1, a as int);
        vstd::arithmetic::div_mod::lemma_mod_multiples_basic(0, a as int);
    } else {
        let r = a % b;
        lemma_gcd_divides(b, r);
        let g = gcd(b, r) as int;
        assert(gcd(a, b) == g);
        vstd::arithmetic::div_mod::lemma_fundamental_div_mod(a as int, b as int);
        vstd::arithmetic::div_mod::lemma_fundamental_div_mod(b as int, g);
        vstd::arithmetic::div_mod::lemma_fundamental_div_mod(r as int, g);
        let q = a as int / b as int;
        let k1 = b as int / g;
        let k2 = r as int / g;
        assert(a == g * (k1 * q + k2)) by (nonlinear_arith)
            requires
                a == b * q + r,
                b == g * k1,
                r == g * k2,
        ;
        vstd::arithmetic::div_mod::lemma_mod_multiples_basic(k1 * q + k2, g);
        assert((k1 * q + k2) * g == g * (k1 * q + k2)) by (nonlinear_arith);
    }
}

/// Reducing `n / d` keeps its value, and the reduced fraction holds in 64
/// bits wherever `n / d` does.
pub proof fn lemma_reduced(n: int, d: int)
    requires
        d > 0,
    ensures
        reduced_num(n, d) * d == n * reduced_den(n, d),
        reduced_den(n, d) > 0,
        abs(reduced_num(n, d)) <= abs(n),
        reduced_den(n, d) <= d,
        fits(n, d) ==> fits(reduced_num(n, d), reduced_den(n, d)),
{
    let a = abs(n) as nat;
    lemma_gcd_divides(a, d as nat);
    let g = gcd(a, d as nat) as int;
    vstd::arithmetic::div_mod::lemma_fundamental_div_mod(a as int, g);
    vstd::arithmetic::div_mod::lemma_fundamental_div_mod(d, g);
    let p = a as int / g;
    let q = d / g;
    assert(a == g * p && d == g * q);
    assert(p >= 0 && q > 0 && p <= a && q <= d) by (nonlinear_arith)
        requires
            a == g * p,
            d == g * q,
            g > 0,
            a >= 0,
            d > 0,
    ;
    assert(p * d == a * q) by (nonlinear_arith)
        requires
            a == g * p,
            d == g * q,
    ;
    if n < 0 {
        assert(reduced_num(n, d) == -p);
        assert((-p) * d == (-(a as int)) * q) by (nonlinear_arith)
            requires
                p * d == a * q,
        ;
    } else {
        assert(reduced_num(n, d) == p);
    }
}

/// The greatest common divisor of `a` and `b`.
pub fn gcd_of(a: u64, b: u64) -> (r: u64)
    ensures
        r == gcd(a as nat, b as nat),
{
    let mut x = a;
    let mut y = b;
    while y != 0
        invariant
            gcd(x as nat, y as nat) == gcd(a as nat, b as nat),
        decreases y,
    {
        let t = x % y;
        x = y;
        y = t;
    }
    x
}

} // verus!
