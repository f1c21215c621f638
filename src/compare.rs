//! Equality and order of expressions.

use vstd::prelude::*;
use std::cmp::Ordering;
use crate::ast::Expr;
use crate::number::Number;
use crate::rules::{in_grid, lemma_cells_decrease, same_shape};

verus! {

/// Equality of expressions: scalars by value, `Imaginary` as `0 + 1i`, a
/// complex and the imaginary unit by the imaginary part alone, matrices of one
/// shape cell by cell; every other pair of kinds is unequal.
pub open spec fn equals(a: Expr, b: Expr) -> bool
    decreases a,
    via equals_decreases
{
    match (a, b) {
        (Expr::Matrix(x), Expr::Matrix(y)) => same_shape(x, y) && forall|i: int, j: int|
            in_grid(x, i, j) ==> equals(x[i][j], #[trigger] y[i][j]),
        (Expr::Complex(_, im), Expr::Imaginary) => im.same_value(Number::from_int(1)),
        (Expr::Imaginary, Expr::Complex(_, im)) => im.same_value(Number::from_int(1)),
        _ => a.is_scalar() && b.is_scalar() && a.as_complex().re.same_value(b.as_complex().re)
            && a.as_complex().im.same_value(b.as_complex().im),
    }
}

#[via_fn]
proof fn equals_decreases(a: Expr, b: Expr) {
    if let Expr::Matrix(x) = a {
        lemma_cells_decrease(x);
    }
}

pub open spec fn compare_values(x: Number, y: Number) -> Ordering {
    if x.below(y) {
        Ordering::Less
    } else if y.below(x) {
        Ordering::Greater
    } else {
        Ordering::Equal
    }
}

/// Order of expressions: numbers, complex numbers and the imaginary unit by
/// modulus (compared through the squared moduli, `None` where one of them
/// overflows); no other expressions are ordered.
pub open spec fn order(a: Expr, b: Expr) -> Option<Ordering> {
    if a.is_scalar() && b.is_scalar() {
        match (a.as_complex().norm_sq(), b.as_complex().norm_sq()) {
            (Ok(x), Ok(y)) => Some(compare_values(x, y)),
            _ => None,
        }
    } else {
        None
    }
}

fn compare_numbers(x: &Number, y: &Number) -> (r: Ordering)
    ensures
        r == compare_values(*x, *y),
{
    if x.lt_value(y) {
        Ordering::Less
    } else if y.lt_value(x) {
        Ordering::Greater
    } else {
        Ordering::Equal
    }
}

impl Expr {
    /// Equality as `equals` defines it.
    pub fn equal(&self, other: &Expr) -> (r: bool)
        ensures
            r == equals(*self, *other),
        decreases self,
    {
        match (self, other) {
            (Expr::Matrix(x), Expr::Matrix(y)) => {
                proof {
                    lemma_cells_decrease(*x);
                }
                if x.len() != y.len() {
                    return false;
                }
                let mut i: usize = 0;
                while i < x.len()
                    invariant
                        *self == Expr::Matrix(*x),
                        *other == Expr::Matrix(*y),
                        x.len() == y.len(),
                        i <= x.len(),
                        forall|k: int| 0 <= k < i ==> #[trigger] x[k].len() == y[k].len(),
                        forall|k: int, j: int|
                            0 <= k < i && 0 <= j < x[k].len() ==> equals(x[k][j], #[trigger] y[k][j]),
                        forall|k: int, j: int|
                            in_grid(*x, k, j) ==> decreases_to!(Expr::Matrix(*x) => #[trigger] x[k][j]),
                    decreases x.len() - i,
                {
                    if x[i].len() != y[i].len() {
                        assert(!same_shape(*x, *y));
                        return false;
                    }
                    let mut j: usize = 0;
                    while j < x[i].len()
                        invariant
                            *self == Expr::Matrix(*x),
                            *other == Expr::Matrix(*y),
                            x.len() == y.len(),
                            i < x.len(),
                            x[i as int].len() == y[i as int].len(),
                            j <= x[i as int].len(),
                            forall|m: int| 0 <= m < j ==> equals(x[i as int][m], #[trigger] y[i as int][m]),
                            forall|k: int, m: int|
                                in_grid(*x, k, m) ==> decreases_to!(Expr::Matrix(*x) => #[trigger] x[k][m]),
                        decreases x[i as int].len() - j,
                    {
                        assert(in_grid(*x, i as int, j as int));
                        if !x[i][j].equal(&y[i][j]) {
                            assert(!equals(x[i as int][j as int], y[i as int][j as int]));
                            return false;
                        }
                        j = j + 1;
                    }
                    i = i + 1;
                }
                true
            },
            (Expr::Complex(_, im), Expr::Imaginary) => im.eq_value(&Number::new(1)),
            (Expr::Imaginary, Expr::Complex(_, im)) => im.eq_value(&Number::new(1)),
            _ => {
                if self.is_scalar_expr() && other.is_scalar_expr() {
                    let a = self.to_complex();
                    let b = other.to_complex();
                    a.re.eq_value(&b.re) && a.im.eq_value(&b.im)
                } else {
                    false
                }
            },
        }
    }

    /// Order as `order` defines it.
    pub fn compare(&self, other: &Expr) -> (r: Option<Ordering>)
        ensures
            r == order(*self, *other),
    {
        if !(self.is_scalar_expr() && other.is_scalar_expr()) {
            return None;
        }
        match (self.to_complex().squared_module(), other.to_complex().squared_module()) {
            (Ok(x), Ok(y)) => Some(compare_numbers(&x, &y)),
            _ => None,
        }
    }
}

impl PartialEq for Expr {
    fn eq(&self, other: &Expr) -> (r: bool) {
        self.equal(other)
    }
}

impl vstd::std_specs::cmp::PartialEqSpecImpl for Expr {
    open spec fn obeys_eq_spec() -> bool {
        true
    }

    open spec fn eq_spec(&self, other: &Expr) -> bool {
        equals(*self, *other)
    }
}

impl PartialOrd for Expr {
    fn partial_cmp(&self, other: &Expr) -> (r: Option<Ordering>) {
        self.compare(other)
    }
}

impl vstd::std_specs::cmp::PartialOrdSpecImpl for Expr {
    open spec fn obeys_partial_cmp_spec() -> bool {
        true
    }

    open spec fn partial_cmp_spec(&self, other: &Expr) -> Option<Ordering> {
        order(*self, *other)
    }
}

} // verus!
