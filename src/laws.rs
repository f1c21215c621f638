//! Algebraic laws of the operators and of evaluation.

use vstd::prelude::*;
use crate::ast::{Expr, Opcode};
use crate::compare::equals;
use crate::complex::Complex;
use crate::error::EvalError;
use crate::number::{
    lemma_minus_zero_value, lemma_over_zero, lemma_plus_commutes, lemma_plus_zero,
    lemma_plus_zero_value, lemma_ring_errors, lemma_same_value_refl, lemma_small_ints,
    lemma_times_commutes, lemma_times_one, lemma_times_zero, lemma_same_value_trans, Number,
};
use crate::rules::{outcome, rectangular, same_shape, in_grid, scalar_outcome};
use crate::solver::{cleans, evaluates, lower_of, Solver};

verus! {

/// The numbers inside a scalar are well formed, as every `Number` value is.
pub open spec fn scalar_wf(x: Expr) -> bool {
    match x {
        Expr::Number(n) => n.wf(),
        Expr::Complex(a, b) => a.wf() && b.wf(),
        _ => true,
    }
}

/// A value as evaluation leaves it: a complex with a zero imaginary part
/// becomes a number, everything else stays.
pub open spec fn normalized(x: Expr) -> Expr {
    match x {
        Expr::Complex(a, b) => if b.is_zero_value() { Expr::Number(a) } else { x },
        _ => x,
    }
}

proof fn lemma_complex_plus_commutes(c: Complex, d: Complex)
    ensures
        c.plus(d) == d.plus(c),
{
    lemma_plus_commutes(c.re, d.re);
    lemma_plus_commutes(c.im, d.im);
}

proof fn lemma_complex_times_commutes(c: Complex, d: Complex)
    ensures
        c.times(d) == d.times(c),
{
    lemma_times_commutes(c.re, d.re);
    lemma_times_commutes(c.im, d.im);
    lemma_times_commutes(c.im, d.re);
    lemma_times_commutes(c.re, d.im);
    lemma_ring_errors(c.re, d.re);
    lemma_ring_errors(c.im, d.im);
    lemma_ring_errors(c.im, d.re);
    lemma_ring_errors(c.re, d.im);
    let x = c.im.times(d.re);
    let y = c.re.times(d.im);
    if x is Ok && y is Ok {
        lemma_plus_commutes(x->Ok_0, y->Ok_0);
    }
}

/// Addition commutes between numbers, complex numbers and the imaginary unit:
/// `x + y` and `y + x` have the same outcome.
pub proof fn law_add_commutes(x: Expr, y: Expr)
    requires
        x.is_scalar(),
        y.is_scalar(),
    ensures
        forall|r: Result<Expr, EvalError>| outcome(Opcode::Add, x, y, r) <==> outcome(Opcode::Add, y, x, r),
{
    lemma_complex_plus_commutes(x.as_complex(), y.as_complex());
    if let (Expr::Number(a), Expr::Number(b)) = (x, y) {
        lemma_plus_commutes(a, b);
    }
}

/// Multiplication commutes between numbers, complex numbers and the imaginary
/// unit: `x * y` and `y * x` have the same outcome.
pub proof fn law_mul_commutes(x: Expr, y: Expr)
    requires
        x.is_scalar(),
        y.is_scalar(),
    ensures
        forall|r: Result<Expr, EvalError>| outcome(Opcode::Mul, x, y, r) <==> outcome(Opcode::Mul, y, x, r),
{
    lemma_complex_times_commutes(x.as_complex(), y.as_complex());
    if let (Expr::Number(a), Expr::Number(b)) = (x, y) {
        lemma_times_commutes(a, b);
    }
}

proof fn lemma_scalar_add_zero(x: Expr)
    requires
        x.is_scalar(),
        scalar_wf(x),
    ensures
        scalar_outcome(Opcode::Add, x, Expr::Number(Number::from_int(0))) matches Ok(v) && equals(v, x),
{
    lemma_small_ints();
    match x {
        Expr::Number(a) => {
            lemma_plus_zero(a);
            lemma_same_value_refl(a);
            lemma_same_value_refl(Number::from_int(0));
        },
        Expr::Complex(a, b) => {
            lemma_plus_zero(a);
            lemma_plus_zero(b);
            lemma_same_value_refl(a);
            lemma_same_value_refl(b);
        },
        _ => {},
    }
}

proof fn lemma_scalar_mul_one(x: Expr)
    requires
        x.is_scalar(),
        scalar_wf(x),
    ensures
        x is Number ==> scalar_outcome(Opcode::Mul, x, Expr::Number(Number::from_int(1))) is Ok,
        x is Imaginary ==> scalar_outcome(Opcode::Mul, x, Expr::Number(Number::from_int(1))) is Ok,
        scalar_outcome(Opcode::Mul, x, Expr::Number(Number::from_int(1))) matches Ok(v) ==> equals(v, x),
{
    lemma_small_ints();
    match x {
        Expr::Number(a) => {
            lemma_times_one(a);
            lemma_same_value_refl(Number::from_int(0));
            let v = a.times(Number::from_int(1))->Ok_0;
            assert(v.same_value(a));
            assert(equals(Expr::Number(v), x));
            assert(scalar_outcome(Opcode::Mul, x, Expr::Number(Number::from_int(1))) == Ok::<Expr, EvalError>(
                Expr::Number(v),
            ));
        },
        Expr::Complex(a, b) => {
            lemma_times_one(a);
            lemma_times_one(b);
            lemma_times_zero(a);
            lemma_times_zero(b);
            let a1 = a.times(Number::from_int(1))->Ok_0;
            let b1 = b.times(Number::from_int(1))->Ok_0;
            let b0 = b.times(Number::from_int(0))->Ok_0;
            let a0 = a.times(Number::from_int(0))->Ok_0;
            lemma_minus_zero_value(a1, b0);
            lemma_plus_zero_value(b1, a0);
            if a1.minus(b0) is Ok {
                lemma_same_value_trans(a1.minus(b0)->Ok_0, a1, a);
            }
            if b1.plus(a0) is Ok {
                lemma_same_value_trans(b1.plus(a0)->Ok_0, b1, b);
            }
        },
        _ => {},
    }
}

/// `Imaginary` behaves as `Complex(0, 1)` under every operator but the matrix
/// product (which keeps its operands unresolved), on either side of a scalar.
pub proof fn law_imaginary_is_unit(op: Opcode, y: Expr)
    requires
        y.is_scalar(),
        op != Opcode::Prod,
    ensures
        scalar_outcome(op, Expr::Imaginary, y) == scalar_outcome(
            op,
            Expr::Complex(Number::from_int(0), Number::from_int(1)),
            y,
        ),
        scalar_outcome(op, y, Expr::Imaginary) == scalar_outcome(
            op,
            y,
            Expr::Complex(Number::from_int(0), Number::from_int(1)),
        ),
{
}

/// Dividing any scalar by `Number(0)` fails with `DivisionByZero`, and so does
/// the remainder of a number by `Number(0)`.
pub proof fn law_division_by_zero(x: Expr)
    requires
        x.is_scalar(),
    ensures
        scalar_outcome(Opcode::Div, x, Expr::Number(Number::from_int(0))) == Err::<Expr, EvalError>(
            EvalError::DivisionByZero,
        ),
        x is Number ==> scalar_outcome(Opcode::Rem, x, Expr::Number(Number::from_int(0))) == Err::<
            Expr,
            EvalError,
        >(EvalError::DivisionByZero),
{
    lemma_small_ints();
    match x {
        Expr::Number(a) => lemma_over_zero(a),
        _ => {},
    }
}

/// A scalar, or a matrix (of any shape) of such values.
pub open spec fn is_value(v: Expr) -> bool
    decreases v,
    via is_value_decreases
{
    match v {
        Expr::Matrix(rows) => forall|i: int, j: int| in_grid(rows, i, j) ==> is_value(#[trigger] rows[i][j]),
        _ => v.is_scalar(),
    }
}

#[via_fn]
proof fn is_value_decreases(v: Expr) {
    if let Expr::Matrix(rows) = v {
        crate::rules::lemma_cells_decrease(rows);
    }
}

/// A value with no free names: a scalar, or a rectangular matrix of values.
pub open spec fn concrete(v: Expr) -> bool
    decreases v,
    via concrete_decreases
{
    match v {
        Expr::Matrix(rows) => rectangular(rows) && forall|i: int, j: int|
            in_grid(rows, i, j) ==> concrete(#[trigger] rows[i][j]),
        _ => v.is_scalar(),
    }
}

#[via_fn]
proof fn concrete_decreases(v: Expr) {
    if let Expr::Matrix(rows) = v {
        crate::rules::lemma_cells_decrease(rows);
    }
}

/// `w` is `v` as evaluation leaves it: scalars normalized, matrices cell by cell.
pub open spec fn evaluated_form(w: Expr, v: Expr) -> bool
    decreases v,
    via evaluated_form_decreases
{
    match v {
        Expr::Matrix(rows) => match w {
            Expr::Matrix(m) => same_shape(m, rows) && forall|i: int, j: int|
                in_grid(rows, i, j) ==> evaluated_form(#[trigger] m[i][j], rows[i][j]),
            _ => false,
        },
        _ => w == normalized(v),
    }
}

#[via_fn]
proof fn evaluated_form_decreases(w: Expr, v: Expr) {
    if let Expr::Matrix(rows) = v {
        crate::rules::lemma_cells_decrease(rows);
    }
}

/// Evaluating a value with no free names gives the value back, with each
/// complex whose imaginary part is zero as a number.
pub proof fn law_evaluate_value(env: Solver, v: Expr, bound: Option<(String, Expr)>, depth: nat, r: Result<Expr, EvalError>)
    requires
        concrete(v),
        evaluates(env, v, bound, depth, r),
    ensures
        r matches Ok(w) && evaluated_form(w, v),
    decreases v,
{
    match v {
        Expr::Matrix(rows) => {
            crate::rules::lemma_cells_decrease(rows);
            match r {
                Ok(Expr::Matrix(m)) => {
                    assert forall|i: int, j: int| in_grid(rows, i, j) implies evaluated_form(#[trigger] m[i][j], rows[i][j]) by {
                        law_evaluate_value(env, rows[i][j], bound, depth, Ok(m[i][j]));
                    }
                },
                Err(EvalError::Cells { failures: list, partial: _ }) => {
                    let c = list[0];
                    assert(in_grid(rows, c.y as int, c.x as int));
                    law_evaluate_value(env, rows[c.y as int][c.x as int], bound, depth, Err(c.error));
                },
                _ => {},
            }
        },
        _ => {},
    }
}

/// The numbers inside a value are well formed, as every `Number` value is.
pub open spec fn values_wf(v: Expr) -> bool
    decreases v,
    via values_wf_decreases
{
    match v {
        Expr::Matrix(rows) => forall|i: int, j: int| in_grid(rows, i, j) ==> values_wf(#[trigger] rows[i][j]),
        _ => scalar_wf(v),
    }
}

#[via_fn]
proof fn values_wf_decreases(v: Expr) {
    if let Expr::Matrix(rows) = v {
        crate::rules::lemma_cells_decrease(rows);
    }
}

/// Adding `Number(0)` to a value (a scalar, or a matrix of values of any
/// shape, cell by cell) succeeds and gives a value equal to it.
pub proof fn law_add_zero(x: Expr, r: Result<Expr, EvalError>)
    requires
        is_value(x),
        values_wf(x),
        outcome(Opcode::Add, x, Expr::Number(Number::from_int(0)), r),
    ensures
        r matches Ok(v) && equals(v, x),
    decreases x,
{
    match x {
        Expr::Matrix(rows) => {
            crate::rules::lemma_cells_decrease(rows);
            match r {
                Ok(Expr::Matrix(m)) => {
                    assert forall|i: int, j: int| in_grid(m, i, j) implies equals(m[i][j], #[trigger] rows[i][j]) by {
                        assert(in_grid(rows, i, j));
                        law_add_zero(rows[i][j], Ok(m[i][j]));
                    }
                },
                Err(EvalError::Cells { failures: list, partial: _ }) => {
                    let c = list[0];
                    assert(in_grid(rows, c.y as int, c.x as int));
                    law_add_zero(rows[c.y as int][c.x as int], Err(c.error));
                },
                _ => {},
            }
        },
        _ => lemma_scalar_add_zero(x),
    }
}

/// Multiplying a value by `Number(1)` gives a value equal to it wherever the
/// exact result fits; for a number and for the imaginary unit it always fits.
pub proof fn law_mul_one(x: Expr, r: Result<Expr, EvalError>)
    requires
        is_value(x),
        values_wf(x),
        outcome(Opcode::Mul, x, Expr::Number(Number::from_int(1)), r),
    ensures
        x is Number ==> r is Ok,
        x is Imaginary ==> r is Ok,
        r matches Ok(v) ==> equals(v, x),
    decreases x,
{
    match x {
        Expr::Matrix(rows) => {
            crate::rules::lemma_cells_decrease(rows);
            match r {
                Ok(Expr::Matrix(m)) => {
                    assert forall|i: int, j: int| in_grid(m, i, j) implies equals(m[i][j], #[trigger] rows[i][j]) by {
                        assert(in_grid(rows, i, j));
                        law_mul_one(rows[i][j], Ok(m[i][j]));
                    }
                },
                _ => {},
            }
        },
        _ => lemma_scalar_mul_one(x),
    }
}

/// Adding a scalar `c` to `a + l`, where `a` is a scalar and `l` a variable,
/// a function application or an unresolved operation, gives `(a + c) + l`:
/// the constants meet and the literal stays as it was.
pub proof fn law_reduce_constants(a: Expr, l: Expr, c: Expr, r: Result<Expr, EvalError>)
    requires
        a.is_scalar(),
        c.is_scalar(),
        l.is_literal(),
        outcome(Opcode::Add, Expr::Op(Box::new(a), Opcode::Add, Box::new(l)), c, r),
    ensures
        match scalar_outcome(Opcode::Add, a, c) {
            Ok(s) => r == Ok::<Expr, EvalError>(Expr::Op(Box::new(s), Opcode::Add, Box::new(l))),
            Err(e) => r == Err::<Expr, EvalError>(e),
        },
{
    let x = Expr::Op(Box::new(a), Opcode::Add, Box::new(l));
    assert(crate::rules::reduced_left(Opcode::Add, x, c, r));
    assert(crate::rules::joined_left(Opcode::Add, a, c, Opcode::Add, l, r));
    match r {
        Ok(Expr::Op(s, _, _)) => assert(outcome(Opcode::Add, a, c, Ok(*s))),
        Err(e) => assert(outcome(Opcode::Add, a, c, Err(e))),
        _ => {},
    }
}

/// Cell (`i`, `j`) of `rows`.
pub open spec fn cell_at(rows: Vec<Vec<Expr>>, i: int, j: int) -> Expr {
    rows[i][j]
}

/// Whether an application of the function `fun` (by its lower-case name)
/// occurs anywhere in `e`: in an operand, a matrix cell or an argument.
pub open spec fn mentions(fun: Seq<char>, e: Expr) -> bool
    decreases e,
    via mentions_decreases
{
    match e {
        Expr::Function(s, arg) => lower_of(s@) == fun || mentions(fun, *arg),
        Expr::Op(a, _, b) => mentions(fun, *a) || mentions(fun, *b),
        Expr::Matrix(rows) => exists|i: int, j: int| in_grid(rows, i, j) && mentions(fun, #[trigger] cell_at(rows, i, j)),
        _ => false,
    }
}

#[via_fn]
proof fn mentions_decreases(fun: Seq<char>, e: Expr) {
    if let Expr::Matrix(rows) = e {
        crate::rules::lemma_cells_decrease(rows);
    }
}

/// Cleaning the body `e` of the function `fun` fails exactly when `e` applies
/// `fun` somewhere: a definition is rejected as recursive before anything is
/// evaluated, and only then.
pub proof fn law_recursive_definition(fun: Seq<char>, e: Expr, r: Result<Expr, EvalError>)
    requires
        cleans(fun, e, r),
    ensures
        r is Err <==> mentions(fun, e),
    decreases e,
{
    match e {
        Expr::Function(s, arg) => {
            if lower_of(s@) != fun {
                match r {
                    Ok(Expr::Function(_, a2)) => law_recursive_definition(fun, *arg, Ok(*a2)),
                    Err(x) => law_recursive_definition(fun, *arg, Err(x)),
                    _ => {},
                }
            }
        },
        Expr::Op(a, _, b) => {
            match r {
                Ok(Expr::Op(l, _, rr)) => {
                    law_recursive_definition(fun, *a, Ok(*l));
                    law_recursive_definition(fun, *b, Ok(*rr));
                },
                Err(x) => {
                    if cleans(fun, *a, Err(x)) {
                        law_recursive_definition(fun, *a, Err(x));
                    } else {
                        law_recursive_definition(fun, *b, Err(x));
                    }
                },
                _ => {},
            }
        },
        Expr::Matrix(rows) => {
            crate::rules::lemma_cells_decrease(rows);
            match r {
                Ok(Expr::Matrix(m)) => {
                    assert forall|i: int, j: int| in_grid(rows, i, j) implies !mentions(fun, #[trigger] cell_at(rows, i, j)) by {
                        law_recursive_definition(fun, rows[i][j], Ok(m[i][j]));
                    }
                },
                Err(EvalError::Cells { failures: list, partial: _ }) => {
                    let c = list[0];
                    assert(in_grid(rows, c.y as int, c.x as int));
                    law_recursive_definition(fun, rows[c.y as int][c.x as int], Err(c.error));
                    assert(mentions(fun, cell_at(rows, c.y as int, c.x as int)));
                },
                _ => {},
            }
        },
        _ => {},
    }
}

} // verus!
