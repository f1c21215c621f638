//! What every operator gives, stated as relations between operands and outcomes.

use vstd::prelude::*;
use crate::ast::{Expr, Opcode};
use crate::complex::Complex;
use crate::error::{CellError, EvalError};
use crate::number::{abs, Number};

verus! {

// The meaning of every operator, as relations between two operands and an
// outcome. Between scalars the outcome is a function of the operands; matrices,
// reductions and distributions relate each piece of the outcome to the outcome
// of the operator on the pieces of the operands.

pub open spec fn lift_num(r: Result<Number, EvalError>) -> Result<Expr, EvalError> {
    match r {
        Ok(n) => Ok(Expr::Number(n)),
        Err(e) => Err(e),
    }
}

pub open spec fn lift(r: Result<Complex, EvalError>) -> Result<Expr, EvalError> {
    match r {
        Ok(c) => Ok(Expr::Complex(c.re, c.im)),
        Err(e) => Err(e),
    }
}

pub open spec fn type_err(x: Expr, op: Opcode, y: Expr) -> EvalError {
    EvalError::UnsupportedOperandKinds { left: x.kind_of(), op, right: y.kind_of() }
}

/// A successful outcome `u`.
pub open spec fn success(u: Expr) -> Result<Expr, EvalError> {
    Ok(u)
}

/// The unresolved operation `x op y`.
pub open spec fn unresolved(x: Expr, op: Opcode, y: Expr) -> Result<Expr, EvalError> {
    Ok(Expr::Op(Box::new(x), op, Box::new(y)))
}

pub open spec fn flip(op: Opcode) -> Opcode {
    if op == Opcode::Add {
        Opcode::Sub
    } else {
        Opcode::Add
    }
}

/// `b^e` for an integer `e`: `e` multiplications by `b`, or `-e` divisions.
pub open spec fn num_power(b: Number, e: int) -> Result<Number, EvalError>
    decreases abs(e),
{
    if e == 0 {
        Ok(Number::from_int(1))
    } else if e > 0 {
        match num_power(b, e - 1) {
            Ok(p) => p.times(b),
            Err(x) => Err(x),
        }
    } else {
        match num_power(b, e + 1) {
            Ok(p) => p.over(b),
            Err(x) => Err(x),
        }
    }
}

/// `c^k` for an integer `k`: `k` multiplications by `c`, or `-k` divisions.
pub open spec fn complex_power(c: Complex, k: int) -> Result<Complex, EvalError>
    decreases abs(k),
{
    if k == 0 {
        Ok(Complex::of_real(Number::from_int(1)))
    } else if k > 0 {
        match complex_power(c, k - 1) {
            Ok(p) => p.times(c),
            Err(x) => Err(x),
        }
    } else {
        match complex_power(c, k + 1) {
            Ok(p) => p.over(c),
            Err(x) => Err(x),
        }
    }
}

/// A real power of a real: the exponent must be an integer.
pub open spec fn number_pow(b: Number, e: Number) -> Result<Expr, EvalError> {
    if !e.is_integer() {
        Err(EvalError::InvalidArgument)
    } else {
        lift_num(num_power(b, e.whole()))
    }
}

/// A real power of a complex: the integer part `k` of the exponent is applied
/// exactly; a nonzero fractional part `s` is left as one more multiplication
/// (or division, for a negative exponent) by `c * s`.
pub open spec fn complex_pow(c: Complex, e: Number) -> Result<Expr, EvalError> {
    match e.minus(Number::from_int(e.whole())) {
        Err(x) => Err(x),
        Ok(s) => match complex_power(c, e.whole()) {
            Err(x) => Err(x),
            Ok(p) => if s.is_zero_value() {
                lift(Ok(p))
            } else {
                match c.times(Complex::of_real(s)) {
                    Err(x) => Err(x),
                    Ok(cs) => if e.below(Number::from_int(0)) {
                        lift(p.over(cs))
                    } else {
                        lift(p.times(cs))
                    },
                }
            },
        },
    }
}

/// The outcome of an operator between two scalars.
pub open spec fn scalar_outcome(op: Opcode, x: Expr, y: Expr) -> Result<Expr, EvalError> {
    match (x, y) {
        (Expr::Number(a), Expr::Number(b)) => match op {
            Opcode::Add => lift_num(a.plus(b)),
            Opcode::Sub => lift_num(a.minus(b)),
            Opcode::Mul => lift_num(a.times(b)),
            Opcode::Div => lift_num(a.over(b)),
            Opcode::Rem => lift_num(a.modulo(b)),
            Opcode::Pow => number_pow(a, b),
            Opcode::Prod => unresolved(x, op, y),
            Opcode::ProdDiv => Err(type_err(x, op, y)),
        },
        _ => match op {
            Opcode::Add => lift(x.as_complex().plus(y.as_complex())),
            Opcode::Sub => lift(x.as_complex().minus(y.as_complex())),
            Opcode::Mul => lift(x.as_complex().times(y.as_complex())),
            Opcode::Div => lift(x.as_complex().over(y.as_complex())),
            Opcode::Rem => lift(x.as_complex().modulo(y.as_complex())),
            Opcode::Pow => match y {
                Expr::Number(e) => complex_pow(x.as_complex(), e),
                _ => Err(type_err(x, op, y)),
            },
            Opcode::Prod => unresolved(x, op, y),
            Opcode::ProdDiv => Err(type_err(x, op, y)),
        },
    }
}

/// Two operands that the reduction engine may combine: two scalars or two matrices.
pub open spec fn pair(p: Expr, q: Expr) -> bool {
    (p.is_scalar() && q.is_scalar()) || (p is Matrix && q is Matrix)
}

pub open spec fn same_shape(a: Vec<Vec<Expr>>, b: Vec<Vec<Expr>>) -> bool {
    a.len() == b.len() && forall|i: int| 0 <= i < a.len() ==> #[trigger] a[i].len() == b[i].len()
}

/// Whether cell (`i`, `j`) lies in the rows `a`.
pub open spec fn in_grid(a: Vec<Vec<Expr>>, i: int, j: int) -> bool {
    0 <= i < a.len() && 0 <= j < a[i].len()
}

/// Whether a failure of cell (`i`, `j`) is in the list.
pub open spec fn listed(list: Seq<CellError>, i: int, j: int) -> bool {
    exists|k: int| 0 <= k < list.len() && #[trigger] list[k].y == i && list[k].x == j
}

/// The failures are in row-major order, each cell at most once.
pub open spec fn row_major(list: Seq<CellError>) -> bool {
    forall|k1: int, k2: int|
        0 <= k1 < k2 < list.len() ==> (#[trigger] list[k1].y < #[trigger] list[k2].y || (list[k1].y
            == list[k2].y && list[k1].x < list[k2].x))
}

/// The operands of a cell-by-cell operation.
pub enum Cells {
    /// Two matrices of the same shape, cell with cell.
    Both(Vec<Vec<Expr>>, Vec<Vec<Expr>>),
    /// Each cell of the matrix, on the left, with one scalar.
    Left(Vec<Vec<Expr>>, Expr),
    /// One scalar, on the left, with each cell of the matrix.
    Right(Expr, Vec<Vec<Expr>>),
}

impl Cells {
    /// The matrix whose cells are walked.
    pub open spec fn grid(self) -> Vec<Vec<Expr>> {
        match self {
            Cells::Both(a, _) => a,
            Cells::Left(a, _) => a,
            Cells::Right(_, b) => b,
        }
    }

    /// The operands of cell (`i`, `j`).
    pub open spec fn args(self, i: int, j: int) -> (Expr, Expr) {
        match self {
            Cells::Both(a, b) => (a[i][j], b[i][j]),
            Cells::Left(a, s) => (a[i][j], s),
            Cells::Right(s, b) => (s, b[i][j]),
        }
    }

    /// The left operand of the whole operation.
    pub open spec fn left(self) -> Expr {
        match self {
            Cells::Both(a, _) => Expr::Matrix(a),
            Cells::Left(a, _) => Expr::Matrix(a),
            Cells::Right(s, _) => s,
        }
    }

    /// The right operand of the whole operation.
    pub open spec fn right(self) -> Expr {
        match self {
            Cells::Both(_, b) => Expr::Matrix(b),
            Cells::Left(_, s) => s,
            Cells::Right(_, b) => Expr::Matrix(b),
        }
    }
}

/// Row `i` is the first whose length differs between `a` and `b`.
pub open spec fn first_uneven_pair(a: Vec<Vec<Expr>>, b: Vec<Vec<Expr>>, i: int) -> bool {
    0 <= i < a.len() && i < b.len() && a[i].len() != b[i].len() && forall|k: int|
        0 <= k < i ==> #[trigger] a[k].len() == b[k].len()
}

/// The failure for two matrices of unequal shapes: the row counts where they
/// differ, else the lengths of the first pair of rows that differ.
pub open spec fn shape_mismatch(a: Vec<Vec<Expr>>, b: Vec<Vec<Expr>>, r: Result<Expr, EvalError>) -> bool {
    if a.len() != b.len() {
        r == Err::<Expr, EvalError>(EvalError::DimensionMismatch { expected: a.len(), found: b.len() })
    } else {
        exists|i: int|
            #[trigger] first_uneven_pair(a, b, i) && r == Err::<Expr, EvalError>(
                EvalError::DimensionMismatch { expected: a[i].len(), found: b[i].len() },
            )
    }
}

/// Row `k` is the first whose length differs from the first row's.
pub open spec fn first_uneven_row(rows: Vec<Vec<Expr>>, k: int) -> bool {
    0 <= k < rows.len() && rows[k].len() != width(rows) && forall|j: int|
        0 <= j < k ==> #[trigger] rows[j].len() == width(rows)
}

/// The outcome of a cell-by-cell operation: two matrices of unequal shapes
/// fail at once, naming the shapes (see `shape_mismatch`); otherwise every cell is computed, and the outcome is the
/// matrix of the cells' outcomes, or, where any cell failed, the list of all
/// failed cells with their failures, in row-major order, beside the matrix in
/// which every cell that did not fail holds its outcome.
pub open spec fn grid_outcome(op: Opcode, c: Cells, r: Result<Expr, EvalError>) -> bool
    decreases c.left(), c.right(), 1nat,
    via grid_outcome_decreases
{
    if c matches Cells::Both(a, b) && !same_shape(a, b) {
        match c {
            Cells::Both(a, b) => shape_mismatch(a, b, r),
            _ => false,
        }
    } else {
        let g = c.grid();
        match r {
            Ok(Expr::Matrix(m)) => same_shape(m, g) && forall|i: int, j: int|
                in_grid(g, i, j) ==> outcome(op, c.args(i, j).0, c.args(i, j).1, Ok(#[trigger] m[i][j])),
            Err(EvalError::Cells { failures: list, partial: m }) => list.len() > 0 && row_major(list@) && (forall|k: int| 0 <= k < list.len() ==> m[(#[trigger] list[k]).y as int][list[k].x as int] == Expr::Number(crate::number::Number::from_int(0))) && (forall|k: int|
                0 <= k < list.len() ==> in_grid(g, #[trigger] list[k].y as int, list[k].x as int)
                    && outcome(op, c.args(list[k].y as int, list[k].x as int).0,
                    c.args(list[k].y as int, list[k].x as int).1, Err(list[k].error)))
                && same_shape(m, g) && (forall|i: int, j: int| in_grid(g, i, j) ==> listed(list@, i, j) ||
                outcome(op, c.args(i, j).0, c.args(i, j).1, Ok(#[trigger] m[i][j]))),
            _ => false,
        }
    }
}

/// Every cell of a matrix is below the matrix.
pub proof fn lemma_cells_decrease(a: Vec<Vec<Expr>>)
    ensures
        forall|i: int, j: int| in_grid(a, i, j) ==> decreases_to!(Expr::Matrix(a) => #[trigger] a[i][j]),
{
    assert forall|i: int, j: int| in_grid(a, i, j) implies decreases_to!(Expr::Matrix(a) => #[trigger] a[i][j]) by {
        let m = Expr::Matrix(a);
        assert(decreases_to!(m => m->Matrix_0));
        assert(decreases_to!(a => a[i]));
        assert(decreases_to!(a[i] => a[i][j]));
    }
}

#[via_fn]
proof fn grid_outcome_decreases(op: Opcode, c: Cells, r: Result<Expr, EvalError>) {
    match c {
        Cells::Both(a, b) => {
            lemma_cells_decrease(a);
            lemma_cells_decrease(b);
        },
        Cells::Left(a, _) => lemma_cells_decrease(a),
        Cells::Right(_, b) => lemma_cells_decrease(b),
    }
}

/// `r` is `s op_s t` whose part `s` is the outcome of `op_s` on `p` and `q`,
/// or the failure of that outcome.
pub open spec fn joined_left(op_s: Opcode, p: Expr, q: Expr, op: Opcode, t: Expr, r: Result<Expr, EvalError>) -> bool
    decreases p, q, 3nat,
{
    match r {
        Ok(Expr::Op(s, o, t2)) => o == op && *t2 == t && outcome(op_s, p, q, Ok(*s)),
        Ok(_) => false,
        Err(e) => outcome(op_s, p, q, Err(e)),
    }
}

/// `r` is `t op s` whose part `s` is the outcome of `op_s` on `p` and `q`,
/// or the failure of that outcome.
pub open spec fn joined_right(op_s: Opcode, p: Expr, q: Expr, t: Expr, op: Opcode, r: Result<Expr, EvalError>) -> bool
    decreases p, q, 3nat,
{
    match r {
        Ok(Expr::Op(t2, o, s)) => o == op && *t2 == t && outcome(op_s, p, q, Ok(*s)),
        Ok(_) => false,
        Err(e) => outcome(op_s, p, q, Err(e)),
    }
}

/// The outcome of `x op y` is `r`:
/// - between two scalars, `scalar_outcome`;
/// - `%` and `^` are defined between scalars only;
/// - `//` multiplies by the inverse of a matrix (see `inverse_shape`);
/// - `**` multiplies two matrices (see `product_shape`), and leaves other
///   operands unresolved;
/// - `+`, `-`, `*` and `/` work cell by cell between two matrices of one shape
///   and between a matrix and a scalar on either side (see `grid_outcome`); an
///   unresolved operation combined with a value is reduced (see
///   `reduced_left`, `reduced_right`); two unresolved operations cannot be
///   combined; any other pair stays unresolved.
pub open spec fn outcome(op: Opcode, x: Expr, y: Expr, r: Result<Expr, EvalError>) -> bool
    decreases x, y, 2nat,
{
    if x.is_scalar() && y.is_scalar() {
        r == scalar_outcome(op, x, y)
    } else if op == Opcode::Rem || op == Opcode::Pow {
        r == Err::<Expr, EvalError>(type_err(x, op, y))
    } else if op == Opcode::ProdDiv {
        match y {
            Expr::Matrix(b) => inverse_shape(b, r),
            _ => r == Err::<Expr, EvalError>(type_err(x, op, y)),
        }
    } else if op == Opcode::Prod {
        match (x, y) {
            (Expr::Matrix(a), Expr::Matrix(b)) => product_shape(a, b, r),
            (Expr::Op(_, _, _), Expr::Op(_, _, _)) => r == Err::<Expr, EvalError>(EvalError::CannotReduce),
            _ => r == unresolved(x, op, y),
        }
    } else {
        match (x, y) {
            (Expr::Matrix(a), Expr::Matrix(b)) => grid_outcome(op, Cells::Both(a, b), r),
            (Expr::Matrix(a), _) => if y.is_scalar() {
                grid_outcome(op, Cells::Left(a, y), r)
            } else if y is Op {
                reduced_right(op, x, y, r)
            } else {
                r == unresolved(x, op, y)
            },
            (_, Expr::Matrix(b)) => if x.is_scalar() {
                grid_outcome(op, Cells::Right(x, b), r)
            } else if x is Op {
                reduced_left(op, x, y, r)
            } else {
                r == unresolved(x, op, y)
            },
            (Expr::Op(_, _, _), Expr::Op(_, _, _)) => r == Err::<Expr, EvalError>(EvalError::CannotReduce),
            (Expr::Op(_, _, _), _) => reduced_left(op, x, y, r),
            (_, Expr::Op(_, _, _)) => reduced_right(op, x, y, r),
            _ => r == unresolved(x, op, y),
        }
    }
}

/// `x op y` where `x` is an unresolved operation and `y` is not.
pub open spec fn reduced_left(op: Opcode, x: Expr, y: Expr, r: Result<Expr, EvalError>) -> bool
    decreases x, y, 1nat,
{
    match x {
        Expr::Op(a, inner, b) => if (op == Opcode::Add || op == Opcode::Sub) && (inner == Opcode::Add
            || inner == Opcode::Sub) {
            if b.is_literal() && pair(*a, y) {
                // (a inner b) op c  =  (a op c) inner b
                joined_left(op, *a, y, inner, *b, r)
            } else if a.is_literal() && pair(*b, y) {
                // (a inner b) op c  =  a inner (b op' c)
                joined_right(if inner == Opcode::Add { op } else { flip(op) }, *b, y, *a, inner, r)
            } else {
                r == unresolved(x, op, y)
            }
        } else if op == Opcode::Mul && (inner == Opcode::Add || inner == Opcode::Sub) {
            // (a inner b) * c  =  (a * c) inner (b * c), with a copy of c in the second product
            match r {
                Ok(Expr::Op(s, o, t)) => o == inner && outcome(op, *a, y, Ok(*s)) && exists|y2: Expr|
                    #[trigger] crate::ast::deep_eq(y2, y) && outcome(op, *b, y2, Ok(*t)),
                Ok(_) => false,
                Err(e) => outcome(op, *a, y, Err(e)) || exists|s: Expr, y2: Expr|
                    outcome(op, *a, y, #[trigger] success(s)) && #[trigger] crate::ast::deep_eq(y2, y) && outcome(
                        op,
                        *b,
                        y2,
                        Err(e),
                    ),
            }
        } else {
            r == unresolved(x, op, y)
        },
        _ => false,
    }
}

/// `x op y` where `y` is an unresolved operation and `x` is not.
pub open spec fn reduced_right(op: Opcode, x: Expr, y: Expr, r: Result<Expr, EvalError>) -> bool
    decreases x, y, 1nat,
{
    match y {
        Expr::Op(a, inner, b) => if (op == Opcode::Add || op == Opcode::Sub) && (inner == Opcode::Add
            || inner == Opcode::Sub) {
            if b.is_literal() && pair(x, *a) {
                // c + (a inner b)  =  (c + a) inner b;   c - (a inner b)  =  (c - a) inner' b
                joined_left(op, x, *a, if op == Opcode::Add { inner } else { flip(inner) }, *b, r)
            } else if a.is_literal() && pair(x, *b) {
                if op == Opcode::Add {
                    // c + (a inner b)  =  a + (c inner b)
                    joined_right(inner, x, *b, *a, Opcode::Add, r)
                } else {
                    // c - (a inner b)  =  (c inner' b) - a
                    joined_left(flip(inner), x, *b, Opcode::Sub, *a, r)
                }
            } else {
                r == unresolved(x, op, y)
            }
        } else if op == Opcode::Mul && crate::ast::matrix_free(x) && (inner == Opcode::Add || inner == Opcode::Sub) {
            // c * (a inner b)  =  (c * a) inner (c * b)
            match r {
                Ok(Expr::Op(s, o, t)) => o == inner && outcome(op, x, *a, Ok(*s)) && outcome(op, x, *b, Ok(*t)),
                Ok(_) => false,
                Err(e) => outcome(op, x, *a, Err(e)) || exists|s: Expr|
                    outcome(op, x, *a, #[trigger] success(s)) && outcome(op, x, *b, Err(e)),
            }
        } else {
            r == unresolved(x, op, y)
        },
        _ => false,
    }
}

/// The number of columns of a matrix: the length of its first row.
pub open spec fn width(a: Vec<Vec<Expr>>) -> int {
    if a.len() == 0 {
        0
    } else {
        a[0].len() as int
    }
}

/// Every row has the width of the first.
pub open spec fn rectangular(a: Vec<Vec<Expr>>) -> bool {
    forall|i: int| 0 <= i < a.len() ==> #[trigger] a[i].len() == width(a)
}

/// Whether `a` and `b` can be multiplied: rectangular, with as many columns
/// in `a` as rows in `b`.
pub open spec fn product_fits(a: Vec<Vec<Expr>>, b: Vec<Vec<Expr>>) -> bool {
    a.len() > 0 && rectangular(a) && rectangular(b) && width(a) == b.len()
}

/// What the matrix product of `a` and `b` is known to be: a dimension error
/// naming the columns of `a` and the rows of `b`, before any cell is computed,
/// exactly when the operands do not fit; else a matrix with the rows of `a`
/// and the columns of `b`, or the failure of a cell (see `product_fails`).
pub open spec fn product_shape(a: Vec<Vec<Expr>>, b: Vec<Vec<Expr>>, r: Result<Expr, EvalError>) -> bool {
    if !product_fits(a, b) {
        r == Err::<Expr, EvalError>(EvalError::DimensionMismatch { expected: width(a) as usize, found: b.len() })
    } else {
        match r {
            Ok(Expr::Matrix(m)) => m.len() == a.len() && forall|i: int|
                0 <= i < m.len() ==> #[trigger] m[i].len() == width(b),
            Ok(_) => false,
            Err(_) => true,
        }
    }
}

/// A square 2x2 matrix.
pub open spec fn is_two_by_two(b: Vec<Vec<Expr>>) -> bool {
    b.len() == 2 && b[0].len() == 2 && b[1].len() == 2
}

/// What a division by the inverse of `b` is known to be: only 2x2 matrices
/// can be inverted.
pub open spec fn inverse_shape(b: Vec<Vec<Expr>>, r: Result<Expr, EvalError>) -> bool {
    !is_two_by_two(b) ==> r == Err::<Expr, EvalError>(
        EvalError::UnsupportedDimension { rows: b.len(), cols: width(b) as usize },
    )
}

} // verus!

verus! {

/// One step of cell (`i`, `j`) of the product of `a` and `b`: `next` is
/// `prev + x * y` for copies `x` of `a[i][k]` and `y` of `b[k][j]`.
#[verifier::opaque]
pub open spec fn product_step(a: Vec<Vec<Expr>>, b: Vec<Vec<Expr>>, i: int, j: int, k: int, prev: Expr, next: Expr) -> bool {
    exists|x: Expr, y: Expr, p: Expr|
        crate::ast::deep_eq(x, a[i][k]) && crate::ast::deep_eq(y, b[k][j]) && #[trigger] outcome(
            Opcode::Mul,
            x,
            y,
            Ok(p),
        ) && outcome(Opcode::Add, prev, p, Ok(next))
}

/// `s` holds the partial sums of cell (`i`, `j`) of the product of `a` and
/// `b`: `s[0]` is `Number(0)`, and `s[k + 1]` is `s[k] + a[i][k] * b[k][j]`.
pub open spec fn dot_sums(a: Vec<Vec<Expr>>, b: Vec<Vec<Expr>>, i: int, j: int, s: Seq<Expr>) -> bool {
    &&& s.len() == width(a) + 1
    &&& s[0] == Expr::Number(crate::number::Number::from_int(0))
    &&& forall|k: int| 0 <= k < width(a) ==> product_step(a, b, i, j, k, #[trigger] s[k], s[k + 1])
}

/// A step of a product cell, from the outcomes that make it.
pub proof fn lemma_product_step(
    a: Vec<Vec<Expr>>,
    b: Vec<Vec<Expr>>,
    i: int,
    j: int,
    k: int,
    prev: Expr,
    next: Expr,
    x: Expr,
    y: Expr,
    p: Expr,
)
    requires
        crate::ast::deep_eq(x, a[i][k]),
        crate::ast::deep_eq(y, b[k][j]),
        outcome(Opcode::Mul, x, y, Ok(p)),
        outcome(Opcode::Add, prev, p, Ok(next)),
    ensures
        product_step(a, b, i, j, k, prev, next),
{
    reveal(product_step);
}

/// `v` is the last of the partial sums of cell (`i`, `j`) of the product.
pub open spec fn is_dot(a: Vec<Vec<Expr>>, b: Vec<Vec<Expr>>, i: int, j: int, v: Expr) -> bool {
    exists|s: Seq<Expr>| #[trigger] dot_sums(a, b, i, j, s) && v == s[width(a)]
}

/// Each cell of a successful matrix product is the last of its partial sums.
pub open spec fn product_cells(a: Vec<Vec<Expr>>, b: Vec<Vec<Expr>>, r: Result<Expr, EvalError>) -> bool {
    r matches Ok(Expr::Matrix(m)) ==> forall|i: int, j: int|
        0 <= i < a.len() && 0 <= j < width(b) ==> is_dot(a, b, i, j, #[trigger] m[i][j])
}

} // verus!

verus! {

/// Whether a scalar is zero.
pub open spec fn zero_scalar(e: Expr) -> bool {
    match e {
        Expr::Number(n) => n.is_zero_value(),
        Expr::Complex(a, b) => a.is_zero_value() && b.is_zero_value(),
        _ => false,
    }
}

/// The four cells of a 2x2 matrix are scalars.
pub open spec fn scalar_two_by_two(b: Vec<Vec<Expr>>) -> bool {
    is_two_by_two(b) && b[0][0].is_scalar() && b[0][1].is_scalar() && b[1][0].is_scalar() && b[1][1].is_scalar()
}

/// The inverse of a 2x2 matrix `[[p, q], [s, t]]` of scalars: with
/// `det = p * t - q * s`, `NotInvertible` where `det` is zero, else `1 / det`
/// times each cell of the adjugate `[[t, 0 - q], [0 - s, p]]`; a failing step
/// gives its failure.
pub open spec fn inverse_of_scalars(b: Vec<Vec<Expr>>, r: Result<Expr, EvalError>) -> bool {
    let p = b[0][0];
    let q = b[0][1];
    let s = b[1][0];
    let t = b[1][1];
    match scalar_outcome(Opcode::Mul, p, t) {
        Err(e) => r == Err::<Expr, EvalError>(e),
        Ok(pt) => match scalar_outcome(Opcode::Mul, q, s) {
            Err(e) => r == Err::<Expr, EvalError>(e),
            Ok(qs) => match scalar_outcome(Opcode::Sub, pt, qs) {
                Err(e) => r == Err::<Expr, EvalError>(e),
                Ok(det) => if zero_scalar(det) {
                    r == Err::<Expr, EvalError>(EvalError::NotInvertible)
                } else {
                    match scalar_outcome(Opcode::Div, Expr::Number(Number::from_int(1)), det) {
                        Err(e) => r == Err::<Expr, EvalError>(e),
                        Ok(scale) => match scalar_outcome(Opcode::Sub, Expr::Number(Number::from_int(0)), q) {
                            Err(e) => r == Err::<Expr, EvalError>(e),
                            Ok(mq) => match scalar_outcome(Opcode::Sub, Expr::Number(Number::from_int(0)), s) {
                                Err(e) => r == Err::<Expr, EvalError>(e),
                                Ok(ms) => exists|adj: Vec<Vec<Expr>>|
                                    is_two_by_two(adj) && adj[0][0] == t && adj[0][1] == mq && adj[1][0] == ms
                                        && adj[1][1] == p && #[trigger] grid_outcome(Opcode::Mul, Cells::Right(scale, adj), r),
                            },
                        },
                    }
                },
            },
        },
    }
}

/// What the inversion of `b` gives: only a 2x2 matrix is inverted, and one of
/// scalars as `inverse_of_scalars` says.
pub open spec fn inverse_result(b: Vec<Vec<Expr>>, i: Result<Expr, EvalError>) -> bool {
    inverse_shape(b, i) && (scalar_two_by_two(b) ==> inverse_of_scalars(b, i))
}

/// Step `k` of cell (`i`, `j`) of the product fails with `e`: the product of
/// copies of `a[i][k]` and `b[k][j]` fails with `e`, or it succeeds and adding
/// it to the partial sum `prev` fails with `e`.
#[verifier::opaque]
pub open spec fn product_step_fails(a: Vec<Vec<Expr>>, b: Vec<Vec<Expr>>, i: int, j: int, k: int, prev: Expr, e: EvalError) -> bool {
    exists|x: Expr, y: Expr|
        #[trigger] crate::ast::deep_eq(x, a[i][k]) && #[trigger] crate::ast::deep_eq(y, b[k][j]) && (outcome(
            Opcode::Mul,
            x,
            y,
            Err(e),
        ) || exists|p: Expr| #[trigger] outcome(Opcode::Mul, x, y, Ok(p)) && outcome(Opcode::Add, prev, p, Err(e)))
}

/// Cell (`i`, `j`) of the product fails with `e` after the partial sums `s`:
/// every step before the last of `s` succeeds, and the next step fails.
pub open spec fn failing_cell(a: Vec<Vec<Expr>>, b: Vec<Vec<Expr>>, i: int, j: int, s: Seq<Expr>, e: EvalError) -> bool {
    &&& 0 <= i < a.len()
    &&& 0 <= j < width(b)
    &&& 1 <= s.len() <= width(a)
    &&& s[0] == Expr::Number(crate::number::Number::from_int(0))
    &&& forall|k: int| 0 <= k < s.len() - 1 ==> product_step(a, b, i, j, k, #[trigger] s[k], s[k + 1])
    &&& product_step_fails(a, b, i, j, s.len() - 1, s[s.len() - 1], e)
}

/// A product of fitting matrices fails only where the computation of some cell fails.
pub open spec fn product_fails(a: Vec<Vec<Expr>>, b: Vec<Vec<Expr>>, r: Result<Expr, EvalError>) -> bool {
    product_fits(a, b) && r is Err ==> exists|i: int, j: int, s: Seq<Expr>|
        #[trigger] failing_cell(a, b, i, j, s, r->Err_0)
}

/// A failed step of a product cell, from the failed product.
pub proof fn lemma_product_mul_fails(a: Vec<Vec<Expr>>, b: Vec<Vec<Expr>>, i: int, j: int, k: int, prev: Expr, x: Expr, y: Expr, e: EvalError)
    requires
        crate::ast::deep_eq(x, a[i][k]),
        crate::ast::deep_eq(y, b[k][j]),
        outcome(Opcode::Mul, x, y, Err(e)),
    ensures
        product_step_fails(a, b, i, j, k, prev, e),
{
    reveal(product_step_fails);
}

/// A failed step of a product cell, from the failed sum.
pub proof fn lemma_product_add_fails(a: Vec<Vec<Expr>>, b: Vec<Vec<Expr>>, i: int, j: int, k: int, prev: Expr, x: Expr, y: Expr, p: Expr, e: EvalError)
    requires
        crate::ast::deep_eq(x, a[i][k]),
        crate::ast::deep_eq(y, b[k][j]),
        outcome(Opcode::Mul, x, y, Ok(p)),
        outcome(Opcode::Add, prev, p, Err(e)),
    ensures
        product_step_fails(a, b, i, j, k, prev, e),
{
    reveal(product_step_fails);
}

/// What a matrix product gives besides `outcome`: its cells, and where it fails.
pub open spec fn product_facts(x: Expr, y: Expr, r: Result<Expr, EvalError>) -> bool {
    match (x, y) {
        (Expr::Matrix(a), Expr::Matrix(b)) => product_cells(a, b, r) && product_fails(a, b, r),
        _ => true,
    }
}

/// What multiplying `x` by the inverse of the matrix `b` gives: the failure of
/// the inversion, or the matrix product of `x` by the inverse where `x` is a
/// matrix, and the cell-by-cell product elsewhere.
pub open spec fn inverse_facts(x: Expr, b: Vec<Vec<Expr>>, r: Result<Expr, EvalError>) -> bool {
    exists|inv: Result<Expr, EvalError>|
        #[trigger] inverse_result(b, inv) && (inv matches Err(e) ==> r == Err::<Expr, EvalError>(e)) && (
        inv matches Ok(m) ==> if x is Matrix {
            outcome(Opcode::Prod, x, m, r) && product_facts(x, m, r)
        } else {
            outcome(Opcode::Mul, x, m, r)
        })
}

/// The outcome of `x op y`, with what the matrix product and the division by
/// an inverse add to it.
pub open spec fn full_outcome(op: Opcode, x: Expr, y: Expr, r: Result<Expr, EvalError>) -> bool {
    &&& outcome(op, x, y, r)
    &&& op == Opcode::Prod ==> product_facts(x, y, r)
    &&& op == Opcode::ProdDiv && !(x.is_scalar() && y.is_scalar()) ==> match y {
        Expr::Matrix(b) => inverse_facts(x, b, r),
        _ => true,
    }
}

} // verus!
