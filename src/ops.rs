//! The operator dispatch: matrices cell by cell, matrix products and inverses,
//! and the algebraic reduction of unresolved operations.

use vstd::prelude::*;
use crate::ast::{Expr, Opcode, Pow, Prod, ProdDiv};
use crate::error::{CellError, EvalError};
use crate::number::Number;
use crate::rules::{
    flip, grid_outcome, in_grid, inverse_shape, lemma_cells_decrease, listed, outcome, pair,
    product_cells, product_shape, product_fails, failing_cell, lemma_product_mul_fails, lemma_product_add_fails, full_outcome, inverse_facts, product_facts, rectangular, zero_scalar, scalar_two_by_two, inverse_of_scalars, is_two_by_two, inverse_result, dot_sums, is_dot, lemma_product_step, product_step, reduced_left, reduced_right, row_major, same_shape, width, Cells,
};
use crate::scalar::scalar_operate;

verus! {

/// Moves element `i` out of `v`, leaving `filler` in its place.
fn take<T>(v: &mut Vec<T>, i: usize, filler: T) -> (r: T)
    requires
        i < old(v).len(),
    ensures
        r == old(v)@[i as int],
        final(v)@ == old(v)@.update(i as int, filler),
{
    let mut t = filler;
    std::mem::swap(&mut v[i], &mut t);
    t
}

fn flip_op(op: Opcode) -> (r: Opcode)
    ensures
        r == flip(op),
{
    if op == Opcode::Add {
        Opcode::Sub
    } else {
        Opcode::Add
    }
}

fn is_pair(p: &Expr, q: &Expr) -> (r: bool)
    ensures
        r == pair(*p, *q),
{
    (p.is_scalar_expr() && q.is_scalar_expr()) || (p.is_matrix() && q.is_matrix())
}

pub proof fn lemma_listed_grows(old_list: Seq<CellError>, e: CellError)
    ensures
        forall|i: int, j: int| listed(old_list, i, j) ==> listed(old_list.push(e), i, j),
        listed(old_list.push(e), e.y as int, e.x as int),
{
    let new_list = old_list.push(e);
    assert forall|i: int, j: int| listed(old_list, i, j) implies listed(new_list, i, j) by {
        let k = choose|k: int| 0 <= k < old_list.len() && #[trigger] old_list[k].y == i && old_list[k].x == j;
        assert(new_list[k] == old_list[k]);
    }
    assert(new_list[old_list.len() as int] == e);
}

/// An operator applied cell by cell; see `grid_outcome`.
fn grid(op: Opcode, c: Cells) -> (r: Result<Expr, EvalError>)
    requires
        op == Opcode::Add || op == Opcode::Sub || op == Opcode::Mul || op == Opcode::Div,
        c matches Cells::Left(_, s) ==> s.is_scalar(),
        c matches Cells::Right(s, _) ==> s.is_scalar(),
    ensures
        grid_outcome(op, c, r),
    decreases c.left(), c.right(), 1nat,
{
    let ghost c0 = c;
    let (ga, gb, s, side): (Vec<Vec<Expr>>, Vec<Vec<Expr>>, Expr, u8) = match c {
        Cells::Both(a, b) => (a, b, Expr::Imaginary, 0),
        Cells::Left(a, s) => (a, Vec::new(), s, 1),
        Cells::Right(s, b) => (b, Vec::new(), s, 2),
    };
    let ghost a0 = ga;
    let ghost b0 = gb;
    assert(side == 0 ==> c0 == Cells::Both(a0, b0));
    assert(side == 1 ==> c0 == Cells::Left(a0, s));
    assert(side == 2 ==> c0 == Cells::Right(s, a0));
    if side == 0 {
        if ga.len() != gb.len() {
            return Err(EvalError::DimensionMismatch { expected: ga.len(), found: gb.len() });
        }
        let mut i: usize = 0;
        while i < ga.len()
            invariant
                0 <= i <= ga.len(),
                ga.len() == gb.len(),
                ga == a0,
                gb == b0,
                c0 == c,
                c0 == Cells::Both(a0, b0),
                forall|k: int| 0 <= k < i ==> #[trigger] ga[k].len() == gb[k].len(),
            decreases ga.len() - i,
        {
            if ga[i].len() != gb[i].len() {
                assert(!same_shape(a0, b0));
                assert(crate::rules::first_uneven_pair(ga, gb, i as int));
                let r = Err(EvalError::DimensionMismatch { expected: ga[i].len(), found: gb[i].len() });
                assert(crate::rules::shape_mismatch(ga, gb, r));
                return r;
            }
            i = i + 1;
        }
        assert(same_shape(ga, gb));
    }
    proof {
        lemma_cells_decrease(a0);
        lemma_cells_decrease(b0);
    }
    let n = ga.len();
    let mut ra = ga;
    let mut rb = gb;
    let mut res: Vec<Vec<Expr>> = Vec::new();
    let mut errors: Vec<CellError> = Vec::new();
    let mut y: usize = 0;
    while y < n
        invariant
            op == Opcode::Add || op == Opcode::Sub || op == Opcode::Mul || op == Opcode::Div,
            c0 == c,
            y <= n,
            side == 0 ==> c0 == Cells::Both(a0, b0) && same_shape(a0, b0),
            side == 1 ==> c0 == Cells::Left(a0, s) && s.is_scalar(),
            side == 2 ==> c0 == Cells::Right(s, a0) && s.is_scalar(),
            side <= 2,
            n == a0.len(),
            ra.len() == n,
            side == 0 ==> rb.len() == n,
            forall|k: int| y <= k < n ==> #[trigger] ra[k] == a0[k],
            side == 0 ==> forall|k: int| y <= k < n ==> #[trigger] rb[k] == b0[k],
            res.len() == y,
            forall|k: int| 0 <= k < y ==> #[trigger] res[k].len() == a0[k].len(),
            forall|i: int, j: int|
                0 <= i < y && 0 <= j < a0[i].len() ==> listed(errors@, i, j) || outcome(
                    op,
                    c0.args(i, j).0,
                    c0.args(i, j).1,
                    Ok(#[trigger] res[i][j]),
                ),
            forall|k: int|
                0 <= k < errors.len() ==> #[trigger] errors[k].y < y && in_grid(a0, errors[k].y as int, errors[k].x as int)
                    && outcome(
                    op,
                    c0.args(errors[k].y as int, errors[k].x as int).0,
                    c0.args(errors[k].y as int, errors[k].x as int).1,
                    Err(errors[k].error),
                ),
            row_major(errors@),
            forall|k: int| #![trigger errors[k]] 0 <= k < errors.len() ==> res[errors[k].y as int][errors[k].x as int] == Expr::Number(crate::number::Number::from_int(0)),
            forall|i: int, j: int| in_grid(a0, i, j) ==> decreases_to!(Expr::Matrix(a0) => #[trigger] a0[i][j]),
            forall|i: int, j: int| in_grid(b0, i, j) ==> decreases_to!(Expr::Matrix(b0) => #[trigger] b0[i][j]),
        decreases n - y,
    {
        let mut row_a = take(&mut ra, y, Vec::new());
        let mut row_b = if side == 0 {
            take(&mut rb, y, Vec::new())
        } else {
            Vec::new()
        };
        let m = row_a.len();
        let mut line: Vec<Expr> = Vec::new();
        let mut x: usize = 0;
        while x < m
            invariant
                x <= m,
                op == Opcode::Add || op == Opcode::Sub || op == Opcode::Mul || op == Opcode::Div,
                c0 == c,
            side == 0 ==> c0 == Cells::Both(a0, b0) && same_shape(a0, b0),
                side == 1 ==> c0 == Cells::Left(a0, s) && s.is_scalar(),
                side == 2 ==> c0 == Cells::Right(s, a0) && s.is_scalar(),
                side <= 2,
                n == a0.len(),
                y < n,
                ra.len() == n,
                side == 0 ==> rb.len() == n,
                forall|k: int| y < k < n ==> #[trigger] ra[k] == a0[k],
                side == 0 ==> forall|k: int| y < k < n ==> #[trigger] rb[k] == b0[k],
                m == a0[y as int].len(),
                row_a.len() == m,
                forall|k: int| x <= k < m ==> #[trigger] row_a[k] == a0[y as int][k],
                side == 0 ==> row_b.len() == m,
                side == 0 ==> forall|k: int| x <= k < m ==> #[trigger] row_b[k] == b0[y as int][k],
                res.len() == y,
                forall|k: int| 0 <= k < y ==> #[trigger] res[k].len() == a0[k].len(),
                line.len() == x,
                forall|i: int, j: int|
                    0 <= i < y && 0 <= j < a0[i].len() ==> listed(errors@, i, j) || outcome(
                        op,
                        c0.args(i, j).0,
                        c0.args(i, j).1,
                        Ok(#[trigger] res[i][j]),
                    ),
                forall|j: int|
                    0 <= j < x ==> listed(errors@, y as int, j) || outcome(
                        op,
                        c0.args(y as int, j).0,
                        c0.args(y as int, j).1,
                        Ok(#[trigger] line[j]),
                    ),
                forall|k: int|
                    0 <= k < errors.len() ==> (#[trigger] errors[k].y < y || (errors[k].y == y && errors[k].x < x))
                        && in_grid(a0, errors[k].y as int, errors[k].x as int) && outcome(
                        op,
                        c0.args(errors[k].y as int, errors[k].x as int).0,
                        c0.args(errors[k].y as int, errors[k].x as int).1,
                        Err(errors[k].error),
                    ),
                row_major(errors@),
                forall|k: int|
                    #![trigger errors[k]]
                    0 <= k < errors.len() ==> if errors[k].y < y {
                        res[errors[k].y as int][errors[k].x as int] == Expr::Number(crate::number::Number::from_int(0))
                    } else {
                        line[errors[k].x as int] == Expr::Number(crate::number::Number::from_int(0))
                    },
                forall|i: int, j: int| in_grid(a0, i, j) ==> decreases_to!(Expr::Matrix(a0) => #[trigger] a0[i][j]),
                forall|i: int, j: int| in_grid(b0, i, j) ==> decreases_to!(Expr::Matrix(b0) => #[trigger] b0[i][j]),
            decreases m - x,
        {
            assert(in_grid(a0, y as int, x as int));
            let cell = take(&mut row_a, x, Expr::Imaginary);
            let (p, q) = if side == 0 {
                (cell, take(&mut row_b, x, Expr::Imaginary))
            } else if side == 1 {
                (cell, s.copy_scalar())
            } else {
                (s.copy_scalar(), cell)
            };
            assert(p == c0.args(y as int, x as int).0);
            assert(q == c0.args(y as int, x as int).1);
            proof {
                if side == 0 {
                    assert(in_grid(b0, y as int, x as int));
                    assert(decreases_to!(Expr::Matrix(a0) => p));
                    assert(c0.left() == Expr::Matrix(a0));
                } else if side == 1 {
                    assert(decreases_to!(Expr::Matrix(a0) => p));
                    assert(c0.left() == Expr::Matrix(a0));
                } else {
                    assert(decreases_to!(Expr::Matrix(a0) => q));
                    assert(c0.left() == s && c0.right() == Expr::Matrix(a0));
                }
            }
            let ghost before = errors@;
            match operate(op, p, q) {
                Ok(v) => {
                    line.push(v);
                },
                Err(e) => {
                    let ce = CellError { x, y, error: e };
                    errors.push(ce);
                    proof {
                        lemma_listed_grows(before, ce);
                    }
                    line.push(Expr::Number(Number::new(0)));
                },
            }
            x = x + 1;
        }
        let ghost old_res = res@;
        res.push(line);
        assert(forall|k: int| 0 <= k < y ==> res[k] == old_res[k]);
        y = y + 1;
    }
    assert(c0.grid() == a0);
    if errors.len() == 0 {
        assert(same_shape(res, a0));
        assert forall|i: int, j: int| in_grid(a0, i, j) implies outcome(op, c0.args(i, j).0, c0.args(i, j).1, Ok(#[trigger] res[i][j])) by {
            assert(!listed(errors@, i, j));
        }
        Ok(Expr::Matrix(res))
    } else {
        assert(same_shape(res, a0));
        Err(EvalError::Cells { failures: errors, partial: res })
    }
}

/// `x op y` where `x` is an unresolved operation and `y` is not.
fn reduce_left(op: Opcode, x: Expr, y: Expr) -> (r: Result<Expr, EvalError>)
    requires
        x is Op,
        !(y is Op),
        op == Opcode::Add || op == Opcode::Sub || op == Opcode::Mul || op == Opcode::Div,
    ensures
        reduced_left(op, x, y, r),
    decreases x, y, 1nat,
{
    match x {
        Expr::Op(a, inner, b) => {
            if (op == Opcode::Add || op == Opcode::Sub) && (inner == Opcode::Add || inner == Opcode::Sub) {
                if b.is_literal_expr() && is_pair(&a, &y) {
                    let s = operate(op, *a, y)?;
                    Ok(Expr::Op(Box::new(s), inner, b))
                } else if a.is_literal_expr() && is_pair(&b, &y) {
                    let op2 = if inner == Opcode::Add {
                        op
                    } else {
                        flip_op(op)
                    };
                    let s = operate(op2, *b, y)?;
                    Ok(Expr::Op(a, inner, Box::new(s)))
                } else {
                    Ok(Expr::Op(Box::new(Expr::Op(a, inner, b)), op, Box::new(y)))
                }
            } else if op == Opcode::Mul && (inner == Opcode::Add || inner == Opcode::Sub) {
                let y2 = y.copy();
                let ghost ga = *a;
                let ghost gy = y;
                let ghost gy2 = y2;
                let s = operate(op, *a, y)?;
                assert(outcome(op, ga, gy, crate::rules::success(s)));
                let t = operate(op, *b, y2)?;
                assert(crate::ast::deep_eq(gy2, gy));
                Ok(Expr::Op(Box::new(s), inner, Box::new(t)))
            } else {
                Ok(Expr::Op(Box::new(Expr::Op(a, inner, b)), op, Box::new(y)))
            }
        },
        _ => Err(EvalError::CannotReduce),
    }
}

/// `x op y` where `y` is an unresolved operation and `x` is not.
fn reduce_right(op: Opcode, x: Expr, y: Expr) -> (r: Result<Expr, EvalError>)
    requires
        y is Op,
        !(x is Op),
        op == Opcode::Add || op == Opcode::Sub || op == Opcode::Mul || op == Opcode::Div,
    ensures
        reduced_right(op, x, y, r),
    decreases x, y, 1nat,
{
    match y {
        Expr::Op(a, inner, b) => {
            if (op == Opcode::Add || op == Opcode::Sub) && (inner == Opcode::Add || inner == Opcode::Sub) {
                if b.is_literal_expr() && is_pair(&x, &a) {
                    let inner2 = if op == Opcode::Add {
                        inner
                    } else {
                        flip_op(inner)
                    };
                    let s = operate(op, x, *a)?;
                    Ok(Expr::Op(Box::new(s), inner2, b))
                } else if a.is_literal_expr() && is_pair(&x, &b) {
                    if op == Opcode::Add {
                        let s = operate(inner, x, *b)?;
                        Ok(Expr::Op(a, Opcode::Add, Box::new(s)))
                    } else {
                        let s = operate(flip_op(inner), x, *b)?;
                        Ok(Expr::Op(Box::new(s), Opcode::Sub, a))
                    }
                } else {
                    Ok(Expr::Op(Box::new(x), op, Box::new(Expr::Op(a, inner, b))))
                }
            } else if op == Opcode::Mul && x.is_matrix_free() && (inner == Opcode::Add || inner == Opcode::Sub) {
                let x2 = x.copy();
                let ghost ga = *a;
                let ghost gx = x;
                let s = operate(op, x, *a)?;
                assert(outcome(op, gx, ga, crate::rules::success(s)));
                let t = operate(op, x2, *b)?;
                Ok(Expr::Op(Box::new(s), inner, Box::new(t)))
            } else {
                Ok(Expr::Op(Box::new(x), op, Box::new(Expr::Op(a, inner, b))))
            }
        },
        _ => Err(EvalError::CannotReduce),
    }
}

/// The operators other than the matrix product and its inverse.
pub fn operate(op: Opcode, x: Expr, y: Expr) -> (r: Result<Expr, EvalError>)
    requires
        op != Opcode::Prod && op != Opcode::ProdDiv,
    ensures
        outcome(op, x, y, r),
    decreases x, y, 2nat,
{
    if x.is_scalar_expr() && y.is_scalar_expr() {
        return scalar_operate(op, &x, &y);
    }
    if op == Opcode::Rem || op == Opcode::Pow {
        return Err(Expr::type_error(&x, &y, op));
    }
    match x {
        Expr::Matrix(a) => {
            if y.is_matrix() {
                match y {
                    Expr::Matrix(b) => grid(op, Cells::Both(a, b)),
                    _ => Err(EvalError::CannotReduce),
                }
            } else if y.is_scalar_expr() {
                grid(op, Cells::Left(a, y))
            } else if y.is_op() {
                reduce_right(op, Expr::Matrix(a), y)
            } else {
                Ok(Expr::Op(Box::new(Expr::Matrix(a)), op, Box::new(y)))
            }
        },
        _ => {
            if y.is_matrix() {
                if x.is_scalar_expr() {
                    match y {
                        Expr::Matrix(b) => grid(op, Cells::Right(x, b)),
                        _ => Err(EvalError::CannotReduce),
                    }
                } else if x.is_op() {
                    reduce_left(op, x, y)
                } else {
                    Ok(Expr::Op(Box::new(x), op, Box::new(y)))
                }
            } else if x.is_op() && y.is_op() {
                Err(EvalError::CannotReduce)
            } else if x.is_op() {
                reduce_left(op, x, y)
            } else if y.is_op() {
                reduce_right(op, x, y)
            } else {
                Ok(Expr::Op(Box::new(x), op, Box::new(y)))
            }
        },
    }
}

} // verus!

verus! {

fn width_of(a: &Vec<Vec<Expr>>) -> (r: usize)
    ensures
        r == width(*a),
{
    if a.len() == 0 {
        0
    } else {
        a[0].len()
    }
}

fn is_rectangular(a: &Vec<Vec<Expr>>) -> (r: bool)
    ensures
        r == rectangular(*a),
{
    let w = width_of(a);
    let mut i: usize = 0;
    while i < a.len()
        invariant
            i <= a.len(),
            w == width(*a),
            forall|k: int| 0 <= k < i ==> #[trigger] a[k].len() == w,
        decreases a.len() - i,
    {
        if a[i].len() != w {
            return false;
        }
        i = i + 1;
    }
    true
}

/// The linear-algebra product of two matrices: cell (`i`, `j`) is the sum,
/// from `Number(0)`, of the products of row `i` of `a` with column `j` of `b`.
#[verifier::rlimit(50)]
fn matrix_product(a: Vec<Vec<Expr>>, b: Vec<Vec<Expr>>) -> (r: Result<Expr, EvalError>)
    ensures
        product_shape(a, b, r),
        product_cells(a, b, r),
        product_fails(a, b, r),
{
    let wa = width_of(&a);
    if a.len() == 0 || !is_rectangular(&a) || !is_rectangular(&b) || wa != b.len() {
        return Err(EvalError::DimensionMismatch { expected: wa, found: b.len() });
    }
    let n = a.len();
    let m = b.len();
    let p = width_of(&b);
    let mut res: Vec<Vec<Expr>> = Vec::new();
    let ghost mut res_sums: Seq<Seq<Seq<Expr>>> = Seq::empty();
    let mut i: usize = 0;
    while i < n
        invariant
            n == a.len(),
            m == b.len(),
            p == width(b),
            m == width(a),
            rectangular(a),
            rectangular(b),
            i <= n,
            res.len() == i,
            forall|k: int| 0 <= k < i ==> #[trigger] res[k].len() == p,
            res_sums.len() == i,
            forall|ii: int| 0 <= ii < i ==> #[trigger] res_sums[ii].len() == p,
            forall|ii: int, jj: int|
                #![trigger res_sums[ii][jj]]
                #![trigger res[ii][jj]]
                0 <= ii < i && 0 <= jj < p ==> dot_sums(a, b, ii, jj, res_sums[ii][jj]) && res[ii][jj]
                    == res_sums[ii][jj][width(a)],
        decreases n - i,
    {
        let mut line: Vec<Expr> = Vec::new();
        let ghost mut line_sums: Seq<Seq<Expr>> = Seq::empty();
        let mut j: usize = 0;
        while j < p
            invariant
                n == a.len(),
                m == b.len(),
                p == width(b),
                m == width(a),
                rectangular(a),
                rectangular(b),
                i < n,
                j <= p,
                line.len() == j,
                line_sums.len() == j,
                forall|jj: int|
                    #![trigger line_sums[jj]]
                    #![trigger line[jj]]
                    0 <= jj < j ==> dot_sums(a, b, i as int, jj, line_sums[jj]) && line[jj] == line_sums[jj][width(a)],
            decreases p - j,
        {
            let mut sum = Expr::Number(Number::new(0));
            let ghost mut sums: Seq<Expr> = seq![sum];
            let mut k: usize = 0;
            while k < m
                invariant
                    n == a.len(),
                    m == b.len(),
                    p == width(b),
                    m == width(a),
                    rectangular(a),
                    rectangular(b),
                    i < n,
                    j < p,
                    k <= m,
                    sums.len() == k + 1,
                    sums[0] == Expr::Number(Number::from_int(0)),
                    sums[k as int] == sum,
                    forall|kk: int| 0 <= kk < k ==> product_step(a, b, i as int, j as int, kk, #[trigger] sums[kk], sums[kk + 1]),
                decreases m - k,
            {
                assert(a[i as int].len() == m);
                assert(b[k as int].len() == p);
                let x = a[i][k].copy();
                let y = b[k][j].copy();
                let ghost gx = x;
                let ghost gy = y;
                let t = match operate(Opcode::Mul, x, y) {
                    Ok(t) => t,
                    Err(e) => {
                        proof {
                            lemma_product_mul_fails(a, b, i as int, j as int, k as int, sum, gx, gy, e);
                            assert(failing_cell(a, b, i as int, j as int, sums, e));
                        }
                        return Err(e);
                    },
                };
                let ghost gt = t;
                let ghost before = sum;
                sum = match operate(Opcode::Add, sum, t) {
                    Ok(v) => v,
                    Err(e) => {
                        proof {
                            lemma_product_add_fails(a, b, i as int, j as int, k as int, before, gx, gy, gt, e);
                            assert(failing_cell(a, b, i as int, j as int, sums, e));
                        }
                        return Err(e);
                    },
                };
                proof {
                    lemma_product_step(a, b, i as int, j as int, k as int, before, sum, gx, gy, gt);
                    let old_sums = sums;
                    sums = sums.push(sum);
                    assert forall|kk: int| 0 <= kk < k + 1 implies product_step(a, b, i as int, j as int, kk, #[trigger] sums[kk], sums[kk + 1]) by {
                        if kk < k {
                            assert(sums[kk] == old_sums[kk]);
                            assert(sums[kk + 1] == old_sums[kk + 1]);
                        }
                    }
                }
                k = k + 1;
            }
            proof {
                assert(dot_sums(a, b, i as int, j as int, sums));
            }
            let ghost old_line = line@;
            line.push(sum);
            proof {
                let old_ls = line_sums;
                line_sums = line_sums.push(sums);
                assert(line_sums[j as int] == sums);
                assert(line[j as int] == sum);
                assert(sums[width(a)] == sum);
                assert(dot_sums(a, b, i as int, j as int, line_sums[j as int]));
                assert forall|jj: int|
                    #![trigger line_sums[jj]]
                    #![trigger line[jj]]
                    0 <= jj < j + 1 implies dot_sums(a, b, i as int, jj, line_sums[jj]) && line[jj]
                    == line_sums[jj][width(a)] by {
                    if jj < j {
                        assert(line[jj] == old_line[jj]);
                        assert(line_sums[jj] == old_ls[jj]);
                    }
                }
            }
            j = j + 1;
        }
        let ghost before = res@;
        res.push(line);
        assert(forall|k: int| 0 <= k < i ==> res[k] == before[k]);
        proof {
            let old_rs = res_sums;
            res_sums = res_sums.push(line_sums);
            assert forall|ii: int, jj: int|
                #![trigger res_sums[ii][jj]]
                #![trigger res[ii][jj]]
                0 <= ii < i + 1 && 0 <= jj < p implies dot_sums(a, b, ii, jj, res_sums[ii][jj])
                && res[ii][jj] == res_sums[ii][jj][width(a)] by {
                if ii < i {
                    assert(res[ii] == before[ii]);
                    assert(res_sums[ii] == old_rs[ii]);
                    assert(res[ii][jj] == before[ii][jj]);
                    assert(res_sums[ii][jj] == old_rs[ii][jj]);
                } else {
                    assert(res[ii] == line);
                    assert(res_sums[ii] == line_sums);
                    assert(line[jj] == line_sums[jj][width(a)]);
                }
            }
        }
        i = i + 1;
    }
    proof {
        assert forall|ii: int, jj: int| 0 <= ii < a.len() && 0 <= jj < width(b) implies is_dot(a, b, ii, jj, #[trigger] res[ii][jj]) by {
            assert(res[ii][jj] == res_sums[ii][jj][width(a)]);
            assert(dot_sums(a, b, ii, jj, res_sums[ii][jj]));
        }
    }
    Ok(Expr::Matrix(res))
}

/// Whether a scalar is zero.
fn is_zero_scalar(e: &Expr) -> (r: bool)
    ensures
        r == zero_scalar(*e),
{
    match e {
        Expr::Number(n) => n.is_zero(),
        Expr::Complex(a, b) => a.is_zero() && b.is_zero(),
        _ => false,
    }
}

/// The inverse of a 2x2 matrix: the adjugate divided by the determinant.
pub fn invert(b: Vec<Vec<Expr>>) -> (r: Result<Expr, EvalError>)
    ensures
        inverse_result(b, r),
{
    if !(b.len() == 2 && b[0].len() == 2 && b[1].len() == 2) {
        return Err(EvalError::UnsupportedDimension { rows: b.len(), cols: width_of(&b) });
    }
    let ghost all_scalar = scalar_two_by_two(b);
    let pt = operate(Opcode::Mul, b[0][0].copy(), b[1][1].copy())?;
    let qs = operate(Opcode::Mul, b[0][1].copy(), b[1][0].copy())?;
    let det = operate(Opcode::Sub, pt, qs)?;
    if is_zero_scalar(&det) {
        return Err(EvalError::NotInvertible);
    }
    let scale = operate(Opcode::Div, Expr::Number(Number::new(1)), det)?;
    let minus_q = operate(Opcode::Sub, Expr::Number(Number::new(0)), b[0][1].copy())?;
    let minus_s = operate(Opcode::Sub, Expr::Number(Number::new(0)), b[1][0].copy())?;
    let adjugate = vec![vec![b[1][1].copy(), minus_q], vec![minus_s, b[0][0].copy()]];
    let ghost adj = adjugate;
    let ghost sc = scale;
    let r = operate(Opcode::Mul, scale, Expr::Matrix(adjugate));
    proof {
        if all_scalar {
            assert(sc.is_scalar());
            assert(grid_outcome(Opcode::Mul, Cells::Right(sc, adj), r));
            assert(is_two_by_two(adj));
        }
    }
    r
}

/// The matrix product `x ** y`.
pub fn product(x: Expr, y: Expr) -> (r: Result<Expr, EvalError>)
    ensures
        full_outcome(Opcode::Prod, x, y, r),
{
    if x.is_scalar_expr() && y.is_scalar_expr() {
        return scalar_operate(Opcode::Prod, &x, &y);
    }
    if x.is_op() && y.is_op() {
        return Err(EvalError::CannotReduce);
    }
    if x.is_matrix() && y.is_matrix() {
        match (x, y) {
            (Expr::Matrix(a), Expr::Matrix(b)) => matrix_product(a, b),
            _ => Err(EvalError::CannotReduce),
        }
    } else {
        Ok(Expr::Op(Box::new(x), Opcode::Prod, Box::new(y)))
    }
}

/// `x // y`: `x` times the inverse of the matrix `y`, as a matrix product
/// where `x` is a matrix and cell by cell where it is a scalar.
pub fn product_div(x: Expr, y: Expr) -> (r: Result<Expr, EvalError>)
    ensures
        full_outcome(Opcode::ProdDiv, x, y, r),
{
    if x.is_scalar_expr() && y.is_scalar_expr() {
        return scalar_operate(Opcode::ProdDiv, &x, &y);
    }
    match y {
        Expr::Matrix(b) => {
            let ghost gb = b;
            let inv = invert(b);
            let ghost ginv = inv;
            assert(inverse_result(gb, ginv));
            let inverse = inv?;
            if x.is_matrix() {
                product(x, inverse)
            } else {
                operate(Opcode::Mul, x, inverse)
            }
        },
        _ => Err(Expr::type_error(&x, &y, Opcode::ProdDiv)),
    }
}

/// `(a op b) - c`: the reduction of an unresolved operation minus a value.
pub fn sub_reduce_simple(a: Expr, b: Expr, c: Expr, op: Opcode) -> (r: Result<Expr, EvalError>)
    ensures
        outcome(Opcode::Sub, Expr::Op(Box::new(a), op, Box::new(b)), c, r),
{
    operate(Opcode::Sub, Expr::Op(Box::new(a), op, Box::new(b)), c)
}

/// `(a op b) * c`: a constant factor distributed over an unresolved sum or
/// difference.
pub fn mul_reduce_simple(a: Expr, b: Expr, c: Expr, op: Opcode) -> (r: Result<Expr, EvalError>)
    ensures
        outcome(Opcode::Mul, Expr::Op(Box::new(a), op, Box::new(b)), c, r),
{
    operate(Opcode::Mul, Expr::Op(Box::new(a), op, Box::new(b)), c)
}

/// Any operator.
pub fn apply(op: Opcode, x: Expr, y: Expr) -> (r: Result<Expr, EvalError>)
    ensures
        full_outcome(op, x, y, r),
{
    match op {
        Opcode::Prod => product(x, y),
        Opcode::ProdDiv => product_div(x, y),
        _ => operate(op, x, y),
    }
}

impl Expr {
    pub fn add(self, other: Expr) -> (r: Result<Expr, EvalError>)
        ensures
            outcome(Opcode::Add, self, other, r),
    {
        operate(Opcode::Add, self, other)
    }

    pub fn sub(self, other: Expr) -> (r: Result<Expr, EvalError>)
        ensures
            outcome(Opcode::Sub, self, other, r),
    {
        operate(Opcode::Sub, self, other)
    }

    pub fn mul(self, other: Expr) -> (r: Result<Expr, EvalError>)
        ensures
            outcome(Opcode::Mul, self, other, r),
    {
        operate(Opcode::Mul, self, other)
    }

    pub fn div(self, other: Expr) -> (r: Result<Expr, EvalError>)
        ensures
            outcome(Opcode::Div, self, other, r),
    {
        operate(Opcode::Div, self, other)
    }

    pub fn rem(self, other: Expr) -> (r: Result<Expr, EvalError>)
        ensures
            outcome(Opcode::Rem, self, other, r),
    {
        operate(Opcode::Rem, self, other)
    }
}

impl Expr {
    pub fn pow(self, other: Expr) -> (r: Result<Expr, EvalError>)
        ensures
            outcome(Opcode::Pow, self, other, r),
    {
        operate(Opcode::Pow, self, other)
    }

    /// The matrix product `self ** other`.
    pub fn prod(self, other: Expr) -> (r: Result<Expr, EvalError>)
        ensures
            full_outcome(Opcode::Prod, self, other, r),
    {
        product(self, other)
    }

    /// `self // other`: `self` times the inverse of the matrix `other`.
    pub fn prod_div(self, other: Expr) -> (r: Result<Expr, EvalError>)
        ensures
            full_outcome(Opcode::ProdDiv, self, other, r),
    {
        product_div(self, other)
    }
}

impl Pow for Expr {
    type Output = Result<Expr, EvalError>;

    fn pow(self, rhs: Expr) -> Result<Expr, EvalError> {
        Expr::pow(self, rhs)
    }
}

impl Prod for Expr {
    type Output = Result<Expr, EvalError>;

    fn prod(self, rhs: Expr) -> Result<Expr, EvalError> {
        Expr::prod(self, rhs)
    }
}

impl ProdDiv for Expr {
    type Output = Result<Expr, EvalError>;

    fn prod_div(self, rhs: Expr) -> Result<Expr, EvalError> {
        Expr::prod_div(self, rhs)
    }
}

} // verus!
