//! Expressions and errors as text.

use vstd::prelude::*;
use vstd::string::StringExecFns;
use crate::ast::{Expr, Kind, Opcode};
use crate::error::{CellError, EvalError};
use crate::number::{abs, gcd, gcd_of, lemma_gcd_positive, Number};

verus! {

/// The decimal digit `d`.
pub open spec fn digit_text(d: int) -> Seq<char> {
    if d == 0 {
        "0"@
    } else if d == 1 {
        "1"@
    } else if d == 2 {
        "2"@
    } else if d == 3 {
        "3"@
    } else if d == 4 {
        "4"@
    } else if d == 5 {
        "5"@
    } else if d == 6 {
        "6"@
    } else if d == 7 {
        "7"@
    } else if d == 8 {
        "8"@
    } else {
        "9"@
    }
}

/// The decimal digits of `n`, most significant first.
pub open spec fn decimal(n: nat) -> Seq<char>
    decreases n,
{
    if n < 10 {
        digit_text(n as int)
    } else {
        decimal(n / 10) + digit_text((n % 10) as int)
    }
}

/// A number in lowest terms: `n`, or `n/d` where the denominator is not one.
pub open spec fn number_text(x: Number) -> Seq<char> {
    let g = gcd(abs(x.numer()) as nat, x.denom() as nat);
    let p = (abs(x.numer()) / (g as int)) as nat;
    let q = (x.denom() / (g as int)) as nat;
    (if x.numer() < 0 { "-"@ } else { Seq::empty() }) + decimal(p) + (if q == 1 {
        Seq::empty()
    } else {
        "/"@ + decimal(q)
    })
}

/// The symbol of an operator.
pub open spec fn symbol_text(o: Opcode) -> Seq<char> {
    match o {
        Opcode::Add => "+"@,
        Opcode::Sub => "-"@,
        Opcode::Mul => "*"@,
        Opcode::Div => "/"@,
        Opcode::Rem => "%"@,
        Opcode::Pow => "^"@,
        Opcode::Prod => "**"@,
        Opcode::ProdDiv => "//"@,
    }
}

/// An expression as text: a complex as `a + bi`, or `a -bi` for a negative
/// imaginary part; a matrix as `[ [a, b] ; [c, d] ]`; an operation with its
/// infix symbol; the imaginary unit as `i`.
pub open spec fn text(e: Expr) -> Seq<char>
    decreases e, 0int,
    via text_decreases
{
    match e {
        Expr::Number(n) => number_text(n),
        Expr::Imaginary => "i"@,
        Expr::Complex(a, b) => number_text(a) + (if b.below(Number::from_int(0)) { " "@ } else { " + "@ })
            + number_text(b) + "i"@,
        Expr::Matrix(rows) => "[ "@ + rows_text(rows, rows.len() as int) + " ]"@,
        Expr::Variable(s) => s@,
        Expr::Function(f, arg) => f@ + "("@ + text(*arg) + ")"@,
        Expr::Op(a, o, b) => text(*a) + " "@ + symbol_text(o) + " "@ + text(*b),
    }
}

/// The first `k` rows, each in brackets, separated by ` ; `.
pub open spec fn rows_text(rows: Vec<Vec<Expr>>, k: int) -> Seq<char>
    decreases rows, k,
{
    if k <= 0 || k > rows.len() {
        Seq::empty()
    } else if k == 1 {
        "["@ + cells_text(rows[0], rows[0].len() as int) + "]"@
    } else {
        rows_text(rows, k - 1) + " ; "@ + "["@ + cells_text(rows[k - 1], rows[k - 1].len() as int) + "]"@
    }
}

/// The first `k` cells, separated by `, `.
pub open spec fn cells_text(row: Vec<Expr>, k: int) -> Seq<char>
    decreases row, k,
{
    if k <= 0 || k > row.len() {
        Seq::empty()
    } else if k == 1 {
        text(row[0])
    } else {
        cells_text(row, k - 1) + ", "@ + text(row[k - 1])
    }
}

#[via_fn]
proof fn text_decreases(e: Expr) {
    if let Expr::Matrix(rows) = e {
        assert(decreases_to!(e => e->Matrix_0));
    }
}

impl Opcode {
    /// The infix symbol of the operator.
    pub fn symbol(&self) -> (r: &'static str)
        ensures
            r@ == symbol_text(*self),
    {
        match self {
            Opcode::Add => "+",
            Opcode::Sub => "-",
            Opcode::Mul => "*",
            Opcode::Div => "/",
            Opcode::Rem => "%",
            Opcode::Pow => "^",
            Opcode::Prod => "**",
            Opcode::ProdDiv => "//",
        }
    }
}

fn push_str(out: &mut String, s: &str)
    ensures
        final(out)@ == old(out)@ + s@,
{
    out.append(s);
}

fn push_digit(out: &mut String, d: u64)
    requires
        d < 10,
    ensures
        final(out)@ == old(out)@ + digit_text(d as int),
{
    let s = if d == 0 {
        "0"
    } else if d == 1 {
        "1"
    } else if d == 2 {
        "2"
    } else if d == 3 {
        "3"
    } else if d == 4 {
        "4"
    } else if d == 5 {
        "5"
    } else if d == 6 {
        "6"
    } else if d == 7 {
        "7"
    } else if d == 8 {
        "8"
    } else {
        "9"
    };
    push_str(out, s);
}

fn push_decimal(out: &mut String, n: u64)
    ensures
        final(out)@ == old(out)@ + decimal(n as nat),
    decreases n,
{
    if n >= 10 {
        push_decimal(out, n / 10);
    }
    push_digit(out, n % 10);
    proof {
        if n >= 10 {
            assert(out@ =~= old(out)@ + decimal(n as nat));
        }
    }
}

fn push_number(out: &mut String, x: &Number)
    ensures
        final(out)@ == old(out)@ + number_text(*x),
{
    let n = x.numerator();
    let d = x.denominator() as u64;
    let a: u64 = if n < 0 {
        (-(n as i128)) as u64
    } else {
        n as u64
    };
    let g = gcd_of(a, d);
    proof {
        lemma_gcd_positive(a as nat, d as nat);
    }
    let p = a / g;
    let q = d / g;
    let ghost start = out@;
    if n < 0 {
        push_str(out, "-");
    }
    push_decimal(out, p);
    if q != 1 {
        push_str(out, "/");
        push_decimal(out, q);
    }
    assert(out@ =~= start + number_text(*x));
}

impl Expr {
    /// The expression as text; see `text`.
    pub fn to_text(&self) -> (r: String)
        ensures
            r@ == text(*self),
    {
        let mut out = String::new();
        push_text(&mut out, self);
        assert(out@ =~= text(*self));
        out
    }
}

fn push_text(out: &mut String, e: &Expr)
    ensures
        final(out)@ == old(out)@ + text(*e),
    decreases e, 0int,
{
    let ghost start = out@;
    match e {
        Expr::Number(n) => push_number(out, n),
        Expr::Imaginary => push_str(out, "i"),
        Expr::Complex(a, b) => {
            push_number(out, a);
            if b.lt_value(&Number::new(0)) {
                push_str(out, " ");
            } else {
                push_str(out, " + ");
            }
            push_number(out, b);
            push_str(out, "i");
        },
        Expr::Matrix(rows) => {
            proof {
                assert(decreases_to!(*e => (*e)->Matrix_0));
            }
            push_str(out, "[ ");
            push_rows(out, rows);
            push_str(out, " ]");
        },
        Expr::Variable(s) => push_str(out, s.as_str()),
        Expr::Function(f, arg) => {
            push_str(out, f.as_str());
            push_str(out, "(");
            push_text(out, arg);
            push_str(out, ")");
        },
        Expr::Op(a, o, b) => {
            push_text(out, a);
            push_str(out, " ");
            push_str(out, o.symbol());
            push_str(out, " ");
            push_text(out, b);
        },
    }
    assert(out@ =~= start + text(*e));
}

fn push_rows(out: &mut String, rows: &Vec<Vec<Expr>>)
    ensures
        final(out)@ == old(out)@ + rows_text(*rows, rows.len() as int),
    decreases rows, 1int,
{
    let ghost start = out@;
    let mut i: usize = 0;
    while i < rows.len()
        invariant
            i <= rows.len(),
            out@ == start + rows_text(*rows, i as int),
        decreases rows.len() - i,
    {
        if i > 0 {
            push_str(out, " ; ");
        }
        push_str(out, "[");
        push_cells(out, &rows[i]);
        push_str(out, "]");
        assert(out@ =~= start + rows_text(*rows, i + 1));
        i = i + 1;
    }
}

fn push_cells(out: &mut String, row: &Vec<Expr>)
    ensures
        final(out)@ == old(out)@ + cells_text(*row, row.len() as int),
    decreases row, 1int,
{
    let ghost start = out@;
    let mut j: usize = 0;
    while j < row.len()
        invariant
            j <= row.len(),
            out@ == start + cells_text(*row, j as int),
        decreases row.len() - j,
    {
        if j > 0 {
            push_str(out, ", ");
        }
        push_text(out, &row[j]);
        assert(out@ =~= start + cells_text(*row, j + 1));
        j = j + 1;
    }
}

/// The name of an operator in messages.
pub open spec fn name_text(o: Opcode) -> Seq<char> {
    match o {
        Opcode::Add => "add"@,
        Opcode::Sub => "substract"@,
        Opcode::Mul => "multiply"@,
        Opcode::Div => "divide"@,
        Opcode::Rem => "modulo"@,
        Opcode::Pow => "power"@,
        Opcode::Prod => "matrice product"@,
        Opcode::ProdDiv => "matrice divide"@,
    }
}

/// The name of an operand kind in messages.
pub open spec fn kind_text(k: Kind) -> Seq<char> {
    match k {
        Kind::Number => "number"@,
        Kind::Complex => "complex"@,
        Kind::Matrix => "matrice"@,
        Kind::Variable => "variable"@,
        Kind::Function => "function"@,
        Kind::Expression => "expression"@,
    }
}

/// An error as a message; the failures of matrix cells one per line, each
/// with its coordinates `[x, y]`.
pub open spec fn error_text(e: EvalError) -> Seq<char>
    decreases e, 0int,
{
    match e {
        EvalError::DivisionByZero => "Can't divide by 0"@,
        EvalError::InvalidArgument => "invalid argument"@,
        EvalError::Overflow => "number too large to be exact"@,
        EvalError::UndefinedFunction(f) => "Function '"@ + f@ + "' is undefined"@,
        EvalError::RecursiveDefinition(f) => "recursive function: "@ + f@,
        EvalError::RecursionLimit(f) => "too many nested applications: "@ + f@,
        EvalError::DimensionMismatch { expected, found } => "invalid dimensions: expected "@ + decimal(
            expected as nat,
        ) + ", found "@ + decimal(found as nat),
        EvalError::NotInvertible => "can't invert: determinant is 0"@,
        EvalError::UnsupportedDimension { rows, cols } => "can't invert: matrice of order ["@ + decimal(rows as nat)
            + ", "@ + decimal(cols as nat) + "]"@,
        EvalError::UnsupportedOperandKinds { left, op, right } => "Can't "@ + name_text(op) + " "@ + kind_text(left)
            + " with "@ + kind_text(right),
        EvalError::InvalidAssignmentTarget => "Can't assign to this type"@,
        EvalError::CannotReduce => "Can't reduce Op Op"@,
        EvalError::Cells { failures, partial: _ } => failures_text(failures, failures.len() as int),
    }
}

/// The first `k` failures, one per line.
pub open spec fn failures_text(list: Vec<CellError>, k: int) -> Seq<char>
    decreases list, k,
{
    if k <= 0 || k > list.len() {
        Seq::empty()
    } else if k == 1 {
        failure_text(list[0])
    } else {
        failures_text(list, k - 1) + "\n"@ + failure_text(list[k - 1])
    }
}

/// One failure and its coordinates.
pub open spec fn failure_text(c: CellError) -> Seq<char>
    decreases c, 0int,
{
    error_text(c.error) + " at ["@ + decimal(c.x as nat) + ", "@ + decimal(c.y as nat) + "]"@
}

impl Opcode {
    /// The name of the operator in messages.
    pub fn name(&self) -> (r: &'static str)
        ensures
            r@ == name_text(*self),
    {
        match self {
            Opcode::Add => "add",
            Opcode::Sub => "substract",
            Opcode::Mul => "multiply",
            Opcode::Div => "divide",
            Opcode::Rem => "modulo",
            Opcode::Pow => "power",
            Opcode::Prod => "matrice product",
            Opcode::ProdDiv => "matrice divide",
        }
    }
}

fn kind_name(k: Kind) -> (r: &'static str)
    ensures
        r@ == kind_text(k),
{
    match k {
        Kind::Number => "number",
        Kind::Complex => "complex",
        Kind::Matrix => "matrice",
        Kind::Variable => "variable",
        Kind::Function => "function",
        Kind::Expression => "expression",
    }
}

impl EvalError {
    /// The error as a message; see `error_text`.
    pub fn to_text(&self) -> (r: String)
        ensures
            r@ == error_text(*self),
    {
        let mut out = String::new();
        push_error(&mut out, self);
        assert(out@ =~= error_text(*self));
        out
    }
}

fn push_error(out: &mut String, e: &EvalError)
    ensures
        final(out)@ == old(out)@ + error_text(*e),
    decreases e, 0int,
{
    let ghost start = out@;
    match e {
        EvalError::DivisionByZero => push_str(out, "Can't divide by 0"),
        EvalError::InvalidArgument => push_str(out, "invalid argument"),
        EvalError::Overflow => push_str(out, "number too large to be exact"),
        EvalError::UndefinedFunction(f) => {
            push_str(out, "Function '");
            push_str(out, f.as_str());
            push_str(out, "' is undefined");
        },
        EvalError::RecursiveDefinition(f) => {
            push_str(out, "recursive function: ");
            push_str(out, f.as_str());
        },
        EvalError::RecursionLimit(f) => {
            push_str(out, "too many nested applications: ");
            push_str(out, f.as_str());
        },
        EvalError::DimensionMismatch { expected, found } => {
            push_str(out, "invalid dimensions: expected ");
            push_decimal(out, *expected as u64);
            push_str(out, ", found ");
            push_decimal(out, *found as u64);
        },
        EvalError::NotInvertible => push_str(out, "can't invert: determinant is 0"),
        EvalError::UnsupportedDimension { rows, cols } => {
            push_str(out, "can't invert: matrice of order [");
            push_decimal(out, *rows as u64);
            push_str(out, ", ");
            push_decimal(out, *cols as u64);
            push_str(out, "]");
        },
        EvalError::UnsupportedOperandKinds { left, op, right } => {
            push_str(out, "Can't ");
            push_str(out, op.name());
            push_str(out, " ");
            push_str(out, kind_name(*left));
            push_str(out, " with ");
            push_str(out, kind_name(*right));
        },
        EvalError::InvalidAssignmentTarget => push_str(out, "Can't assign to this type"),
        EvalError::CannotReduce => push_str(out, "Can't reduce Op Op"),
        EvalError::Cells { failures, partial: _ } => {
            let mut k: usize = 0;
            while k < failures.len()
                invariant
                    *e matches EvalError::Cells { failures: l, partial: _ } && l == *failures,
                    k <= failures.len(),
                    out@ == start + failures_text(*failures, k as int),
                decreases failures.len() - k,
            {
                if k > 0 {
                    push_str(out, "\n");
                }
                push_failure(out, &failures[k]);
                assert(out@ =~= start + failures_text(*failures, k + 1));
                k = k + 1;
            }
        },
    }
    assert(out@ =~= start + error_text(*e));
}

fn push_failure(out: &mut String, c: &CellError)
    ensures
        final(out)@ == old(out)@ + failure_text(*c),
    decreases c, 0int,
{
    let ghost start = out@;
    push_error(out, &c.error);
    push_str(out, " at [");
    push_decimal(out, c.x as u64);
    push_str(out, ", ");
    push_decimal(out, c.y as u64);
    push_str(out, "]");
    assert(out@ =~= start + failure_text(*c));
}

} // verus!
