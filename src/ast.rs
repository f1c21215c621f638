//! The expression model: operators, operand kinds and expressions.

use vstd::prelude::*;
use crate::complex::Complex;
use crate::error::EvalError;
use crate::number::Number;

verus! {

/// Exponentiation.
pub trait Pow<RHS = Self> {
    type Output;

    fn pow(self, rhs: RHS) -> Self::Output;
}

/// The linear-algebra matrix product.
pub trait Prod<RHS = Self> {
    type Output;

    fn prod(self, rhs: RHS) -> Self::Output;
}

/// Multiplication by the inverse of a matrix.
pub trait ProdDiv<RHS = Self> {
    type Output;

    fn prod_div(self, rhs: RHS) -> Self::Output;
}

/// The binary operators of the calculator.
#[derive(Clone, Copy, PartialEq, Eq, Structural, Debug)]
pub enum Opcode {
    Add,
    Sub,
    Mul,
    Div,
    Rem,
    Pow,
    Prod,
    ProdDiv,
}

/// The operand kinds named in type errors; `Imaginary` counts as a complex.
#[derive(Clone, Copy, PartialEq, Eq, Structural, Debug)]
pub enum Kind {
    Number,
    Complex,
    Matrix,
    Variable,
    Function,
    Expression,
}

} // verus!

verus! {

/// An expression of the calculator; unresolved parts stay as `Op` nodes.
#[derive(Debug)]
pub enum Expr {
    Number(Number),
    /// The imaginary unit `i`, which behaves as `Complex(0, 1)`.
    Imaginary,
    /// `re + im i`; a zero imaginary part is only collapsed by evaluation.
    Complex(Number, Number),
    /// Rows of cells; rows are not checked for equal length on construction.
    Matrix(Vec<Vec<Expr>>),
    Variable(String),
    /// A unary function applied to an argument.
    Function(String, Box<Expr>),
    /// A binary operation that could not be resolved.
    Op(Box<Expr>, Opcode, Box<Expr>),
}

/// A line of input: an assignment or an expression to evaluate.
#[derive(Debug)]
pub enum Input {
    Assignation(Box<Expr>, Box<Expr>),
    Eval(Box<Expr>),
}

/// The three categories the reduction engine tells apart.
pub enum AbstractType {
    /// A number, a complex or the imaginary unit.
    Computable(Expr),
    /// A variable, a function application or an unresolved operation.
    Litteral(Expr),
    Matrix(Expr),
}

impl AbstractType {
    pub open spec fn expr(self) -> Expr {
        match self {
            AbstractType::Computable(e) => e,
            AbstractType::Litteral(e) => e,
            AbstractType::Matrix(e) => e,
        }
    }

    /// The expression that was classified.
    pub fn get_expr(self) -> (r: Expr)
        ensures
            r == self.expr(),
    {
        match self {
            AbstractType::Computable(e) => e,
            AbstractType::Litteral(e) => e,
            AbstractType::Matrix(e) => e,
        }
    }
}

impl Expr {
    /// A number, a complex or the imaginary unit.
    pub open spec fn is_scalar(self) -> bool {
        self is Number || self is Imaginary || self is Complex
    }

    /// A variable, a function application or an unresolved operation.
    pub open spec fn is_literal(self) -> bool {
        self is Variable || self is Function || self is Op
    }

    /// The complex value of a scalar.
    pub open spec fn as_complex(self) -> Complex {
        match self {
            Expr::Number(n) => Complex::of_real(n),
            Expr::Complex(a, b) => Complex { re: a, im: b },
            _ => Complex::unit(),
        }
    }

    pub open spec fn kind_of(self) -> Kind {
        match self {
            Expr::Number(_) => Kind::Number,
            Expr::Imaginary => Kind::Complex,
            Expr::Complex(_, _) => Kind::Complex,
            Expr::Matrix(_) => Kind::Matrix,
            Expr::Variable(_) => Kind::Variable,
            Expr::Function(_, _) => Kind::Function,
            Expr::Op(_, _, _) => Kind::Expression,
        }
    }

    pub open spec fn category(self) -> AbstractType {
        if self.is_scalar() {
            AbstractType::Computable(self)
        } else if self is Matrix {
            AbstractType::Matrix(self)
        } else {
            AbstractType::Litteral(self)
        }
    }

    pub fn kind(&self) -> (r: Kind)
        ensures
            r == self.kind_of(),
    {
        match self {
            Expr::Number(_) => Kind::Number,
            Expr::Imaginary => Kind::Complex,
            Expr::Complex(_, _) => Kind::Complex,
            Expr::Matrix(_) => Kind::Matrix,
            Expr::Variable(_) => Kind::Variable,
            Expr::Function(_, _) => Kind::Function,
            Expr::Op(_, _, _) => Kind::Expression,
        }
    }

    pub fn is_scalar_expr(&self) -> (r: bool)
        ensures
            r == self.is_scalar(),
    {
        match self {
            Expr::Number(_) | Expr::Imaginary | Expr::Complex(_, _) => true,
            _ => false,
        }
    }

    pub fn is_literal_expr(&self) -> (r: bool)
        ensures
            r == self.is_literal(),
    {
        match self {
            Expr::Variable(_) | Expr::Function(_, _) | Expr::Op(_, _, _) => true,
            _ => false,
        }
    }

    pub fn is_matrix(&self) -> (r: bool)
        ensures
            r == self is Matrix,
    {
        match self {
            Expr::Matrix(_) => true,
            _ => false,
        }
    }

    pub fn is_op(&self) -> (r: bool)
        ensures
            r == self is Op,
    {
        match self {
            Expr::Op(_, _, _) => true,
            _ => false,
        }
    }

    /// Sorts the expression into one of the reduction engine's categories.
    pub fn get_abstract_type(self) -> (r: AbstractType)
        ensures
            r == self.category(),
    {
        if self.is_scalar_expr() {
            AbstractType::Computable(self)
        } else if self.is_matrix() {
            AbstractType::Matrix(self)
        } else {
            AbstractType::Litteral(self)
        }
    }

    /// The error for an operator that is not defined between two operand kinds.
    pub fn type_error(left: &Expr, right: &Expr, op: Opcode) -> (r: EvalError)
        ensures
            r == (EvalError::UnsupportedOperandKinds { left: left.kind_of(), op, right: right.kind_of() }),
    {
        EvalError::UnsupportedOperandKinds { left: left.kind(), op, right: right.kind() }
    }

    /// The complex value of a scalar.
    pub fn to_complex(&self) -> (r: Complex)
        requires
            self.is_scalar(),
        ensures
            r == self.as_complex(),
    {
        match self {
            Expr::Number(n) => Complex::new(*n),
            Expr::Complex(a, b) => Complex { re: *a, im: *b },
            _ => Complex::imaginary_unit(),
        }
    }

    /// A copy of a scalar.
    pub fn copy_scalar(&self) -> (r: Expr)
        requires
            self.is_scalar(),
        ensures
            r == *self,
    {
        match self {
            Expr::Number(n) => Expr::Number(*n),
            Expr::Complex(a, b) => Expr::Complex(*a, *b),
            _ => Expr::Imaginary,
        }
    }
}

} // verus!

verus! {

/// Structural equality that looks through the vectors of a matrix.
pub open spec fn deep_eq(a: Expr, b: Expr) -> bool
    decreases a,
    via deep_eq_decreases
{
    match a {
        Expr::Matrix(x) => match b {
            Expr::Matrix(y) => crate::rules::same_shape(x, y) && forall|i: int, j: int|
                crate::rules::in_grid(x, i, j) ==> deep_eq(x[i][j], #[trigger] y[i][j]),
            _ => false,
        },
        Expr::Function(f, e) => match b {
            Expr::Function(g, d) => f == g && deep_eq(*e, *d),
            _ => false,
        },
        Expr::Op(l, o, r) => match b {
            Expr::Op(l2, o2, r2) => o == o2 && deep_eq(*l, *l2) && deep_eq(*r, *r2),
            _ => false,
        },
        _ => a == b,
    }
}

/// An expression with no matrix inside: its copies are equal to it.
pub open spec fn matrix_free(e: Expr) -> bool
    decreases e,
{
    match e {
        Expr::Matrix(_) => false,
        Expr::Function(_, a) => matrix_free(*a),
        Expr::Op(l, _, r) => matrix_free(*l) && matrix_free(*r),
        _ => true,
    }
}

#[via_fn]
proof fn deep_eq_decreases(a: Expr, b: Expr) {
    if let Expr::Matrix(x) = a {
        crate::rules::lemma_cells_decrease(x);
    }
}

impl Expr {
    /// A deep copy.
    /// Whether no matrix is inside.
    pub fn is_matrix_free(&self) -> (r: bool)
        ensures
            r == matrix_free(*self),
        decreases self,
    {
        match self {
            Expr::Matrix(_) => false,
            Expr::Function(_, a) => a.is_matrix_free(),
            Expr::Op(l, _, r) => l.is_matrix_free() && r.is_matrix_free(),
            _ => true,
        }
    }

    pub fn copy(&self) -> (r: Expr)
        ensures
            deep_eq(r, *self),
            matrix_free(*self) ==> r == *self,
        decreases self,
    {
        match self {
            Expr::Number(n) => Expr::Number(*n),
            Expr::Imaginary => Expr::Imaginary,
            Expr::Complex(a, b) => Expr::Complex(*a, *b),
            Expr::Matrix(rows) => {
                proof {
                    crate::rules::lemma_cells_decrease(*rows);
                }
                let mut out: Vec<Vec<Expr>> = Vec::new();
                let mut i: usize = 0;
                while i < rows.len()
                    invariant
                        *self == Expr::Matrix(*rows),
                        i <= rows.len(),
                        out.len() == i,
                        forall|k: int| 0 <= k < i ==> #[trigger] out[k].len() == rows[k].len(),
                        forall|k: int, j: int|
                            0 <= k < i && 0 <= j < rows[k].len() ==> deep_eq(#[trigger] out[k][j], rows[k][j]),
                        forall|k: int, j: int|
                            crate::rules::in_grid(*rows, k, j) ==> decreases_to!(Expr::Matrix(*rows) => #[trigger] rows[k][j]),
                    decreases rows.len() - i,
                {
                    let mut line: Vec<Expr> = Vec::new();
                    let mut j: usize = 0;
                    while j < rows[i].len()
                        invariant
                            *self == Expr::Matrix(*rows),
                            i < rows.len(),
                            j <= rows[i as int].len(),
                            line.len() == j,
                            forall|m: int| 0 <= m < j ==> deep_eq(#[trigger] line[m], rows[i as int][m]),
                            forall|k: int, m: int|
                                crate::rules::in_grid(*rows, k, m) ==> decreases_to!(Expr::Matrix(*rows) => #[trigger] rows[k][m]),
                        decreases rows[i as int].len() - j,
                    {
                        assert(crate::rules::in_grid(*rows, i as int, j as int));
                        let c = rows[i][j].copy();
                        line.push(c);
                        j = j + 1;
                    }
                    let ghost before = out@;
                    out.push(line);
                    assert(forall|k: int| 0 <= k < i ==> out[k] == before[k]);
                    i = i + 1;
                }
                let r = Expr::Matrix(out);
                assert(crate::rules::same_shape(out, *rows));
                assert forall|k: int, j: int| crate::rules::in_grid(out, k, j) implies deep_eq(out[k][j], #[trigger] rows[k][j]) by {}
                r
            },
            Expr::Variable(s) => Expr::Variable(s.clone()),
            Expr::Function(f, e) => Expr::Function(f.clone(), Box::new((**e).copy())),
            Expr::Op(l, o, r) => Expr::Op(Box::new((**l).copy()), *o, Box::new((**r).copy())),
        }
    }
}

} // verus!
