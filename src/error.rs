//! The failures of operators, evaluation and assignment.

use vstd::prelude::*;
use crate::ast::{Expr, Kind, Opcode};

verus! {

/// Why an evaluation, an assignment or an operator failed.
#[derive(Debug)]
pub enum EvalError {
    /// A divisor (or a modulus, or a squared modulus) is zero.
    DivisionByZero,
    /// An operand lies outside the operation's domain (a square root of a
    /// value that is not positive, a fractional real exponent).
    InvalidArgument,
    /// An exact result does not fit the fixed-width fraction of `Number`.
    Overflow,
    /// A function is applied that has no definition.
    UndefinedFunction(String),
    /// A function body refers to the function being defined.
    RecursiveDefinition(String),
    /// Function applications nest deeper than the evaluator allows, as happens
    /// with functions whose definitions refer to each other.
    RecursionLimit(String),
    /// Matrix rows of unequal length, or operands whose shapes do not fit.
    DimensionMismatch { expected: usize, found: usize },
    /// A matrix whose determinant is zero cannot be inverted.
    NotInvertible,
    /// Only square 2x2 matrices can be inverted.
    UnsupportedDimension { rows: usize, cols: usize },
    /// The operator is not defined between these operand kinds.
    UnsupportedOperandKinds { left: Kind, op: Opcode, right: Kind },
    /// Only a variable or a function applied to a variable can be assigned.
    InvalidAssignmentTarget,
    /// Two unresolved operations cannot be combined.
    CannotReduce,
    /// The failures of the cells of a matrix, in row-major order, and the
    /// matrix as computed, with `Number(0)` in each failed cell.
    Cells { failures: Vec<CellError>, partial: Vec<Vec<Expr>> },
}

/// The failure of one matrix cell: column `x`, row `y`.
#[derive(Debug)]
pub struct CellError {
    pub x: usize,
    pub y: usize,
    pub error: EvalError,
}

} // verus!
