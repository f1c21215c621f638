//! An algebraic calculator core: expressions over exact numbers, complex
//! numbers, the imaginary unit, matrices, variables and unary functions; the
//! operators between every pair of operand kinds, with algebraic reduction of
//! unresolved operations; equality and order; and an evaluator with an
//! environment of variables and functions.
//!
//! Numbers are exact fractions of 64-bit integers, so results are exact and
//! comparisons need no tolerance; a result that does not fit fails with
//! `EvalError::Overflow`.

use vstd::prelude::*;

pub mod ast;
pub mod error;
pub mod number;
pub mod complex;
pub mod rules;
pub mod scalar;
pub mod ops;
pub mod compare;
pub mod solver;
pub mod laws;
pub mod render;

verus! {

broadcast use vstd::std_specs::vec::group_vec_axioms;

} // verus!
