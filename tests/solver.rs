use computor::ast::{Expr, Opcode};
use computor::error::EvalError;
use computor::number::Number;
use computor::solver::Solver;

fn num(n: i64) -> Expr {
    Expr::Number(Number::new(n))
}

fn cx(a: i64, b: i64) -> Expr {
    Expr::Complex(Number::new(a), Number::new(b))
}

fn var(s: &str) -> Expr {
    Expr::Variable(s.to_string())
}

fn fun(name: &str, arg: Expr) -> Expr {
    Expr::Function(name.to_string(), Box::new(arg))
}

fn op(a: Expr, o: Opcode, b: Expr) -> Expr {
    Expr::Op(Box::new(a), o, Box::new(b))
}

#[test]
fn irregular_matrix_fails_with_shapes() {
    let solver = Solver::new();
    let m = Expr::Matrix(vec![vec![num(1), num(2)], vec![num(3), num(4), num(5)]]);
    match solver.eval(m) {
        Err(EvalError::DimensionMismatch { expected, found }) => {
            assert_eq!(expected, 2);
            assert_eq!(found, 3);
        },
        other => panic!("unexpected {:?}", other),
    }
}

#[test]
fn reduction_with_a_bound_variable() {
    let mut solver = Solver::new();
    solver.assign(var("a"), num(2)).unwrap();
    let e = op(op(var("a"), Opcode::Add, var("x")), Opcode::Add, num(3));
    match solver.eval(e).unwrap() {
        Expr::Op(l, Opcode::Add, r) => {
            assert_eq!(*l, num(5));
            assert!(matches!(*r, Expr::Variable(ref s) if s == "x"));
        },
        other => panic!("unexpected {:?}", other),
    }
}

#[test]
fn recursive_function_is_rejected() {
    let mut solver = Solver::new();
    let body = op(fun("f", var("x")), Opcode::Add, num(1));
    match solver.assign(fun("f", var("x")), body) {
        Err(EvalError::RecursiveDefinition(name)) => assert_eq!(name, "f"),
        other => panic!("unexpected {:?}", other),
    }
    assert!(solver.show_function(&fun("f", var("x"))).is_none());
}

#[test]
fn recursion_hidden_in_an_argument_is_rejected() {
    let mut solver = Solver::new();
    let body = fun("g", fun("F", var("x")));
    assert!(matches!(solver.assign(fun("f", var("x")), body), Err(EvalError::RecursiveDefinition(_))));
}

#[test]
fn concrete_values_evaluate_to_themselves() {
    let solver = Solver::new();
    assert_eq!(solver.eval(num(4)).unwrap(), num(4));
    assert!(matches!(solver.eval(Expr::Imaginary).unwrap(), Expr::Imaginary));
    assert!(matches!(solver.eval(cx(3, 1)).unwrap(), Expr::Complex(_, _)));
    let m = Expr::Matrix(vec![vec![num(1), cx(2, 0)], vec![Expr::Imaginary, num(4)]]);
    match solver.eval(m).unwrap() {
        Expr::Matrix(rows) => {
            assert!(matches!(rows[0][1], Expr::Number(_)));
            assert_eq!(Expr::Matrix(rows), Expr::Matrix(vec![vec![num(1), num(2)], vec![cx(0, 1), num(4)]]));
        },
        other => panic!("unexpected {:?}", other),
    }
}

#[test]
fn complex_with_zero_imaginary_becomes_number() {
    let solver = Solver::new();
    match solver.eval(cx(3, 0)).unwrap() {
        Expr::Number(n) => assert!(n.eq_value(&Number::new(3))),
        other => panic!("unexpected {:?}", other),
    }
}

#[test]
fn end_to_end_variable_and_function() {
    let mut solver = Solver::new();
    assert_eq!(solver.assign(var("x"), num(3)).unwrap(), num(3));
    let e = op(op(var("x"), Opcode::Mul, num(2)), Opcode::Add, num(1));
    assert_eq!(solver.eval(e).unwrap(), num(7));
    let body = op(op(var("x"), Opcode::Pow, num(2)), Opcode::Add, num(1));
    match solver.assign(fun("f", var("x")), body).unwrap() {
        Expr::Function(name, arg) => {
            assert_eq!(name, "f");
            assert!(matches!(*arg, Expr::Variable(ref p) if p == "x"));
        },
        other => panic!("unexpected {:?}", other),
    }
    assert_eq!(solver.eval(fun("f", num(3))).unwrap(), num(10));
}

#[test]
fn names_are_case_insensitive() {
    let mut solver = Solver::new();
    solver.assign(var("X"), num(3)).unwrap();
    assert_eq!(solver.eval(var("x")).unwrap(), num(3));
    solver.assign(fun("F", var("Y")), op(var("y"), Opcode::Add, num(1))).unwrap();
    assert_eq!(solver.eval(fun("f", num(1))).unwrap(), num(2));
    let (name, param, _) = solver.show_function(&fun("F", num(0))).unwrap();
    assert_eq!(name, "F");
    assert_eq!(param, "y");
}

#[test]
fn parameter_shadows_variable() {
    let mut solver = Solver::new();
    solver.assign(var("x"), num(10)).unwrap();
    solver.assign(var("y"), num(2)).unwrap();
    solver.assign(fun("f", var("x")), op(var("x"), Opcode::Mul, var("y"))).unwrap();
    assert_eq!(solver.eval(fun("f", num(3))).unwrap(), num(6));
}

#[test]
fn undefined_variable_stays_unresolved() {
    let solver = Solver::new();
    assert!(matches!(solver.eval(var("y")).unwrap(), Expr::Variable(ref s) if s == "y"));
}

#[test]
fn undefined_function_fails() {
    let solver = Solver::new();
    match solver.eval(fun("g", num(1))) {
        Err(EvalError::UndefinedFunction(name)) => assert_eq!(name, "g"),
        other => panic!("unexpected {:?}", other),
    }
}

#[test]
fn invalid_assignment_targets() {
    let mut solver = Solver::new();
    let target = fun("f", op(var("x"), Opcode::Add, num(1)));
    assert!(matches!(solver.assign(target, var("x")), Err(EvalError::InvalidAssignmentTarget)));
    assert!(matches!(solver.assign(num(1), num(2)), Err(EvalError::InvalidAssignmentTarget)));
}

#[test]
fn functions_calling_each_other_hit_the_limit() {
    let mut solver = Solver::new();
    solver.assign(fun("f", var("x")), fun("g", var("x"))).unwrap();
    solver.assign(fun("g", var("x")), fun("f", var("x"))).unwrap();
    assert!(matches!(solver.eval(fun("f", num(1))), Err(EvalError::RecursionLimit(_))));
}

#[test]
fn failing_cells_are_collected_during_evaluation() {
    let solver = Solver::new();
    let m = Expr::Matrix(vec![vec![op(num(1), Opcode::Div, num(0)), num(2)]]);
    match solver.eval(m) {
        Err(EvalError::Cells { failures, .. }) => {
            assert_eq!(failures.len(), 1);
            assert_eq!((failures[0].y, failures[0].x), (0, 0));
        },
        other => panic!("unexpected {:?}", other),
    }
}

#[test]
fn failed_assignment_changes_nothing() {
    let mut solver = Solver::new();
    solver.assign(var("x"), num(1)).unwrap();
    assert!(solver.assign(var("x"), op(num(1), Opcode::Div, num(0))).is_err());
    assert_eq!(solver.eval(var("x")).unwrap(), num(1));
}

#[test]
fn recursion_inside_a_matrix_is_reported_by_cell() {
    let mut solver = Solver::new();
    let body = Expr::Matrix(vec![vec![var("x"), fun("f", var("x"))]]);
    match solver.assign(fun("f", var("x")), body) {
        Err(EvalError::Cells { failures, .. }) => {
            assert_eq!(failures.len(), 1);
            assert_eq!((failures[0].y, failures[0].x), (0, 1));
            assert!(matches!(failures[0].error, EvalError::RecursiveDefinition(_)));
        },
        other => panic!("unexpected {:?}", other),
    }
}
