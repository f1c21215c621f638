use computor::ast::{Expr, Opcode, Prod, ProdDiv};
use computor::error::EvalError;
use computor::number::Number;

fn num(n: i64) -> Expr {
    Expr::Number(Number::new(n))
}

fn frac(a: i64, b: i64) -> Expr {
    Expr::Number(Number::fraction(a, b).unwrap())
}

fn mat(rows: Vec<Vec<i64>>) -> Expr {
    Expr::Matrix(rows.into_iter().map(|r| r.into_iter().map(num).collect()).collect())
}

#[test]
fn add_matrices_cell_by_cell() {
    let r = mat(vec![vec![1, 2], vec![3, 4]]).add(mat(vec![vec![10, 20], vec![30, 40]])).unwrap();
    assert_eq!(r, mat(vec![vec![11, 22], vec![33, 44]]));
}

#[test]
fn sub_matrices_of_other_shape_fail() {
    match mat(vec![vec![1, 2]]).sub(mat(vec![vec![1, 2], vec![3, 4]])) {
        Err(EvalError::DimensionMismatch { expected, found }) => {
            assert_eq!(expected, 1);
            assert_eq!(found, 2);
        },
        other => panic!("unexpected {:?}", other),
    }
}

#[test]
fn divide_with_one_zero_cell_reports_one_coordinate() {
    match mat(vec![vec![1, 2], vec![3, 4]]).div(mat(vec![vec![1, 0], vec![1, 1]])) {
        Err(EvalError::Cells { failures, partial }) => {
            assert_eq!(failures.len(), 1);
            assert_eq!(failures[0].x, 1);
            assert_eq!(failures[0].y, 0);
            assert!(matches!(failures[0].error, EvalError::DivisionByZero));
            assert_eq!(Expr::Matrix(partial), mat(vec![vec![1, 0], vec![3, 4]]));
        },
        other => panic!("unexpected {:?}", other),
    }
}

#[test]
fn divide_reports_every_failed_cell_in_order() {
    match mat(vec![vec![1, 2], vec![3, 4]]).div(mat(vec![vec![0, 0], vec![1, 0]])) {
        Err(EvalError::Cells { failures, .. }) => {
            let coords: Vec<(usize, usize)> = failures.iter().map(|c| (c.y, c.x)).collect();
            assert_eq!(coords, vec![(0, 0), (0, 1), (1, 1)]);
        },
        other => panic!("unexpected {:?}", other),
    }
}

#[test]
fn scalar_broadcast() {
    assert_eq!(num(2).mul(mat(vec![vec![1, 2]])).unwrap(), mat(vec![vec![2, 4]]));
    assert_eq!(mat(vec![vec![1, 2]]).mul(num(2)).unwrap(), mat(vec![vec![2, 4]]));
    assert_eq!(mat(vec![vec![2, 4]]).div(num(2)).unwrap(), mat(vec![vec![1, 2]]));
    match mat(vec![vec![2, 4]]).div(num(0)) {
        Err(EvalError::Cells { failures, .. }) => assert_eq!(failures.len(), 2),
        other => panic!("unexpected {:?}", other),
    }
}

#[test]
fn scalar_broadcast_for_sums_and_quotients() {
    assert_eq!(num(2).add(mat(vec![vec![1, 2]])).unwrap(), mat(vec![vec![3, 4]]));
    assert_eq!(mat(vec![vec![1, 2]]).sub(num(1)).unwrap(), mat(vec![vec![0, 1]]));
    assert_eq!(num(10).sub(mat(vec![vec![1, 2]])).unwrap(), mat(vec![vec![9, 8]]));
    let q = num(1).div(mat(vec![vec![2, 4]])).unwrap();
    assert_eq!(q, Expr::Matrix(vec![vec![frac(1, 2), frac(1, 4)]]));
}

#[test]
fn kronecker_style_product() {
    let r = mat(vec![vec![1, 2], vec![3, 4]]).mul(mat(vec![vec![5, 6], vec![7, 8]])).unwrap();
    assert_eq!(r, mat(vec![vec![5, 12], vec![21, 32]]));
}

#[test]
fn matrix_product_of_fitting_shapes() {
    let a = mat(vec![vec![1, 2, 3], vec![4, 5, 6]]);
    let b = mat(vec![vec![7, 8], vec![9, 10], vec![11, 12]]);
    let r = a.prod(b).unwrap();
    assert_eq!(r, mat(vec![vec![58, 64], vec![139, 154]]));
}

#[test]
fn matrix_product_of_unfitting_shapes() {
    let a = mat(vec![vec![1, 2, 3], vec![4, 5, 6]]);
    let b = mat(vec![vec![1, 2], vec![3, 4]]);
    match a.prod(b) {
        Err(EvalError::DimensionMismatch { expected, found }) => {
            assert_eq!(expected, 3);
            assert_eq!(found, 2);
        },
        other => panic!("unexpected {:?}", other),
    }
}

#[test]
fn divide_by_inverse() {
    let r = num(1).prod_div(mat(vec![vec![1, 2], vec![3, 4]])).unwrap();
    let expected = Expr::Matrix(vec![vec![num(-2), num(1)], vec![frac(3, 2), frac(-1, 2)]]);
    assert_eq!(r, expected);
    let id = mat(vec![vec![1, 2], vec![3, 4]]).prod_div(mat(vec![vec![1, 2], vec![3, 4]])).unwrap();
    assert_eq!(id, mat(vec![vec![1, 0], vec![0, 1]]));
}

#[test]
fn singular_matrix_is_not_invertible() {
    assert!(matches!(num(1).prod_div(mat(vec![vec![1, 2], vec![2, 4]])), Err(EvalError::NotInvertible)));
}

#[test]
fn only_two_by_two_is_invertible() {
    let m = mat(vec![vec![1, 0, 0], vec![0, 1, 0], vec![0, 0, 1]]);
    match num(1).prod_div(m) {
        Err(EvalError::UnsupportedDimension { rows, cols }) => {
            assert_eq!(rows, 3);
            assert_eq!(cols, 3);
        },
        other => panic!("unexpected {:?}", other),
    }
}

#[test]
fn matrix_equality_and_order() {
    assert_eq!(mat(vec![vec![1, 2]]), mat(vec![vec![1, 2]]));
    assert_ne!(mat(vec![vec![1, 2]]), mat(vec![vec![1, 3]]));
    assert_ne!(mat(vec![vec![1, 2]]), mat(vec![vec![1], vec![2]]));
    assert_eq!(mat(vec![vec![1]]).partial_cmp(&mat(vec![vec![1]])), None);
}

#[test]
fn product_keeps_non_matrices_unresolved() {
    assert!(matches!(num(1).prod(num(2)).unwrap(), Expr::Op(_, Opcode::Prod, _)));
}

#[test]
fn product_reports_a_failing_cell() {
    let a = Expr::Matrix(vec![vec![Expr::Number(Number::new(i64::MAX)), num(1)]]);
    let b = mat(vec![vec![2], vec![1]]);
    assert!(matches!(a.prod(b), Err(EvalError::Overflow)));
}

#[test]
fn uneven_rows_name_the_first_differing_pair() {
    let a = mat(vec![vec![1, 2], vec![3, 4]]);
    let b = Expr::Matrix(vec![vec![num(1), num(2)], vec![num(3)]]);
    match a.add(b) {
        Err(EvalError::DimensionMismatch { expected, found }) => {
            assert_eq!(expected, 2);
            assert_eq!(found, 1);
        },
        other => panic!("unexpected {:?}", other),
    }
}
