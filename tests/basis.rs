use std::cell::Cell;

use fertilizer_calc::basis::{find_basis, BasisError, MAX_COMBINATIONS};

#[test]
fn big_task_tries_nothing() {
    let calls = Cell::new(0usize);
    let r = find_basis(40, 20, |_: &[usize]| {
        calls.set(calls.get() + 1);
        true
    });
    assert_eq!(r.unwrap_err(), BasisError::BigTask);
    assert_eq!(calls.get(), 0);
}

#[test]
fn limit_itself_is_searched() {
    // C(22, 11) = 705432 is over the limit, C(21, 10) = 352716 is not
    assert!(352716 <= MAX_COMBINATIONS);
    let calls = Cell::new(0usize);
    let r = find_basis(21, 10, |_: &[usize]| {
        calls.set(calls.get() + 1);
        false
    });
    assert_eq!(r.unwrap_err(), BasisError::NoBaseSolution);
    assert_eq!(calls.get(), 352716);
    assert_eq!(find_basis(22, 11, |_: &[usize]| true).unwrap_err(), BasisError::BigTask);
}

#[test]
fn first_accepted_basis_is_returned() {
    let r = find_basis(5, 2, |c: &[usize]| c[0] == 1).unwrap();
    assert_eq!(r.basis_cols, vec![1, 2]);
    assert_eq!(r.non_basis_cols, vec![0, 3, 4]);
}

#[test]
fn nothing_accepted() {
    let r = find_basis(4, 2, |_: &[usize]| false);
    assert_eq!(r.unwrap_err(), BasisError::NoBaseSolution);
}

#[test]
fn more_rows_than_columns() {
    let r = find_basis(2, 3, |_: &[usize]| true);
    assert_eq!(r.unwrap_err(), BasisError::NoBaseSolution);
}

#[test]
fn full_basis_leaves_no_column() {
    let r = find_basis(3, 3, |_: &[usize]| true).unwrap();
    assert_eq!(r.basis_cols, vec![0, 1, 2]);
    assert!(r.non_basis_cols.is_empty());
}
