use fertilizer_calc::basis::find_basis;
use fertilizer_calc::simplex::{
    entering_index, is_optimal, leaving_index, Decision, FloatKey, SimplexFailure, SimplexState,
    MAX_STEPS,
};

fn key(x: f64) -> FloatKey {
    if x.is_nan() {
        FloatKey::NaN
    } else {
        let bits = x.to_bits() as i64;
        FloatKey::Ordered(bits ^ (((bits >> 63) as u64) >> 1) as i64)
    }
}

fn keys(xs: &[f64]) -> Vec<FloatKey> {
    xs.iter().map(|x| key(*x)).collect()
}

#[test]
fn keys_follow_float_order() {
    let xs = [f64::NEG_INFINITY, -3.5, -1e-300, -0.0, 0.0, 1e-300, 2.0, 2.5, f64::INFINITY];
    for w in xs.windows(2) {
        match (key(w[0]), key(w[1])) {
            (FloatKey::Ordered(a), FloatKey::Ordered(b)) => assert!(a < b),
            _ => panic!("ordered values expected"),
        }
    }
    assert_eq!(key(0.0), FloatKey::Ordered(0));
    assert_eq!(key(-0.0), FloatKey::Ordered(-1));
    assert_eq!(key(f64::INFINITY), FloatKey::Ordered(fertilizer_calc::simplex::POS_INFINITY_KEY));
}

#[test]
fn optimality_needs_numbers() {
    assert!(is_optimal(&keys(&[0.0, -1.0, -0.0])));
    assert!(!is_optimal(&keys(&[0.0, 1e-9])));
    assert!(!is_optimal(&keys(&[f64::NAN, -1.0])));
    assert!(is_optimal(&vec![]));
}

#[test]
fn entering_takes_largest_last_of_ties() {
    assert_eq!(entering_index(&keys(&[0.5, 2.0, -3.0, 2.0, 1.0])), Some(3));
    assert_eq!(entering_index(&keys(&[0.5, f64::NAN, 0.25])), Some(0));
    assert_eq!(entering_index(&keys(&[-0.5, 0.0, f64::NAN])), None);
}

#[test]
fn leaving_takes_smallest_ratio_first_of_ties() {
    let dirs = keys(&[1.0, -2.0, 4.0, 2.0, f64::INFINITY]);
    let ratios = keys(&[3.0, -1.0, 0.5, 0.5, 0.0]);
    assert_eq!(leaving_index(&dirs, &ratios), Some(2));
    assert_eq!(leaving_index(&keys(&[0.0, -1.0, f64::NAN]), &keys(&[1.0, 1.0, 1.0])), None);
    assert_eq!(leaving_index(&keys(&[1.0, 1.0]), &keys(&[f64::NAN, 2.0])), Some(1));
}

#[test]
fn state_machine_pivots() {
    let basis = find_basis(4, 2, |_: &[usize]| true).unwrap();
    let mut state = SimplexState::start(basis, 4, 2).unwrap();
    assert_eq!(state.basis_cols(), &[0, 1]);
    assert_eq!(state.non_basis_cols(), &[2, 3]);
    let d = state.decide(&keys(&[1.0, 3.0]));
    assert_eq!(d, Decision::Enter(1));
    state.pivot(1, &keys(&[2.0, 1.0]), &keys(&[4.0, 1.0])).unwrap();
    assert_eq!(state.basis_cols(), &[0, 3]);
    assert_eq!(state.non_basis_cols(), &[2, 1]);
    assert_eq!(state.steps(), 1);
    assert_eq!(state.basic_position(3), Some(1));
    assert_eq!(state.basic_position(1), None);
    assert_eq!(state.decide(&keys(&[-1.0, 0.0])), Decision::Optimal);
    assert_eq!(state.decide(&keys(&[-1.0, f64::NAN])), Decision::Fail(SimplexFailure::NotFeasible));
}

#[test]
fn unbounded_leaves_state_alone() {
    let basis = find_basis(3, 1, |_: &[usize]| true).unwrap();
    let mut state = SimplexState::start(basis, 3, 1).unwrap();
    assert_eq!(state.pivot(0, &keys(&[-1.0]), &keys(&[-2.0])), Err(SimplexFailure::Unbounded));
    assert_eq!(state.pivot(0, &keys(&[1.0]), &keys(&[f64::NAN])), Err(SimplexFailure::Unbounded));
    assert_eq!(state.basis_cols(), &[0]);
    assert_eq!(state.steps(), 0);
}

#[test]
fn full_basis_is_not_feasible() {
    let basis = find_basis(2, 2, |_: &[usize]| true).unwrap();
    assert_eq!(SimplexState::start(basis, 2, 2).unwrap_err(), SimplexFailure::NotFeasible);
}

#[test]
fn too_many_steps() {
    let basis = find_basis(2, 1, |_: &[usize]| true).unwrap();
    let mut state = SimplexState::start(basis, 2, 1).unwrap();
    for _ in 0..=MAX_STEPS {
        assert_eq!(state.decide(&keys(&[1.0])), Decision::Enter(0));
        state.pivot(0, &keys(&[1.0]), &keys(&[0.0])).unwrap();
    }
    assert_eq!(state.decide(&keys(&[1.0])), Decision::Fail(SimplexFailure::TooManySteps));
}
