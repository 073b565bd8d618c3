use fertilizer_calc::constraint::{blend_task_rows, slack_columns, ConstraintOp, RowSource, RowSpec};
use fertilizer_calc::nutrients::ElemName;

#[test]
fn mirrored_operators() {
    assert_eq!(ConstraintOp::Equal.mirrored(), ConstraintOp::Equal);
    assert_eq!(ConstraintOp::Less.mirrored(), ConstraintOp::Greater);
    assert_eq!(ConstraintOp::Greater.mirrored(), ConstraintOp::Less);
    assert_eq!(ConstraintOp::LessOrEqual.mirrored(), ConstraintOp::GreaterOrEqual);
    assert_eq!(ConstraintOp::GreaterOrEqual.mirrored(), ConstraintOp::LessOrEqual);
}

#[test]
fn normalized_mirrors_only_negative_rhs() {
    assert_eq!(ConstraintOp::LessOrEqual.normalized(true), ConstraintOp::GreaterOrEqual);
    assert_eq!(ConstraintOp::LessOrEqual.normalized(false), ConstraintOp::LessOrEqual);
    assert_eq!(ConstraintOp::Equal.normalized(true), ConstraintOp::Equal);
}

#[test]
fn slack_signs() {
    assert_eq!(ConstraintOp::Equal.slack_sign(), 0);
    assert_eq!(ConstraintOp::Less.slack_sign(), 1);
    assert_eq!(ConstraintOp::LessOrEqual.slack_sign(), 1);
    assert_eq!(ConstraintOp::Greater.slack_sign(), -1);
    assert_eq!(ConstraintOp::GreaterOrEqual.slack_sign(), -1);
}

#[test]
fn slack_columns_skip_equalities() {
    let ops = vec![
        ConstraintOp::GreaterOrEqual,
        ConstraintOp::Equal,
        ConstraintOp::LessOrEqual,
        ConstraintOp::Greater,
        ConstraintOp::Equal,
    ];
    let (cols, count) = slack_columns(&ops);
    assert_eq!(cols, vec![Some(0), None, Some(1), Some(2), None]);
    assert_eq!(count, 3);
    let (cols, count) = slack_columns(&vec![]);
    assert!(cols.is_empty());
    assert_eq!(count, 0);
}

#[test]
fn blend_rows_order() {
    let rows = blend_task_rows(&vec![false, true, false, true]);
    let ge = ConstraintOp::GreaterOrEqual;
    let le = ConstraintOp::LessOrEqual;
    let n = |e| RowSource::Nutrient(e);
    let expected = vec![
        RowSpec { source: RowSource::Limit(1), op: ge },
        RowSpec { source: RowSource::Limit(3), op: ge },
        RowSpec { source: n(ElemName::Nitrogen), op: ge },
        RowSpec { source: n(ElemName::Nitrogen), op: le },
        RowSpec { source: n(ElemName::Potassium), op: ge },
        RowSpec { source: n(ElemName::Potassium), op: le },
        RowSpec { source: n(ElemName::Magnesium), op: ge },
        RowSpec { source: n(ElemName::Magnesium), op: le },
        RowSpec { source: n(ElemName::Phosphorus), op: ge },
        RowSpec { source: n(ElemName::Phosphorus), op: le },
    ];
    assert_eq!(rows, expected);
    assert_eq!(blend_task_rows(&vec![]).len(), 8);
}
