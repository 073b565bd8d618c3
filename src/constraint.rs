//! Constraint operators and the slack/surplus columns they add to the
//! augmented matrix.
use vstd::prelude::*;
use crate::nutrients::ElemName;

verus! {

/// The relation between a constraint's left-hand side and its right-hand side.
#[derive(Debug, Clone, Copy, PartialEq, Eq, Structural)]
pub enum ConstraintOp {
    Equal,
    Less,
    Greater,
    GreaterOrEqual,
    LessOrEqual,
}

impl ConstraintOp {
    /// The relation that holds once both sides have been negated.
    pub open spec fn spec_mirrored(self) -> ConstraintOp {
        match self {
            ConstraintOp::Equal => ConstraintOp::Equal,
            ConstraintOp::Less => ConstraintOp::Greater,
            ConstraintOp::Greater => ConstraintOp::Less,
            ConstraintOp::GreaterOrEqual => ConstraintOp::LessOrEqual,
            ConstraintOp::LessOrEqual => ConstraintOp::GreaterOrEqual,
        }
    }

    /// The coefficient of this constraint's own slack column: `+1` for an
    /// upper bound, `-1` for a lower bound, `0` (no column) for an equality.
    pub open spec fn spec_slack_sign(self) -> int {
        match self {
            ConstraintOp::Equal => 0,
            ConstraintOp::Less | ConstraintOp::LessOrEqual => 1,
            ConstraintOp::Greater | ConstraintOp::GreaterOrEqual => -1,
        }
    }

    pub open spec fn spec_has_slack(self) -> bool {
        self != ConstraintOp::Equal
    }

    pub fn mirrored(&self) -> (r: ConstraintOp)
        ensures
            r == self.spec_mirrored(),
    {
        match self {
            ConstraintOp::Equal => ConstraintOp::Equal,
            ConstraintOp::Less => ConstraintOp::Greater,
            ConstraintOp::Greater => ConstraintOp::Less,
            ConstraintOp::GreaterOrEqual => ConstraintOp::LessOrEqual,
            ConstraintOp::LessOrEqual => ConstraintOp::GreaterOrEqual,
        }
    }

    /// The operator under which a constraint is stored: mirrored when its
    /// right-hand side is negative (and then negated together with the left side).
    pub fn normalized(&self, rhs_negative: bool) -> (r: ConstraintOp)
        ensures
            r == (if rhs_negative {
                self.spec_mirrored()
            } else {
                *self
            }),
    {
        if rhs_negative {
            self.mirrored()
        } else {
            *self
        }
    }

    pub fn slack_sign(&self) -> (r: i8)
        ensures
            r == self.spec_slack_sign(),
    {
        match self {
            ConstraintOp::Equal => 0,
            ConstraintOp::Less | ConstraintOp::LessOrEqual => 1,
            ConstraintOp::Greater | ConstraintOp::GreaterOrEqual => -1,
        }
    }
}

/// Mirroring undoes itself, and it turns an upper bound into a lower bound and
/// back: a row whose both sides were negated and whose operator was mirrored
/// gets the opposite slack coefficient, so it describes the same set of points.
pub proof fn lemma_mirror_flips_slack(op: ConstraintOp)
    ensures
        op.spec_mirrored().spec_mirrored() == op,
        op.spec_mirrored().spec_slack_sign() == -op.spec_slack_sign(),
        op.spec_mirrored().spec_has_slack() == op.spec_has_slack(),
{
}

/// How many of `ops` are inequalities, i.e. own a slack column.
pub open spec fn slack_count(ops: Seq<ConstraintOp>) -> nat
    decreases ops.len(),
{
    if ops.len() == 0 {
        0
    } else {
        slack_count(ops.drop_last()) + if ops.last().spec_has_slack() {
            1nat
        } else {
            0nat
        }
    }
}

proof fn lemma_slack_count_bound(ops: Seq<ConstraintOp>)
    ensures
        slack_count(ops) <= ops.len(),
    decreases ops.len(),
{
    if ops.len() > 0 {
        lemma_slack_count_bound(ops.drop_last());
    }
}

/// For each constraint, the index of its slack column among the slack
/// columns (which follow the decision-variable columns in constraint order),
/// or `None` for an equality; and the number of slack columns.
pub fn slack_columns(ops: &Vec<ConstraintOp>) -> (r: (Vec<Option<usize>>, usize))
    ensures
        r.0@.len() == ops@.len(),
        r.1 == slack_count(ops@),
        forall|i: int|
            0 <= i < ops@.len() ==> r.0@[i] == (if ops@[i].spec_has_slack() {
                Some(slack_count(ops@.take(i)) as usize)
            } else {
                None
            }),
{
    let mut cols: Vec<Option<usize>> = Vec::new();
    let mut count: usize = 0;
    let mut i: usize = 0;
    while i < ops.len()
        invariant
            i <= ops@.len(),
            cols@.len() == i,
            count == slack_count(ops@.take(i as int)),
            forall|j: int|
                0 <= j < i ==> cols@[j] == (if ops@[j].spec_has_slack() {
                    Some(slack_count(ops@.take(j)) as usize)
                } else {
                    None
                }),
        decreases ops@.len() - i,
    {
        proof {
            lemma_slack_count_bound(ops@.take(i as int));
            assert(ops@.take(i + 1).drop_last() =~= ops@.take(i as int));
        }
        if ops[i] != ConstraintOp::Equal {
            cols.push(Some(count));
            count += 1;
        } else {
            cols.push(None);
        }
        i += 1;
    }
    assert(ops@.take(ops@.len() as int) =~= ops@);
    (cols, count)
}

/// What a row of a blend problem expresses.
#[derive(Debug, Clone, Copy, PartialEq, Eq, Structural)]
pub enum RowSource {
    /// The share of product `i` in the blend stays within its availability limit.
    Limit(usize),
    /// The weighted amount of a nutrient stays on one side of its window.
    Nutrient(ElemName),
}

/// One row of a blend problem: what it expresses and its operator.
#[derive(Debug, Clone, Copy, PartialEq, Eq, Structural)]
pub struct RowSpec {
    pub source: RowSource,
    pub op: ConstraintOp,
}

/// A lower-bound row on the share of product `i`.
pub open spec fn limit_row(i: int) -> RowSpec {
    RowSpec { source: RowSource::Limit(i as usize), op: ConstraintOp::GreaterOrEqual }
}

/// One limit row for each product that has a limit, in product order.
pub open spec fn limit_rows(limited: Seq<bool>) -> Seq<RowSpec>
    decreases limited.len(),
{
    if limited.len() == 0 {
        Seq::empty()
    } else {
        let rest = limit_rows(limited.drop_last());
        if limited.last() {
            rest.push(limit_row(limited.len() - 1))
        } else {
            rest
        }
    }
}

/// The lower and the upper bound row of a nutrient's window.
pub open spec fn window_rows(e: ElemName) -> Seq<RowSpec> {
    seq![
        RowSpec { source: RowSource::Nutrient(e), op: ConstraintOp::GreaterOrEqual },
        RowSpec { source: RowSource::Nutrient(e), op: ConstraintOp::LessOrEqual },
    ]
}

/// The rows of a blend problem: the limit rows, then the windows of
/// nitrogen, potassium and magnesium, and last the narrow window that pins
/// phosphorus.
pub open spec fn blend_rows(limited: Seq<bool>) -> Seq<RowSpec> {
    limit_rows(limited) + window_rows(ElemName::Nitrogen) + window_rows(ElemName::Potassium)
        + window_rows(ElemName::Magnesium) + window_rows(ElemName::Phosphorus)
}

fn push_window(rows: &mut Vec<RowSpec>, e: ElemName)
    ensures
        final(rows)@ == old(rows)@ + window_rows(e),
{
    rows.push(RowSpec { source: RowSource::Nutrient(e), op: ConstraintOp::GreaterOrEqual });
    rows.push(RowSpec { source: RowSource::Nutrient(e), op: ConstraintOp::LessOrEqual });
    assert(rows@ =~= old(rows)@ + window_rows(e));
}

/// The rows of the blend problem over products of which those marked in
/// `limited` have an availability limit.
pub fn blend_task_rows(limited: &Vec<bool>) -> (r: Vec<RowSpec>)
    ensures
        r@ == blend_rows(limited@),
{
    let mut rows: Vec<RowSpec> = Vec::new();
    let mut i: usize = 0;
    while i < limited.len()
        invariant
            i <= limited@.len(),
            rows@ == limit_rows(limited@.take(i as int)),
        decreases limited@.len() - i,
    {
        assert(limited@.take(i + 1).drop_last() =~= limited@.take(i as int));
        if limited[i] {
            rows.push(RowSpec { source: RowSource::Limit(i), op: ConstraintOp::GreaterOrEqual });
        }
        i += 1;
    }
    assert(limited@.take(limited@.len() as int) =~= limited@);
    push_window(&mut rows, ElemName::Nitrogen);
    push_window(&mut rows, ElemName::Potassium);
    push_window(&mut rows, ElemName::Magnesium);
    push_window(&mut rows, ElemName::Phosphorus);
    rows
}

} // verus!
