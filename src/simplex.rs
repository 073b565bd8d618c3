//! The decisions of the modified simplex method. The caller does the
//! floating-point work of each iteration (basis inverse, reduced costs,
//! direction vector, ratios) and hands the results over as `FloatKey`s; the
//! choice of entering and leaving columns, the pivot itself, and the
//! terminal states are decided here.
use vstd::prelude::*;
use crate::basis::BasisSolution;

verus! {

/// Iterations allowed before the method gives up.
pub const MAX_STEPS: usize = 1500;

/// The key of positive infinity; finite values lie strictly between
/// `-POS_INFINITY_KEY - 1` and this.
pub const POS_INFINITY_KEY: i64 = 0x7ff0_0000_0000_0000;

/// A 64-bit float seen through the IEEE 754 total order: `NaN`, or an integer
/// key that orders values as the floats they stand for, with every positive
/// float above key `0` (the key of `+0.0`) and `-0.0` at key `-1`.
#[derive(Debug, Clone, Copy, PartialEq, Eq, Structural)]
pub enum FloatKey {
    NaN,
    Ordered(i64),
}

impl FloatKey {
    pub open spec fn is_positive(self) -> bool {
        self matches FloatKey::Ordered(k) && k > 0
    }

    pub open spec fn is_finite(self) -> bool {
        self matches FloatKey::Ordered(k) && -POS_INFINITY_KEY - 1 < k < POS_INFINITY_KEY
    }

    /// `self` is a number no greater than zero.
    pub open spec fn is_non_positive(self) -> bool {
        self matches FloatKey::Ordered(k) && k <= 0
    }

    /// The position in the total order, with `NaN` above every number.
    pub open spec fn rank(self) -> int {
        match self {
            FloatKey::NaN => i64::MAX + 1,
            FloatKey::Ordered(k) => k as int,
        }
    }
}

/// Every reduced cost is a number no greater than zero (a `NaN` is not).
pub open spec fn all_non_positive(reduced: Seq<FloatKey>) -> bool {
    forall|i: int| 0 <= i < reduced.len() ==> reduced[i].is_non_positive()
}

/// `j` holds the largest positive reduced cost, and no later position holds one as large.
pub open spec fn is_entering(reduced: Seq<FloatKey>, j: int) -> bool {
    &&& 0 <= j < reduced.len()
    &&& reduced[j].is_positive()
    &&& forall|i: int|
        0 <= i < reduced.len() && reduced[i].is_positive() ==> reduced[i].rank() <= reduced[j].rank()
    &&& forall|i: int|
        j < i < reduced.len() && reduced[i].is_positive() ==> reduced[i].rank() < reduced[j].rank()
}

/// Row `i` takes part in the ratio test: its direction entry is finite and positive.
pub open spec fn is_eligible(directions: Seq<FloatKey>, i: int) -> bool {
    directions[i].is_finite() && directions[i].is_positive()
}

/// `l` is the first eligible row with the smallest ratio.
pub open spec fn is_leaving(directions: Seq<FloatKey>, ratios: Seq<FloatKey>, l: int) -> bool {
    &&& 0 <= l < directions.len()
    &&& is_eligible(directions, l)
    &&& forall|i: int|
        0 <= i < directions.len() && is_eligible(directions, i) ==> ratios[l].rank()
            <= ratios[i].rank()
    &&& forall|i: int|
        0 <= i < l && is_eligible(directions, i) ==> ratios[l].rank() < ratios[i].rank()
}

/// The pivot rules leave no choice open: for given reduced costs at most one
/// column qualifies to enter, and for given directions and ratios at most one
/// row qualifies to leave. Each iteration, and so a whole solve, is a
/// function of the numbers handed in.
pub proof fn lemma_pivot_choice_unique(
    reduced: Seq<FloatKey>,
    j1: int,
    j2: int,
    directions: Seq<FloatKey>,
    ratios: Seq<FloatKey>,
    l1: int,
    l2: int,
)
    ensures
        is_entering(reduced, j1) && is_entering(reduced, j2) ==> j1 == j2,
        is_leaving(directions, ratios, l1) && is_leaving(directions, ratios, l2) ==> l1 == l2,
{
}

fn rank_of(x: FloatKey) -> (r: i128)
    ensures
        r == x.rank(),
{
    match x {
        FloatKey::NaN => i64::MAX as i128 + 1,
        FloatKey::Ordered(k) => k as i128,
    }
}

/// Whether every reduced cost is a number no greater than zero: the basis is optimal.
pub fn is_optimal(reduced: &Vec<FloatKey>) -> (r: bool)
    ensures
        r == all_non_positive(reduced@),
{
    let mut i: usize = 0;
    while i < reduced.len()
        invariant
            i <= reduced@.len(),
            forall|j: int| 0 <= j < i ==> reduced@[j].is_non_positive(),
        decreases reduced@.len() - i,
    {
        match reduced[i] {
            FloatKey::Ordered(k) => {
                if k > 0 {
                    return false;
                }
            },
            FloatKey::NaN => {
                return false;
            },
        }
        i += 1;
    }
    true
}

/// The position of the entering column among the non-basic ones: the largest
/// positive reduced cost, the last of equal ones; `None` if none is positive.
pub fn entering_index(reduced: &Vec<FloatKey>) -> (r: Option<usize>)
    ensures
        r is None <==> forall|i: int| 0 <= i < reduced@.len() ==> !reduced@[i].is_positive(),
        r is Some ==> is_entering(reduced@, r->Some_0 as int),
{
    let mut best: Option<usize> = None;
    let mut i: usize = 0;
    while i < reduced.len()
        invariant
            i <= reduced@.len(),
            best is None <==> forall|t: int| 0 <= t < i ==> !reduced@[t].is_positive(),
            best is Some ==> {
                let j = best->Some_0 as int;
                &&& 0 <= j < i
                &&& reduced@[j].is_positive()
                &&& forall|t: int|
                    0 <= t < i && reduced@[t].is_positive() ==> reduced@[t].rank()
                        <= reduced@[j].rank()
                &&& forall|t: int|
                    j < t < i && reduced@[t].is_positive() ==> reduced@[t].rank()
                        < reduced@[j].rank()
            },
        decreases reduced@.len() - i,
    {
        if let FloatKey::Ordered(k) = reduced[i] {
            if k > 0 {
                match best {
                    None => {
                        best = Some(i);
                    },
                    Some(j) => {
                        if rank_of(reduced[i]) >= rank_of(reduced[j]) {
                            best = Some(i);
                        }
                    },
                }
            }
        }
        i += 1;
    }
    best
}

/// The row of the leaving column: among the rows whose direction entry is
/// finite and positive, the smallest ratio (`NaN` counting as the largest),
/// the first of equal ones; `None` if no row is eligible.
pub fn leaving_index(directions: &Vec<FloatKey>, ratios: &Vec<FloatKey>) -> (r: Option<usize>)
    requires
        directions@.len() == ratios@.len(),
    ensures
        r is None <==> forall|i: int| 0 <= i < directions@.len() ==> !is_eligible(directions@, i),
        r is Some ==> is_leaving(directions@, ratios@, r->Some_0 as int),
{
    let mut best: Option<usize> = None;
    let mut i: usize = 0;
    while i < directions.len()
        invariant
            i <= directions@.len(),
            directions@.len() == ratios@.len(),
            best is None <==> forall|t: int| 0 <= t < i ==> !is_eligible(directions@, t),
            best is Some ==> {
                let l = best->Some_0 as int;
                &&& 0 <= l < i
                &&& is_eligible(directions@, l)
                &&& forall|t: int|
                    0 <= t < i && is_eligible(directions@, t) ==> ratios@[l].rank()
                        <= ratios@[t].rank()
                &&& forall|t: int|
                    0 <= t < l && is_eligible(directions@, t) ==> ratios@[l].rank()
                        < ratios@[t].rank()
            },
        decreases directions@.len() - i,
    {
        let eligible = match directions[i] {
            FloatKey::Ordered(d) => d > 0 && d < POS_INFINITY_KEY,
            FloatKey::NaN => false,
        };
        assert(eligible == is_eligible(directions@, i as int));
        if eligible {
            match best {
                None => {
                    best = Some(i);
                },
                Some(l) => {
                    if rank_of(ratios[i]) < rank_of(ratios[l]) {
                        best = Some(i);
                    }
                },
            }
        }
        i += 1;
    }
    best
}

/// Why the simplex iterations stopped without an optimum (the initial-basis
/// search fails with a `BasisError` of its own).
#[derive(Debug, Clone, Copy, PartialEq, Eq, Structural)]
pub enum SimplexFailure {
    /// No reduced cost is positive, yet not all are numbers at most zero.
    NotFeasible,
    /// The objective decreases without limit.
    Unbounded,
    /// `MAX_STEPS` iterations went by without an optimum.
    TooManySteps,
}

/// What an iteration does after the reduced costs are known.
#[derive(Debug, Clone, Copy, PartialEq, Eq, Structural)]
pub enum Decision {
    /// The current basis is optimal.
    Optimal,
    /// The non-basic column at this position enters the basis.
    Enter(usize),
    /// The method stops.
    Fail(SimplexFailure),
}

/// `b` and `nb` split the columns `0..n` between them, each column once.
pub open spec fn is_partition(b: Seq<usize>, nb: Seq<usize>, n: nat) -> bool {
    &&& b.no_duplicates()
    &&& nb.no_duplicates()
    &&& forall|i: int| 0 <= i < b.len() ==> b[i] < n
    &&& forall|i: int| 0 <= i < nb.len() ==> nb[i] < n
    &&& forall|c: usize| c < n ==> (b.contains(c) <==> !nb.contains(c))
}

proof fn lemma_increasing_no_duplicates(s: Seq<usize>)
    requires
        forall|i: int, j: int| 0 <= i < j < s.len() ==> s[i] < s[j],
    ensures
        s.no_duplicates(),
{
}

proof fn lemma_remove_distinct(s: Seq<usize>, i: int)
    requires
        s.no_duplicates(),
        0 <= i < s.len(),
    ensures
        s.remove(i).no_duplicates(),
        forall|c: usize| s.remove(i).contains(c) <==> (s.contains(c) && c != s[i]),
{
    let r = s.remove(i);
    assert forall|a: int, b: int| 0 <= a < r.len() && 0 <= b < r.len() && a != b implies r[a]
        != r[b] by {
        let sa = if a < i {
            a
        } else {
            a + 1
        };
        let sb = if b < i {
            b
        } else {
            b + 1
        };
        assert(r[a] == s[sa] && r[b] == s[sb]);
    }
    assert forall|c: usize| r.contains(c) <==> (s.contains(c) && c != s[i]) by {
        if r.contains(c) {
            let a = choose|a: int| 0 <= a < r.len() && r[a] == c;
            let sa = if a < i {
                a
            } else {
                a + 1
            };
            assert(s[sa] == c);
        }
        if s.contains(c) && c != s[i] {
            let a = choose|a: int| 0 <= a < s.len() && s[a] == c;
            if a < i {
                assert(r[a] == c);
            } else {
                assert(r[a - 1] == c);
            }
        }
    }
}

proof fn lemma_push_distinct(s: Seq<usize>, x: usize)
    requires
        s.no_duplicates(),
        !s.contains(x),
    ensures
        s.push(x).no_duplicates(),
        forall|c: usize| s.push(x).contains(c) <==> (s.contains(c) || c == x),
{
    let r = s.push(x);
    assert forall|c: usize| r.contains(c) <==> (s.contains(c) || c == x) by {
        if r.contains(c) {
            let a = choose|a: int| 0 <= a < r.len() && r[a] == c;
            if a < s.len() {
                assert(s[a] == c);
            }
        }
        if s.contains(c) {
            let a = choose|a: int| 0 <= a < s.len() && s[a] == c;
            assert(r[a] == c);
        }
        if c == x {
            assert(r[s.len() as int] == c);
        }
    }
    assert forall|a: int, b: int| 0 <= a < r.len() && 0 <= b < r.len() && a != b implies r[a]
        != r[b] by {
        if a < s.len() && b == s.len() {
            assert(s.contains(r[a]));
        }
        if b < s.len() && a == s.len() {
            assert(s.contains(r[b]));
        }
    }
}

/// The current basic and non-basic columns and the number of pivots made.
#[derive(Debug)]
pub struct SimplexState {
    basis_cols: Vec<usize>,
    non_basis_cols: Vec<usize>,
    steps: usize,
    n_cols: usize,
}

impl SimplexState {
    pub closed spec fn spec_basis(&self) -> Seq<usize> {
        self.basis_cols@
    }

    pub closed spec fn spec_non_basis(&self) -> Seq<usize> {
        self.non_basis_cols@
    }

    pub closed spec fn spec_steps(&self) -> nat {
        self.steps as nat
    }

    /// The number of columns, basic and non-basic together.
    pub closed spec fn spec_n_cols(&self) -> nat {
        self.n_cols as nat
    }

    /// The basic and non-basic columns partition all the columns.
    pub open spec fn wf(&self) -> bool {
        is_partition(self.spec_basis(), self.spec_non_basis(), self.spec_n_cols())
    }

    /// Starts from an initial basis; a basis that leaves no column out cannot
    /// be improved on and is refused.
    pub fn start(basis: BasisSolution, n_cols: usize, basis_size: usize) -> (r: Result<
        SimplexState,
        SimplexFailure,
    >)
        requires
            basis.partitions(n_cols as nat, basis_size as nat),
        ensures
            r is Ok ==> r->Ok_0.wf() && r->Ok_0.spec_n_cols() == n_cols,
            (basis.non_basis_cols@.len() == 0) <==> (r == Err::<SimplexState, SimplexFailure>(
                SimplexFailure::NotFeasible,
            )),
            r is Ok ==> r->Ok_0.spec_basis() == basis.basis_cols@ && r->Ok_0.spec_non_basis()
                == basis.non_basis_cols@ && r->Ok_0.spec_steps() == 0,
    {
        if basis.non_basis_cols.len() == 0 {
            return Err(SimplexFailure::NotFeasible);
        }
        proof {
            lemma_increasing_no_duplicates(basis.basis_cols@);
            lemma_increasing_no_duplicates(basis.non_basis_cols@);
        }
        Ok(SimplexState {
            basis_cols: basis.basis_cols,
            non_basis_cols: basis.non_basis_cols,
            steps: 0,
            n_cols,
        })
    }

    pub fn basis_cols(&self) -> (r: &[usize])
        ensures
            r@ == self.spec_basis(),
    {
        self.basis_cols.as_slice()
    }

    pub fn non_basis_cols(&self) -> (r: &[usize])
        ensures
            r@ == self.spec_non_basis(),
    {
        self.non_basis_cols.as_slice()
    }

    pub fn steps(&self) -> (r: usize)
        ensures
            r == self.spec_steps(),
    {
        self.steps
    }

    /// Decides an iteration from the reduced costs of the non-basic columns:
    /// give up after `MAX_STEPS` pivots, stop at an optimum, pick the
    /// entering column, or stop when no column can enter.
    pub fn decide(&self, reduced: &Vec<FloatKey>) -> (r: Decision)
        ensures
            self.spec_steps() > MAX_STEPS ==> r == Decision::Fail(SimplexFailure::TooManySteps),
            self.spec_steps() <= MAX_STEPS ==> {
                &&& (r == Decision::Optimal) <==> all_non_positive(reduced@)
                &&& (r == Decision::Fail(SimplexFailure::NotFeasible)) <==> (!all_non_positive(
                    reduced@,
                ) && forall|i: int| 0 <= i < reduced@.len() ==> !reduced@[i].is_positive())
                &&& r is Enter ==> is_entering(reduced@, r->Enter_0 as int)
                &&& r is Fail ==> r->Fail_0 == SimplexFailure::NotFeasible
            },
    {
        if self.steps > MAX_STEPS {
            return Decision::Fail(SimplexFailure::TooManySteps);
        }
        if is_optimal(reduced) {
            return Decision::Optimal;
        }
        match entering_index(reduced) {
            None => Decision::Fail(SimplexFailure::NotFeasible),
            Some(j) => Decision::Enter(j),
        }
    }

    /// Exchanges the entering column at non-basic position `entering` with
    /// the leaving row chosen by the ratio test: the entering column is
    /// appended to the basic ones, the leaving one is taken out and appended
    /// to the non-basic ones. Fails with `Unbounded`, changing nothing, when
    /// no row is eligible or the chosen ratio is `NaN`.
    pub fn pivot(&mut self, entering: usize, directions: &Vec<FloatKey>, ratios: &Vec<FloatKey>) -> (r:
        Result<(), SimplexFailure>)
        requires
            old(self).wf(),
            entering < old(self).spec_non_basis().len(),
            directions@.len() == old(self).spec_basis().len(),
            ratios@.len() == old(self).spec_basis().len(),
            old(self).spec_steps() <= MAX_STEPS,
        ensures
            (r is Ok) <==> exists|l: int|
                is_leaving(directions@, ratios@, l) && ratios@[l] != FloatKey::NaN,
            r is Err ==> r == Err::<(), SimplexFailure>(SimplexFailure::Unbounded) && *final(self)
                == *old(self),
            r is Ok ==> exists|l: int|
                {
                    &&& is_leaving(directions@, ratios@, l)
                    &&& final(self).spec_basis() == old(self).spec_basis().push(
                        old(self).spec_non_basis()[entering as int],
                    ).remove(l)
                    &&& final(self).spec_non_basis() == old(self).spec_non_basis().remove(
                        entering as int,
                    ).push(old(self).spec_basis()[l])
                },
            r is Ok ==> final(self).spec_steps() == old(self).spec_steps() + 1,
            final(self).wf(),
            final(self).spec_n_cols() == old(self).spec_n_cols(),
            final(self).spec_basis().len() == old(self).spec_basis().len(),
    {
        let leaving = leaving_index(directions, ratios);
        match leaving {
            None => {
                return Err(SimplexFailure::Unbounded);
            },
            Some(l) => {
                if ratios[l] == FloatKey::NaN {
                    return Err(SimplexFailure::Unbounded);
                }
                let ghost b0 = self.basis_cols@;
                let ghost nb0 = self.non_basis_cols@;
                let ghost n = self.n_cols;
                let c = self.non_basis_cols.remove(entering);
                proof {
                    assert(nb0.contains(c));
                    lemma_remove_distinct(nb0, entering as int);
                    lemma_push_distinct(b0, c);
                }
                self.basis_cols.push(c);
                let d = self.basis_cols.remove(l);
                proof {
                    assert(b0.push(c)[l as int] == b0[l as int]);
                    assert(b0.contains(d));
                    lemma_remove_distinct(b0.push(c), l as int);
                    lemma_push_distinct(nb0.remove(entering as int), d);
                    assert forall|i: int| 0 <= i < self.basis_cols@.len() implies self.basis_cols@[i]
                        < n by {
                        assert(b0.push(c).contains(self.basis_cols@[i]));
                        let t = choose|t: int| 0 <= t < b0.push(c).len() && b0.push(c)[t] == self.basis_cols@[i];
                        if t < b0.len() {
                            assert(b0[t] < n);
                        }
                    }
                    assert forall|i: int| 0 <= i < nb0.remove(entering as int).len() implies nb0.remove(entering as int)[i]
                        < n by {
                        assert(nb0.contains(nb0.remove(entering as int)[i]));
                    }
                }
                self.non_basis_cols.push(d);
                self.steps = self.steps + 1;
                assert(self.basis_cols@ == b0.push(c).remove(l as int));
                assert(self.non_basis_cols@ == nb0.remove(entering as int).push(d));
                assert forall|x: usize| x < n implies (self.basis_cols@.contains(x)
                    <==> !self.non_basis_cols@.contains(x)) by {
                    assert(self.basis_cols@.contains(x) <==> ((b0.contains(x) || x == c) && x
                        != d));
                    assert(self.non_basis_cols@.contains(x) <==> ((nb0.contains(x) && x != c) || x
                        == d));
                }
                Ok(())
            },
        }
    }

    /// The position of column `col` among the basic columns, or `None` when
    /// it is non-basic (and so has value zero).
    pub fn basic_position(&self, col: usize) -> (r: Option<usize>)
        ensures
            r is None <==> !self.spec_basis().contains(col),
            r is Some ==> r->Some_0 < self.spec_basis().len() && self.spec_basis()[r->Some_0 as int]
                == col,
    {
        let mut p: usize = 0;
        while p < self.basis_cols.len()
            invariant
                p <= self.basis_cols@.len(),
                forall|t: int| 0 <= t < p ==> self.basis_cols@[t] != col,
            decreases self.basis_cols@.len() - p,
        {
            if self.basis_cols[p] == col {
                return Some(p);
            }
            p += 1;
        }
        None
    }
}

} // verus!
