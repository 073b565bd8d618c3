//! Search for an initial basis: the first combination of columns, in
//! lexicographic order, that the caller's numeric test accepts.
use vstd::prelude::*;
use crate::combinator::{
    Combinator,
    binom,
    encode,
    first_combination,
    is_combination,
    lemma_encode_bound,
    lemma_first_is_least,
    lemma_next_is_adjacent,
    lemma_next_is_later,
    lex_lt,
    power,
};

verus! {

/// Above this many candidate column sets the search is not attempted.
pub const MAX_COMBINATIONS: usize = 400000;

/// Why no initial basis was found.
#[derive(Debug, Clone, Copy, PartialEq, Eq, Structural)]
pub enum BasisError {
    /// There are more than `MAX_COMBINATIONS` candidate column sets.
    BigTask,
    /// Every candidate column set was rejected.
    NoBaseSolution,
}

/// A partition of the columns `0..n` into basic and non-basic ones.
#[derive(Debug)]
pub struct BasisSolution {
    pub basis_cols: Vec<usize>,
    pub non_basis_cols: Vec<usize>,
}

/// `nb` lists, in ascending order, exactly the columns below `n` missing from `b`.
pub open spec fn is_complement(nb: Seq<usize>, b: Seq<usize>, n: nat) -> bool {
    &&& forall|i: int, j: int| 0 <= i < j < nb.len() ==> nb[i] < nb[j]
    &&& forall|i: int| 0 <= i < nb.len() ==> nb[i] < n
    &&& forall|c: usize| c < n ==> (nb.contains(c) <==> !b.contains(c))
}

impl BasisSolution {
    /// `basis_cols` holds `k` distinct columns below `n`, and
    /// `non_basis_cols` the others in ascending order.
    pub open spec fn partitions(&self, n: nat, k: nat) -> bool {
        &&& is_combination(self.basis_cols@, n, k)
        &&& is_complement(self.non_basis_cols@, self.basis_cols@, n)
    }
}

/// The columns below `n` missing from `basis`, in ascending order.
pub fn complement_of(basis: &[usize], n: usize) -> (r: Vec<usize>)
    ensures
        is_complement(r@, basis@, n as nat),
{
    let mut r: Vec<usize> = Vec::new();
    let mut c: usize = 0;
    while c < n
        invariant
            c <= n,
            forall|i: int, j: int| 0 <= i < j < r@.len() ==> r@[i] < r@[j],
            forall|i: int| 0 <= i < r@.len() ==> r@[i] < c,
            forall|d: usize| d < c ==> (r@.contains(d) <==> !basis@.contains(d)),
        decreases n - c,
    {
        let mut found = false;
        let mut t: usize = 0;
        while t < basis.len()
            invariant
                t <= basis@.len(),
                found <==> exists|j: int| 0 <= j < t && basis@[j] == c,
            decreases basis@.len() - t,
        {
            if basis[t] == c {
                found = true;
            }
            t += 1;
        }
        let ghost old_r = r@;
        if !found {
            r.push(c);
            assert(r@.contains(c) == true) by {
                assert(r@[r@.len() - 1] == c);
            }
        } else {
            assert(basis@.contains(c)) by {
                let j = choose|j: int| 0 <= j < basis@.len() && basis@[j] == c;
            }
        }
        assert forall|d: usize| d <= c implies (r@.contains(d) <==> !basis@.contains(d)) by {
            if d < c {
                if r@.contains(d) && !found {
                    let j = choose|j: int| 0 <= j < r@.len() && r@[j] == d;
                    if j == r@.len() - 1 {
                        assert(false);
                    }
                    assert(old_r[j] == d);
                }
                if old_r.contains(d) && !found {
                    let j = choose|j: int| 0 <= j < old_r.len() && old_r[j] == d;
                    assert(r@[j] == d);
                }
            } else {
                if r@.contains(c) {
                    let j = choose|j: int| 0 <= j < r@.len() && r@[j] == c;
                    if found {
                        assert(old_r[j] < c);
                    }
                }
                if !basis@.contains(c) {
                    assert(!found);
                }
            }
        }
        c += 1;
    }
    r
}

fn copy_of(s: &[usize]) -> (r: Vec<usize>)
    ensures
        r@ == s@,
{
    let mut r: Vec<usize> = Vec::new();
    let mut i: usize = 0;
    while i < s.len()
        invariant
            i <= s@.len(),
            r@ == s@.take(i as int),
        decreases s@.len() - i,
    {
        r.push(s[i]);
        i += 1;
        assert(r@ =~= s@.take(i as int));
    }
    assert(s@.take(s@.len() as int) =~= s@);
    r
}

/// `is_feasible` was asked about the column set `c` and answered no.
pub open spec fn rejected<F: Fn(&[usize]) -> bool>(is_feasible: F, c: Seq<usize>) -> bool {
    exists|s: &[usize]| s@ == c && is_feasible.ensures((s,), false)
}

/// Tries the `basis_size`-subsets of `0..n_cols` in lexicographic order and
/// returns the first one that `is_feasible` accepts, with its complement.
/// Fails with `BigTask`, trying nothing, when there are more than
/// `MAX_COMBINATIONS` subsets, and with `NoBaseSolution` when none is accepted.
pub fn find_basis<F: Fn(&[usize]) -> bool>(n_cols: usize, basis_size: usize, is_feasible: F) -> (r:
    Result<BasisSolution, BasisError>)
    requires
        forall|c: &[usize]| is_feasible.requires((c,)),
    ensures
        (r == Err::<BasisSolution, BasisError>(BasisError::BigTask)) <==> (basis_size <= n_cols
            && binom(n_cols as nat, basis_size as nat) > MAX_COMBINATIONS),
        r is Ok ==> {
            let b = r->Ok_0.basis_cols@;
            &&& r->Ok_0.partitions(n_cols as nat, basis_size as nat)
            &&& exists|c: &[usize]| c@ == b && is_feasible.ensures((c,), true)
            &&& forall|c: Seq<usize>|
                is_combination(c, n_cols as nat, basis_size as nat) && lex_lt(c, b) ==> rejected(
                    is_feasible,
                    c,
                )
        },
        r == Err::<BasisSolution, BasisError>(BasisError::NoBaseSolution) ==> basis_size > n_cols
            || forall|c: Seq<usize>|
            is_combination(c, n_cols as nat, basis_size as nat) ==> rejected(is_feasible, c),
        basis_size > n_cols ==> r == Err::<BasisSolution, BasisError>(BasisError::NoBaseSolution),
{
    if basis_size > n_cols {
        return Err(BasisError::NoBaseSolution);
    }
    let mut combinator = Combinator::new(n_cols, basis_size);
    let len = combinator.sequence_len();
    if len > MAX_COMBINATIONS {
        return Err(BasisError::BigTask);
    }
    let ghost n = n_cols as nat;
    let ghost k = basis_size as nat;
    assert forall|c: Seq<usize>| is_combination(c, n, k) implies !lex_lt(
        c,
        combinator.current(),
    ) by {
        lemma_first_is_least(c, n, k);
    }
    loop
        invariant
            basis_size <= n_cols,
            n == n_cols,
            k == basis_size,
            combinator.wf(),
            combinator.spec_n() == n,
            combinator.spec_k() == k,
            is_combination(combinator.current(), n, k),
            combinator.at_start() ==> combinator.current() == first_combination(k),
            forall|c: &[usize]| is_feasible.requires((c,)),
            binom(n, k) <= MAX_COMBINATIONS,
            forall|c: Seq<usize>|
                is_combination(c, n, k) && (lex_lt(c, combinator.current()) || (
                !combinator.at_start() && c == combinator.current())) ==> rejected(is_feasible, c),
        decreases power(n, k) - encode(combinator.current(), n) + if combinator.at_start() {
            1int
        } else {
            0int
        },
    {
        let ghost s = combinator.current();
        let ghost was_start = combinator.at_start();
        proof {
            lemma_encode_bound(s, n);
        }
        match combinator.next() {
            None => {
                proof {
                    assert forall|c: Seq<usize>| is_combination(c, n, k) implies rejected(
                        is_feasible,
                        c,
                    ) by {
                        lemma_next_is_adjacent(s, c, n);
                    }
                }
                return Err(BasisError::NoBaseSolution);
            },
            Some(cols) => {
                let ghost t = cols@;
                proof {
                    if !was_start {
                        lemma_next_is_later(s, n);
                    }
                    lemma_encode_bound(t, n);
                    // whatever comes before `t` has been asked about
                    assert forall|c: Seq<usize>| is_combination(c, n, k) && lex_lt(c, t) implies (
                    c == s && !was_start) || rejected(is_feasible, c) by {
                        if was_start {
                            lemma_first_is_least(c, n, k);
                        } else {
                            lemma_next_is_adjacent(s, c, n);
                        }
                    }
                }
                if is_feasible(cols) {
                    let non_basis_cols = complement_of(cols, n_cols);
                    let basis_cols = copy_of(cols);
                    return Ok(BasisSolution { basis_cols, non_basis_cols });
                }
                assert(rejected(is_feasible, t));
            },
        }
    }
}

} // verus!
