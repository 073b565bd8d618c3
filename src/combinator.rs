//! Lexicographic enumeration of the size-`k` subsets of `{0, ..., n - 1}`.
use vstd::prelude::*;

verus! {

/// The binomial coefficient, by Pascal's rule.
pub open spec fn binom(n: nat, k: nat) -> nat
    decreases n,
{
    if k == 0 {
        1
    } else if n == 0 {
        0
    } else {
        binom((n - 1) as nat, (k - 1) as nat) + binom((n - 1) as nat, k)
    }
}

/// `x`, capped at the largest `usize`.
pub open spec fn saturated(x: nat) -> nat {
    if x > usize::MAX {
        usize::MAX as nat
    } else {
        x
    }
}

/// `s` lists `k` distinct indices below `n` in ascending order.
pub open spec fn is_combination(s: Seq<usize>, n: nat, k: nat) -> bool {
    &&& s.len() == k
    &&& forall|i: int, j: int| 0 <= i < j < s.len() ==> s[i] < s[j]
    &&& forall|i: int| 0 <= i < s.len() ==> s[i] < n
}

/// The smallest combination: `{0, 1, ..., k - 1}`.
pub open spec fn first_combination(k: nat) -> Seq<usize> {
    Seq::new(k, |i: int| i as usize)
}

/// Position `i` of `s` may still be raised: it is below the largest value
/// that a position `i` can hold in a size-`s.len()` subset of `{0, ..., n - 1}`.
pub open spec fn can_raise(s: Seq<usize>, n: nat, i: int) -> bool {
    s[i] < n - s.len() + i
}

/// The largest position below `i` that may be raised, or `-1` if none may.
pub open spec fn raise_pos(s: Seq<usize>, n: nat, i: int) -> int
    decreases i,
{
    if i <= 0 {
        -1
    } else if can_raise(s, n, i - 1) {
        i - 1
    } else {
        raise_pos(s, n, i - 1)
    }
}

/// `s` with position `p` raised by one and every later position set to the
/// smallest value that keeps the sequence increasing.
pub open spec fn raised(s: Seq<usize>, p: int) -> Seq<usize> {
    Seq::new(s.len(), |j: int| if j < p { s[j] } else { (s[p] + 1 + (j - p)) as usize })
}

/// The lexicographic successor of combination `s`, or `None` after the last one.
pub open spec fn next_combination(s: Seq<usize>, n: nat) -> Option<Seq<usize>> {
    let p = raise_pos(s, n, s.len() as int);
    if p < 0 {
        None
    } else {
        Some(raised(s, p))
    }
}

/// `a` comes before `b` in lexicographic order (both of one length).
pub open spec fn lex_lt(a: Seq<usize>, b: Seq<usize>) -> bool {
    exists|i: int| lex_lt_at(a, b, i)
}

/// `a` and `b` agree before position `i` and `a[i] < b[i]`.
pub open spec fn lex_lt_at(a: Seq<usize>, b: Seq<usize>, i: int) -> bool {
    &&& a.len() == b.len()
    &&& 0 <= i < a.len()
    &&& forall|j: int| 0 <= j < i ==> a[j] == b[j]
    &&& a[i] < b[i]
}

/// `s` read as a number in base `n`, most significant position first.
pub open spec fn encode(s: Seq<usize>, n: nat) -> nat
    decreases s.len(),
{
    if s.len() == 0 {
        0
    } else {
        encode(s.drop_last(), n) * n + s.last() as nat
    }
}

pub open spec fn power(n: nat, e: nat) -> nat
    decreases e,
{
    if e == 0 {
        1
    } else {
        power(n, (e - 1) as nat) * n
    }
}

pub proof fn lemma_encode_bound(s: Seq<usize>, n: nat)
    requires
        forall|i: int| 0 <= i < s.len() ==> s[i] < n,
    ensures
        encode(s, n) < power(n, s.len()),
    decreases s.len(),
{
    if s.len() > 0 {
        let t = s.drop_last();
        lemma_encode_bound(t, n);
        let e = encode(t, n);
        let p = power(n, t.len());
        let l = s.last() as nat;
        assert(e * n + l < p * n) by (nonlinear_arith)
            requires
                e < p,
                l < n,
        ;
    }
}

proof fn lemma_encode_monotone(a: Seq<usize>, b: Seq<usize>, n: nat, i: int)
    requires
        lex_lt_at(a, b, i),
        forall|j: int| 0 <= j < a.len() ==> a[j] < n,
        forall|j: int| 0 <= j < b.len() ==> b[j] < n,
    ensures
        encode(a, n) < encode(b, n),
    decreases a.len(),
{
    let a1 = a.drop_last();
    let b1 = b.drop_last();
    if i == a.len() - 1 {
        assert(a1 =~= b1);
    } else {
        assert(lex_lt_at(a1, b1, i));
        lemma_encode_monotone(a1, b1, n, i);
        let ea = encode(a1, n);
        let eb = encode(b1, n);
        let la = a.last() as nat;
        let lb = b.last() as nat;
        assert(ea * n + la < eb * n + lb) by (nonlinear_arith)
            requires
                ea < eb,
                la < n,
        ;
    }
}

/// In a combination, position `j` holds at most `n - k + j`.
proof fn lemma_combination_upper(s: Seq<usize>, n: nat, j: int)
    requires
        is_combination(s, n, s.len()),
        0 <= j < s.len(),
    ensures
        s[j] <= n - s.len() + j,
    decreases s.len() - j,
{
    if j < s.len() - 1 {
        lemma_combination_upper(s, n, j + 1);
    }
}

/// In a combination, values grow by at least one per position.
proof fn lemma_combination_gap(s: Seq<usize>, n: nat, p: int, j: int)
    requires
        is_combination(s, n, s.len()),
        0 <= p <= j < s.len(),
    ensures
        s[j] >= s[p] + (j - p),
    decreases j - p,
{
    if p < j {
        lemma_combination_gap(s, n, p, j - 1);
    }
}

/// The first position at or after `i` where `a` and `b` differ, or their length.
spec fn first_diff(a: Seq<usize>, b: Seq<usize>, i: int) -> int
    decreases a.len() - i,
{
    if i < 0 || i >= a.len() {
        a.len() as int
    } else if a[i] != b[i] {
        i
    } else {
        first_diff(a, b, i + 1)
    }
}

proof fn lemma_first_diff(a: Seq<usize>, b: Seq<usize>, i: int)
    requires
        a.len() == b.len(),
        0 <= i <= a.len(),
    ensures
        i <= first_diff(a, b, i) <= a.len(),
        forall|j: int| i <= j < first_diff(a, b, i) ==> a[j] == b[j],
        first_diff(a, b, i) < a.len() ==> a[first_diff(a, b, i)] != b[first_diff(a, b, i)],
    decreases a.len() - i,
{
    if i < a.len() && a[i] == b[i] {
        lemma_first_diff(a, b, i + 1);
    }
}

/// A sequence that agrees with `s` before `p` and lies at or below it from
/// `p` on is `s` itself or comes before it.
proof fn lemma_below_from(c: Seq<usize>, s: Seq<usize>, p: int)
    requires
        c.len() == s.len(),
        0 <= p <= s.len(),
        forall|j: int| 0 <= j < p ==> c[j] == s[j],
        forall|j: int| p <= j < s.len() ==> c[j] <= s[j],
    ensures
        c == s || lex_lt(c, s),
{
    lemma_first_diff(c, s, 0);
    let d = first_diff(c, s, 0);
    if d == c.len() {
        assert(c =~= s);
    } else {
        assert(lex_lt_at(c, s, d));
    }
}

/// No combination comes before the first one.
pub proof fn lemma_first_is_least(c: Seq<usize>, n: nat, k: nat)
    requires
        is_combination(c, n, k),
    ensures
        !lex_lt(c, first_combination(k)),
{
    if lex_lt(c, first_combination(k)) {
        let i = choose|i: int| lex_lt_at(c, first_combination(k), i);
        lemma_combination_gap(c, n, 0, i);
    }
}

/// The successor leaves out no combination: whatever comes before it is the
/// current combination or comes before that; and after the last combination
/// no combination is left.
pub proof fn lemma_next_is_adjacent(s: Seq<usize>, c: Seq<usize>, n: nat)
    requires
        is_combination(s, n, s.len()),
        is_combination(c, n, s.len()),
    ensures
        next_combination(s, n) is None ==> c == s || lex_lt(c, s),
        next_combination(s, n) is Some && lex_lt(c, next_combination(s, n)->Some_0) ==> c == s
            || lex_lt(c, s),
{
    let k = s.len();
    let p = raise_pos(s, n, k as int);
    lemma_raise_pos(s, n, k as int);
    assert forall|j: int| p < j < k implies c[j] <= s[j] by {
        lemma_combination_upper(c, n, j);
        assert(!can_raise(s, n, j));
    }
    if p < 0 {
        lemma_below_from(c, s, 0);
    } else {
        let t = raised(s, p);
        if lex_lt(c, t) {
            let i = choose|i: int| lex_lt_at(c, t, i);
            if i < p {
                assert(lex_lt_at(c, s, i));
            } else if i == p {
                if c[p] < s[p] {
                    assert(lex_lt_at(c, s, p));
                } else {
                    lemma_below_from(c, s, p);
                }
            } else {
                lemma_combination_gap(c, n, p, i);
            }
        }
    }
}

proof fn lemma_raise_pos(s: Seq<usize>, n: nat, i: int)
    requires
        is_combination(s, n, s.len()),
        0 <= i <= s.len(),
    ensures
        -1 <= raise_pos(s, n, i) < i,
        raise_pos(s, n, i) >= 0 ==> can_raise(s, n, raise_pos(s, n, i)),
        forall|j: int| raise_pos(s, n, i) < j < i ==> !can_raise(s, n, j),
    decreases i,
{
    if i > 0 && !can_raise(s, n, i - 1) {
        lemma_raise_pos(s, n, i - 1);
    }
}

/// The successor is a combination and comes after the current one.
pub proof fn lemma_next_is_later(s: Seq<usize>, n: nat)
    requires
        n <= usize::MAX,
        is_combination(s, n, s.len()),
        next_combination(s, n) is Some,
    ensures
        is_combination(next_combination(s, n)->Some_0, n, s.len()),
        lex_lt(s, next_combination(s, n)->Some_0),
        encode(s, n) < encode(next_combination(s, n)->Some_0, n),
{
    let k = s.len();
    let p = raise_pos(s, n, k as int);
    lemma_raise_pos(s, n, k as int);
    let t = raised(s, p);
    assert(can_raise(s, n, p));
    assert(t[p] == s[p] + 1);
    assert(lex_lt_at(s, t, p));
    assert forall|j: int| 0 <= j < k implies t[j] < n by {
        if j >= p {
            assert(t[j] == s[p] + 1 + (j - p));
        }
    }
    assert forall|a: int, b: int| 0 <= a < b < k implies t[a] < t[b] by {
        if a < p && b >= p {
            lemma_combination_gap(s, n, a, p);
        }
    }
    lemma_encode_monotone(s, t, n, p);
}

/// Produces every size-`k` subset of `{0, ..., n - 1}` once, in ascending
/// lexicographic order.
pub struct Combinator {
    used: Vec<usize>,
    n: usize,
    k: usize,
    first_step: bool,
}

impl Combinator {
    pub closed spec fn wf(&self) -> bool {
        is_combination(self.used@, self.n as nat, self.k as nat)
    }

    pub closed spec fn spec_n(&self) -> nat {
        self.n as nat
    }

    pub closed spec fn spec_k(&self) -> nat {
        self.k as nat
    }

    /// The combination handed out last (or about to be handed out first).
    pub closed spec fn current(&self) -> Seq<usize> {
        self.used@
    }

    /// Nothing has been handed out yet.
    pub closed spec fn at_start(&self) -> bool {
        self.first_step
    }

    pub fn new(n: usize, k: usize) -> (r: Self)
        requires
            k <= n,
        ensures
            r.wf(),
            r.spec_n() == n,
            r.spec_k() == k,
            r.at_start(),
            r.current() == first_combination(k as nat),
    {
        let mut used: Vec<usize> = Vec::new();
        let mut i: usize = 0;
        while i < k
            invariant
                i <= k,
                used@ == first_combination(i as nat),
            decreases k - i,
        {
            used.push(i);
            i += 1;
            assert(used@ =~= first_combination(i as nat));
        }
        Combinator { used, n, k, first_step: true }
    }

    /// The number of combinations, `C(n, k)`, saturated at `usize::MAX`.
    pub fn sequence_len(&self) -> (r: usize)
        requires
            self.wf(),
        ensures
            r == saturated(binom(self.spec_n(), self.spec_k())),
    {
        let k = self.k;
        // row[j] holds C(m, j), saturated, for the current m
        let mut row: Vec<usize> = Vec::new();
        row.push(1);
        while row.len() <= k
            invariant
                1 <= row.len() <= k + 1,
                forall|j: int| 0 <= j < row.len() ==> row[j] == saturated(binom(0, j as nat)),
            decreases k + 1 - row.len(),
        {
            row.push(0);
        }
        let mut m: usize = 0;
        while m < self.n
            invariant
                m <= self.n,
                row.len() == k + 1,
                forall|j: int| 0 <= j <= k ==> row[j] == saturated(binom(m as nat, j as nat)),
            decreases self.n - m,
        {
            let mut next: Vec<usize> = Vec::new();
            next.push(1);
            while next.len() <= k
                invariant
                    1 <= next.len() <= k + 1,
                    row.len() == k + 1,
                    forall|j: int| 0 <= j <= k ==> row[j] == saturated(binom(m as nat, j as nat)),
                    forall|j: int|
                        0 <= j < next.len() ==> next[j] == saturated(
                            binom((m + 1) as nat, j as nat),
                        ),
                decreases k + 1 - next.len(),
            {
                let j = next.len();
                let v = row[j - 1].saturating_add(row[j]);
                assert(binom((m + 1) as nat, j as nat) == binom(m as nat, (j - 1) as nat) + binom(
                    m as nat,
                    j as nat,
                ));
                next.push(v);
            }
            row = next;
            m += 1;
        }
        row[k]
    }

    /// Hands out the next combination, or `None` once all have been handed out.
    pub fn next(&mut self) -> (r: Option<&[usize]>)
        requires
            old(self).wf(),
        ensures
            final(self).wf(),
            final(self).spec_n() == old(self).spec_n(),
            final(self).spec_k() == old(self).spec_k(),
            !final(self).at_start(),
            r.is_some() ==> is_combination(r.unwrap()@, old(self).spec_n(), old(self).spec_k()),
            old(self).at_start() ==> r.is_some() && r.unwrap()@ == old(self).current()
                && final(self).current() == old(self).current(),
            !old(self).at_start() ==> match next_combination(old(self).current(), old(self).spec_n()) {
                None => r.is_none() && final(self).current() == old(self).current(),
                Some(s) => r.is_some() && r.unwrap()@ == s && final(self).current() == s,
            },
    {
        if self.first_step {
            self.first_step = false;
            return Some(self.used.as_slice());
        }
        let k = self.k;
        let n = self.n;
        let ghost s = self.used@;
        let mut i: usize = k;
        while i > 0
            invariant
                i <= k,
                k == s.len(),
                self.used@ == s,
                self.n == n,
                self.k == k,
                n == old(self).n,
                k == old(self).k,
                s == old(self).used@,
                !old(self).first_step,
                is_combination(s, n as nat, k as nat),
                !self.first_step,
                raise_pos(s, n as nat, k as int) == raise_pos(s, n as nat, i as int),
                forall|j: int| i <= j < k ==> s[j] == n - k + j,
            decreases i,
        {
            i -= 1;
            let max_current = if i + 1 == k {
                n - 1
            } else {
                self.used[i + 1] - 1
            };
            if self.used[i] < max_current {
                assert(can_raise(s, n as nat, i as int));
                let p = i;
                assert(raise_pos(s, n as nat, (p + 1) as int) == p);
                self.used.set(p, self.used[p] + 1);
                let mut t: usize = p + 1;
                while t < k
                    invariant
                        p < t <= k,
                        p < k,
                        k == s.len(),
                        self.used@.len() == k,
                        self.n == n,
                        self.k == k,
                        n == old(self).n,
                        k == old(self).k,
                        s == old(self).used@,
                        !old(self).first_step,
                        raise_pos(s, n as nat, k as int) == p,
                        !self.first_step,
                        can_raise(s, n as nat, p as int),
                        forall|j: int| 0 <= j < t ==> self.used@[j] == raised(s, p as int)[j],
                    decreases k - t,
                {
                    assert(s[p as int] + 1 + (t - p) < n);
                    assert(raised(s, p as int)[t - 1] == s[p as int] + 1 + (t - 1 - p));
                    assert(self.used@[t - 1] + 1 == raised(s, p as int)[t as int]);
                    self.used.set(t, self.used[t - 1] + 1);
                    t += 1;
                }
                assert(self.used@ =~= raised(s, p as int));
                return Some(self.used.as_slice());
            }
            assert(!can_raise(s, n as nat, i as int));
        }
        None
    }
}

} // verus!
