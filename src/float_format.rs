//! Tidy display of a number already written with a fixed count of decimals:
//! trailing zeros after the point, and a point left bare, are dropped.
use vstd::prelude::*;
use vstd::string::StrSliceExecFns;

verus! {

/// The position of the first `'.'` in `s` at or after `i`, or `-1`.
pub open spec fn dot_from(s: Seq<char>, i: int) -> int
    decreases s.len() - i,
{
    if i < 0 || i >= s.len() {
        -1
    } else if s[i] == '.' {
        i
    } else {
        dot_from(s, i + 1)
    }
}

pub open spec fn is_filler(c: char) -> bool {
    c == '.' || c == '0'
}

/// Where `s[..e]` ends once its trailing `'.'`s and `'0'`s past position `d`
/// are dropped.
pub open spec fn trimmed_end(s: Seq<char>, d: int, e: int) -> int
    decreases e - d,
{
    if e > d && e > 0 && is_filler(s[e - 1]) {
        trimmed_end(s, d, e - 1)
    } else {
        e
    }
}

/// `s` without the zeros, and the point, that end its fractional part; `s`
/// itself when it has no point.
pub open spec fn trimmed(s: Seq<char>) -> Seq<char> {
    let d = dot_from(s, 0);
    if d < 0 {
        s
    } else {
        s.subrange(0, trimmed_end(s, d, s.len() as int))
    }
}

proof fn lemma_dot_from_bounds(s: Seq<char>, i: int)
    requires
        0 <= i,
    ensures
        dot_from(s, i) == -1 || (i <= dot_from(s, i) < s.len() && s[dot_from(s, i)] == '.'),
    decreases s.len() - i,
{
    if 0 <= i < s.len() && s[i] != '.' {
        lemma_dot_from_bounds(s, i + 1);
    }
}

proof fn lemma_trimmed_end_bounds(s: Seq<char>, d: int, e: int)
    requires
        0 <= d <= e <= s.len(),
    ensures
        d <= trimmed_end(s, d, e) <= e,
    decreases e - d,
{
    if e > d && e > 0 && is_filler(s[e - 1]) {
        lemma_trimmed_end_bounds(s, d, e - 1);
    }
}

/// A decimal number as text, shown without superfluous zeros.
#[derive(Debug)]
pub struct FloatFormat {
    value: String,
}

impl FloatFormat {
    pub closed spec fn spec_value(&self) -> Seq<char> {
        self.value@
    }

    /// Wraps a number written with a fixed count of decimals.
    pub fn from_text(value: String) -> (r: Self)
        ensures
            r.spec_value() == value@,
    {
        FloatFormat { value }
    }

    /// The text without the zeros, and the point, that end its fractional part.
    pub fn trim(&self) -> (r: &str)
        ensures
            r@ == trimmed(self.spec_value()),
    {
        let s = self.value.as_str();
        let len = s.unicode_len();
        let ghost v = s@;
        let mut d: usize = 0;
        while d < len
            invariant
                len == v.len(),
                s@ == v,
                d <= len,
                dot_from(v, 0) == dot_from(v, d as int),
            ensures
                d <= len,
                dot_from(v, 0) == dot_from(v, d as int),
                d == len || v[d as int] == '.',
            decreases len - d,
        {
            if s.get_char(d) == '.' {
                break;
            }
            d += 1;
        }
        if d == len {
            return s;
        }
        proof {
            lemma_dot_from_bounds(v, 0);
        }
        let mut e: usize = len;
        while e > d && is_filler_char(s.get_char(e - 1))
            invariant
                len == v.len(),
                s@ == v,
                d < len,
                d <= e <= len,
                trimmed_end(v, d as int, len as int) == trimmed_end(v, d as int, e as int),
            decreases e - d,
        {
            e -= 1;
        }
        assert(trimmed_end(v, d as int, e as int) == e);
        assert(dot_from(v, d as int) == d);
        s.substring_char(0, e)
    }
}

fn is_filler_char(c: char) -> (r: bool)
    ensures
        r == is_filler(c),
{
    c == '.' || c == '0'
}

} // verus!
