//! The four macronutrients, per-nutrient deficit flags, and the style
//! classes under which each nutrient is shown.
use vstd::prelude::*;
use crate::simplex::FloatKey;

verus! {

/// A macronutrient, used to pick one of four per-nutrient fields.
#[derive(Debug, Clone, Copy, PartialEq, Eq, Structural)]
pub enum ElemName {
    Nitrogen,
    Phosphorus,
    Potassium,
    Magnesium,
}

/// For each nutrient, whether the blend lacks it.
#[derive(Debug, Clone, Copy, PartialEq, Eq, Structural)]
#[allow(non_snake_case)]
pub struct Deficites {
    pub N: bool,
    pub P: bool,
    pub K: bool,
    pub Mg: bool,
}

impl Deficites {
    pub open spec fn spec_get(self, e: ElemName) -> bool {
        match e {
            ElemName::Nitrogen => self.N,
            ElemName::Phosphorus => self.P,
            ElemName::Potassium => self.K,
            ElemName::Magnesium => self.Mg,
        }
    }

    /// Some nutrient is lacking.
    pub fn any(&self) -> (r: bool)
        ensures
            r == (self.N || self.P || self.K || self.Mg),
            r == exists|e: ElemName| self.spec_get(e),
    {
        proof {
            if self.N {
                assert(self.spec_get(ElemName::Nitrogen));
            }
            if self.P {
                assert(self.spec_get(ElemName::Phosphorus));
            }
            if self.K {
                assert(self.spec_get(ElemName::Potassium));
            }
            if self.Mg {
                assert(self.spec_get(ElemName::Magnesium));
            }
        }
        self.N || self.P || self.K || self.Mg
    }

    /// The verdict of a probe in which each nutrient could also come from a
    /// phantom product carrying only that nutrient: `contributions` holds the
    /// masses of N, P, K and Mg the phantoms supplied, and a nutrient is
    /// lacking when its mass is positive. A probe that found no solution
    /// (`None`) reports nothing as lacking.
    pub fn from_phantom_contributions(contributions: Option<(FloatKey, FloatKey, FloatKey, FloatKey)>) -> (r:
        Deficites)
        ensures
            contributions is None ==> !r.N && !r.P && !r.K && !r.Mg,
            contributions matches Some((n, p, k, mg)) ==> r.N == n.is_positive() && r.P
                == p.is_positive() && r.K == k.is_positive() && r.Mg == mg.is_positive(),
    {
        match contributions {
            None => Deficites { N: false, P: false, K: false, Mg: false },
            Some((n, p, k, mg)) => Deficites {
                N: is_positive(n),
                P: is_positive(p),
                K: is_positive(k),
                Mg: is_positive(mg),
            },
        }
    }

    pub fn get(&self, e: ElemName) -> (r: bool)
        ensures
            r == self.spec_get(e),
    {
        match e {
            ElemName::Nitrogen => self.N,
            ElemName::Phosphorus => self.P,
            ElemName::Potassium => self.K,
            ElemName::Magnesium => self.Mg,
        }
    }
}

fn is_positive(x: FloatKey) -> (r: bool)
    ensures
        r == x.is_positive(),
{
    match x {
        FloatKey::Ordered(k) => k > 0,
        FloatKey::NaN => false,
    }
}

/// The style class of a nutrient's figures.
pub fn nutrient_css_class(element: ElemName) -> (r: &'static str)
    ensures
        element == ElemName::Nitrogen ==> r@ == "nutrient-N"@,
        element == ElemName::Phosphorus ==> r@ == "nutrient-P"@,
        element == ElemName::Potassium ==> r@ == "nutrient-K"@,
        element == ElemName::Magnesium ==> r@ == "nutrient-Mg"@,
{
    match element {
        ElemName::Nitrogen => "nutrient-N",
        ElemName::Phosphorus => "nutrient-P",
        ElemName::Potassium => "nutrient-K",
        ElemName::Magnesium => "nutrient-Mg",
    }
}

/// The style class of a nutrient's input fields.
pub fn nutrient_input_css_class(element: ElemName) -> (r: &'static str)
    ensures
        element == ElemName::Nitrogen ==> r@ == "nutrient-N-input"@,
        element == ElemName::Phosphorus ==> r@ == "nutrient-P-input"@,
        element == ElemName::Potassium ==> r@ == "nutrient-K-input"@,
        element == ElemName::Magnesium ==> r@ == "nutrient-Mg-input"@,
{
    match element {
        ElemName::Nitrogen => "nutrient-N-input",
        ElemName::Phosphorus => "nutrient-P-input",
        ElemName::Potassium => "nutrient-K-input",
        ElemName::Magnesium => "nutrient-Mg-input",
    }
}

/// Hands out distinct identifiers for products, counting up from a start.
#[derive(Debug)]
pub struct IdGenerator {
    next: usize,
}

impl IdGenerator {
    pub closed spec fn spec_next(&self) -> nat {
        self.next as nat
    }

    pub fn new(first: usize) -> (r: Self)
        ensures
            r.spec_next() == first,
    {
        IdGenerator { next: first }
    }

    /// The identifier the next call of `new_id` returns.
    pub fn peek(&self) -> (r: usize)
        ensures
            r == self.spec_next(),
    {
        self.next
    }

    /// A fresh identifier: each call returns one more than the call before.
    pub fn new_id(&mut self) -> (r: usize)
        requires
            old(self).spec_next() < usize::MAX,
        ensures
            r == old(self).spec_next(),
            final(self).spec_next() == old(self).spec_next() + 1,
    {
        let id = self.next;
        self.next = self.next + 1;
        id
    }
}

} // verus!
