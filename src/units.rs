//! Exact prices as ratios of two amounts.
use vstd::prelude::*;

verus! {

proof fn lemma_product_fits(a: u128, b: u128)
    requires
        a <= u64::MAX,
        b <= u64::MAX,
    ensures
        a * b <= u128::MAX,
{
    assert(a * b <= (u64::MAX as int) * (u64::MAX as int)) by (nonlinear_arith)
        requires
            a <= u64::MAX,
            b <= u64::MAX,
    ;
}

/// The ratio `numer / denom` of two amounts, compared exactly.
#[derive(Clone, Copy, Debug, PartialEq, Eq, Structural)]
pub struct Fraction {
    pub numer: u64,
    pub denom: u64,
}

impl Fraction {
    pub fn new(numer: u64, denom: u64) -> (r: Fraction)
        ensures
            r.numer == numer,
            r.denom == denom,
    {
        Fraction { numer, denom }
    }

    /// `self < other` as rationals with positive denominators.
    pub open spec fn spec_lt(self, other: Fraction) -> bool {
        (self.numer as int) * (other.denom as int) < (other.numer as int) * (self.denom as int)
    }

    pub fn lt(&self, other: &Fraction) -> (r: bool)
        ensures
            r == self.spec_lt(*other),
    {
        let (n1, d1, n2, d2) = (self.numer as u128, self.denom as u128, other.numer as u128, other.denom as u128);
        proof {
            lemma_product_fits(n1, d2);
            lemma_product_fits(n2, d1);
        }
        let a = n1 * d2;
        let b = n2 * d1;
        a < b
    }
}

} // verus!
