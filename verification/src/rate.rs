//! Probabilities as exact fractions.
use vstd::prelude::*;

verus! {

/// A probability, held as a fraction between 0 and 1. A quarter is
/// `Rate::new(1, 4)`, or as well `Rate::new(25, 100)`.
#[derive(Debug, Clone, Copy)]
pub struct Rate {
    numer: u32,
    denom: u32,
}

impl Rate {
    /// A rate lies between 0 and 1.
    #[verifier::type_invariant]
    spec fn well_formed(self) -> bool {
        0 < self.denom && self.numer <= self.denom
    }

    /// The fraction's numerator.
    pub closed spec fn numerator(self) -> nat {
        self.numer as nat
    }

    /// The fraction's denominator.
    pub closed spec fn denominator(self) -> nat {
        self.denom as nat
    }

    /// The fraction `numer / denom`, where that is a probability: where the
    /// denominator is not 0 and the numerator is not above it.
    pub fn new(numer: u32, denom: u32) -> (rate: Option<Rate>)
        ensures
            rate is Some <==> 0 < denom && numer <= denom,
            rate matches Some(r) ==> r.numerator() == numer && r.denominator() == denom,
    {
        if 0 < denom && numer <= denom {
            Some(Rate { numer, denom })
        } else {
            None
        }
    }

    /// The numerator, which is not above the denominator.
    pub fn numer(&self) -> (n: u32)
        ensures
            n == self.numerator(),
            n <= self.denominator(),
    {
        proof {
            use_type_invariant(self);
        }
        self.numer
    }

    /// The denominator, which is not 0.
    pub fn denom(&self) -> (d: u32)
        ensures
            d == self.denominator(),
            d > 0,
    {
        proof {
            use_type_invariant(self);
        }
        self.denom
    }

    /// The share of `count` that the rate gives, rounded down.
    pub open spec fn share(self, count: nat) -> nat {
        count * self.numerator() / self.denominator()
    }
}

} // verus!
