//! Polynomials with rational coefficients, kept exact as an integer
//! polynomial over a common positive denominator.

use crate::poly::{coeff, Polynomial};
use vstd::prelude::*;

verus! {

/// What a rational polynomial is: `numerator / denominator`.
pub struct RationalView {
    pub numerator: Seq<int>,
    pub denominator: nat,
}

/// The polynomial `numerator / denominator`, with `denominator > 0`.
#[derive(Debug)]
pub struct RationalPolynomial {
    numerator: Polynomial,
    denominator: u128,
}

impl View for RationalPolynomial {
    type V = RationalView;

    closed spec fn view(&self) -> RationalView {
        RationalView { numerator: self.numerator@, denominator: self.denominator as nat }
    }
}

impl RationalPolynomial {
    #[verifier::type_invariant]
    closed spec fn inv(self) -> bool {
        self.denominator > 0
    }

    /// `numerator / denominator`.
    pub(crate) fn new(numerator: Polynomial, denominator: u128) -> (r: Self)
        requires
            denominator > 0,
        ensures
            r@.numerator == numerator@,
            r@.denominator == denominator,
    {
        RationalPolynomial { numerator, denominator }
    }

    /// The integer polynomial over the denominator.
    pub fn numerator(&self) -> (p: &Polynomial)
        ensures
            p@ == self@.numerator,
    {
        &self.numerator
    }

    /// The common denominator of every coefficient.
    pub fn denominator(&self) -> (d: u128)
        ensures
            d == self@.denominator,
            d > 0,
    {
        proof {
            use_type_invariant(self);
        }
        self.denominator
    }

    /// The coefficient of `t^k`, as a numerator and a denominator.
    pub fn coeff(&self, k: usize) -> (c: (i128, u128))
        ensures
            c.0 == coeff(self@.numerator, k as int),
            c.1 == self@.denominator,
            c.1 > 0,
    {
        (self.numerator.coeff(k), self.denominator())
    }
}

} // verus!
