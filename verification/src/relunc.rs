//! Values with a relative uncertainty.
use crate::abunc::AbUnc;
use crate::model::{lemma_ratio_whole, lemma_representable, product};
use crate::roots::power_real;
use crate::scalar::Scalar;
use crate::unc::Uncertainty;
use vstd::prelude::*;

verus! {

/// A value with a relative uncertainty: a fraction of the value, so that
/// `0.1` stands for ten percent.
#[derive(Clone, Copy, Debug, PartialEq, Eq, Structural)]
pub struct RelUnc {
    pub val: Scalar,
    pub unc: Scalar,
}

impl RelUnc {
    /// Create a relative uncertainty. The first parameter is the base value,
    /// the second the relative uncertainty in the value, as a fraction.
    pub fn new(val: Scalar, unc: Scalar) -> (r: RelUnc)
        ensures
            r.val == val,
            r.unc == unc,
    {
        RelUnc { val, unc }
    }

    /// Raise a relative uncertainty to an integer power: the value is
    /// raised to the power, the fraction is multiplied by it.
    pub fn powi(self, power: i32) -> (r: RelUnc)
        ensures
            r.val@ == crate::model::power(self.val@, power as int),
            r.unc@ == product(self.unc@, Some(power as real)),
    {
        proof {
            lemma_ratio_whole(power as int);
            lemma_representable(power as int, 1);
        }
        RelUnc { val: self.val.powi(power), unc: self.unc.times(Scalar::from_int(power as i64)) }
    }

    /// Raise a relative uncertainty to a power that is a scalar: the value
    /// is raised to the power, the fraction is multiplied by it.
    ///
    /// The value is exact or undefined: with a power that is not whole it is
    /// defined only where the root it asks for is exact.
    pub fn powf(self, power: Scalar) -> (r: RelUnc)
        ensures
            r.val@ == power_real(self.val@, power@),
            r.unc@ == product(self.unc@, power@),
    {
        RelUnc { val: self.val.powf(power), unc: self.unc.times(power) }
    }
}

impl Uncertainty for RelUnc {
    open spec fn value(&self) -> Option<real> {
        self.val@
    }

    open spec fn uncertainty(&self) -> Option<real> {
        self.unc@
    }

    open spec fn margin(&self) -> Option<real> {
        product(self.unc@, self.val@)
    }

    open spec fn fraction(&self) -> Option<real> {
        self.unc@
    }

    /// The same value with its fraction as a margin in the units of the
    /// value.
    fn to_ab(self) -> (r: AbUnc) {
        AbUnc::new(self.val, self.unc.times(self.val))
    }

    /// The value itself.
    fn to_rel(self) -> (r: RelUnc)
        ensures
            r == self,
    {
        self
    }

    fn val(&self) -> (r: Scalar)
        ensures
            r == self.val,
    {
        self.val
    }

    fn unc(&self) -> (r: Scalar)
        ensures
            r == self.unc,
    {
        self.unc
    }
}

} // verus!
