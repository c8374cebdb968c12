//! Values with an absolute uncertainty.
use crate::model::quotient;
use crate::relunc::RelUnc;
use crate::scalar::Scalar;
use crate::unc::Uncertainty;
use vstd::prelude::*;

verus! {

/// A value with an absolute uncertainty: a margin in the units of the value.
/// It stands for the interval from `val - unc` to `val + unc`.
///
/// The margin is meant to be non-negative. A negative one is accepted as it
/// is; it swaps the two ends of the interval.
#[derive(Clone, Copy, Debug, PartialEq, Eq, Structural)]
pub struct AbUnc {
    pub val: Scalar,
    pub unc: Scalar,
}

impl AbUnc {
    /// Create an absolute uncertainty. The first parameter is the base value,
    /// the second the absolute uncertainty in that value.
    pub fn new(val: Scalar, unc: Scalar) -> (r: AbUnc)
        ensures
            r.val == val,
            r.unc == unc,
    {
        AbUnc { val, unc }
    }
}

impl Uncertainty for AbUnc {
    open spec fn value(&self) -> Option<real> {
        self.val@
    }

    open spec fn uncertainty(&self) -> Option<real> {
        self.unc@
    }

    open spec fn margin(&self) -> Option<real> {
        self.unc@
    }

    open spec fn fraction(&self) -> Option<real> {
        quotient(self.unc@, self.val@)
    }

    /// The value itself.
    fn to_ab(self) -> (r: AbUnc)
        ensures
            r == self,
    {
        self
    }

    /// The same value with its margin as a fraction of the value. The
    /// fraction is undefined where the value is zero.
    fn to_rel(self) -> (r: RelUnc) {
        RelUnc::new(self.val, self.unc.over(self.val))
    }

    fn val(&self) -> (r: Scalar)
        ensures
            r == self.val,
    {
        self.val
    }

    fn unc(&self) -> (r: Scalar)
        ensures
            r == self.unc,
    {
        self.unc
    }
}

} // verus!
