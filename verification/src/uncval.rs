//! Constructors for uncertain values, by the form they make.
use crate::abunc::AbUnc;
use crate::relunc::RelUnc;
use crate::scalar::Scalar;
use vstd::prelude::*;

verus! {

/// A value with an absolute uncertainty.
pub type AbUncVal = AbUnc;

/// A value with a relative uncertainty.
pub type RelUncVal = RelUnc;

/// The two ways to make an uncertain value.
#[derive(Clone, Copy, Debug)]
pub struct UncVal;

impl UncVal {
    /// A value with an absolute uncertainty: `unc` is a margin in the units
    /// of `val`.
    pub fn ab(val: Scalar, unc: Scalar) -> (r: AbUncVal)
        ensures
            r.val == val,
            r.unc == unc,
    {
        AbUnc::new(val, unc)
    }

    /// A value with a relative uncertainty: `unc` is a fraction of `val`.
    pub fn rel(val: Scalar, unc: Scalar) -> (r: RelUncVal)
        ensures
            r.val == val,
            r.unc == unc,
    {
        RelUnc::new(val, unc)
    }
}

} // verus!
