//! Many values with one uncertainty.
use crate::abunc::AbUnc;
use crate::relunc::RelUnc;
use crate::scalar::Scalar;
use vstd::prelude::*;

verus! {

/// Turns lists of values into lists of uncertain values.
pub struct UncVec;

impl UncVec {
    /// Gives every value of a list the same absolute uncertainty. The
    /// result has the values in their order.
    pub fn ab(vals: Vec<Scalar>, unc: Scalar) -> (r: Vec<AbUnc>)
        ensures
            r@.len() == vals@.len(),
            forall|i: int| 0 <= i < vals@.len() ==> #[trigger] r@[i] == (AbUnc { val: vals@[i], unc }),
    {
        let mut out: Vec<AbUnc> = Vec::new();
        let mut i: usize = 0;
        while i < vals.len()
            invariant
                i <= vals@.len(),
                out@.len() == i,
                forall|j: int| 0 <= j < i ==> #[trigger] out@[j] == (AbUnc { val: vals@[j], unc }),
            decreases vals@.len() - i,
        {
            out.push(AbUnc::new(vals[i], unc));
            i = i + 1;
        }
        out
    }

    /// Gives every value of a list the same relative uncertainty. The
    /// result has the values in their order.
    pub fn rel(vals: Vec<Scalar>, unc: Scalar) -> (r: Vec<RelUnc>)
        ensures
            r@.len() == vals@.len(),
            forall|i: int| 0 <= i < vals@.len() ==> #[trigger] r@[i] == (RelUnc { val: vals@[i], unc }),
    {
        let mut out: Vec<RelUnc> = Vec::new();
        let mut i: usize = 0;
        while i < vals.len()
            invariant
                i <= vals@.len(),
                out@.len() == i,
                forall|j: int| 0 <= j < i ==> #[trigger] out@[j] == (RelUnc { val: vals@[j], unc }),
            decreases vals@.len() - i,
        {
            out.push(RelUnc::new(vals[i], unc));
            i = i + 1;
        }
        out
    }
}

} // verus!
