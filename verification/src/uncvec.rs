//! A list of values that share one uncertainty, kept as one.
use crate::abunc::AbUnc;
use crate::model::{product, quotient};
use crate::relunc::RelUnc;
use crate::scalar::Scalar;
use vstd::prelude::*;

verus! {

/// The form in which an uncertainty is held.
#[derive(Clone, Copy, Debug, PartialEq, Eq, Structural)]
pub enum UncertaintyType {
    Absolute,
    Relative,
}

/// Values that share one uncertainty: a margin if `ty` is absolute, a
/// fraction of each value if it is relative.
pub struct UncVec {
    pub vals: Vec<Scalar>,
    pub unc: Scalar,
    pub ty: UncertaintyType,
}

impl UncVec {
    /// Values that share the absolute uncertainty `unc`.
    pub fn ab(vals: Vec<Scalar>, unc: Scalar) -> (r: Self)
        ensures
            r.vals == vals,
            r.unc == unc,
            r.ty == UncertaintyType::Absolute,
    {
        UncVec { vals, unc, ty: UncertaintyType::Absolute }
    }

    /// Values that share the relative uncertainty `unc`.
    pub fn rel(vals: Vec<Scalar>, unc: Scalar) -> (r: Self)
        ensures
            r.vals == vals,
            r.unc == unc,
            r.ty == UncertaintyType::Relative,
    {
        UncVec { vals, unc, ty: UncertaintyType::Relative }
    }

    /// The margin that the value `val` has under the shared uncertainty.
    pub open spec fn margin_of(self, val: Scalar) -> Option<real> {
        match self.ty {
            UncertaintyType::Absolute => self.unc@,
            UncertaintyType::Relative => product(self.unc@, val@),
        }
    }

    /// The fraction that the value `val` has under the shared uncertainty.
    pub open spec fn fraction_of(self, val: Scalar) -> Option<real> {
        match self.ty {
            UncertaintyType::Absolute => quotient(self.unc@, val@),
            UncertaintyType::Relative => self.unc@,
        }
    }

    /// The values in their order, each with its uncertainty as a margin.
    pub fn as_ab(self) -> (r: Vec<AbUnc>)
        ensures
            r@.len() == self.vals@.len(),
            forall|i: int|
                0 <= i < self.vals@.len() ==> (#[trigger] r@[i]).val == self.vals@[i] && r@[i].unc@
                    == self.margin_of(self.vals@[i]),
    {
        let mut out: Vec<AbUnc> = Vec::new();
        let mut i: usize = 0;
        while i < self.vals.len()
            invariant
                i <= self.vals@.len(),
                out@.len() == i,
                forall|j: int|
                    0 <= j < i ==> (#[trigger] out@[j]).val == self.vals@[j] && out@[j].unc@
                        == self.margin_of(self.vals@[j]),
            decreases self.vals@.len() - i,
        {
            let val: Scalar = self.vals[i];
            let unc: Scalar = match self.ty {
                UncertaintyType::Absolute => self.unc,
                UncertaintyType::Relative => self.unc.times(val),
            };
            out.push(AbUnc::new(val, unc));
            i = i + 1;
        }
        out
    }

    /// The values in their order, each with its uncertainty as a fraction.
    pub fn as_rel(self) -> (r: Vec<RelUnc>)
        ensures
            r@.len() == self.vals@.len(),
            forall|i: int|
                0 <= i < self.vals@.len() ==> (#[trigger] r@[i]).val == self.vals@[i] && r@[i].unc@
                    == self.fraction_of(self.vals@[i]),
    {
        let mut out: Vec<RelUnc> = Vec::new();
        let mut i: usize = 0;
        while i < self.vals.len()
            invariant
                i <= self.vals@.len(),
                out@.len() == i,
                forall|j: int|
                    0 <= j < i ==> (#[trigger] out@[j]).val == self.vals@[j] && out@[j].unc@
                        == self.fraction_of(self.vals@[j]),
            decreases self.vals@.len() - i,
        {
            let val: Scalar = self.vals[i];
            let unc: Scalar = match self.ty {
                UncertaintyType::Relative => self.unc,
                UncertaintyType::Absolute => self.unc.over(val),
            };
            out.push(RelUnc::new(val, unc));
            i = i + 1;
        }
        out
    }
}

} // verus!
