//! Addition of values with an absolute uncertainty.
use crate::abunc::AbUnc;
use crate::model::sum;
use crate::scalar::Scalar;
use vstd::prelude::*;

verus! {

impl core::ops::Add<AbUnc> for AbUnc {
    type Output = AbUnc;

    /// The values add, and so do the uncertainties.
    fn add(self, other: AbUnc) -> (r: AbUnc)
        ensures
            r.val@ == sum(self.val@, other.val@),
            r.unc@ == sum(self.unc@, other.unc@),
    {
        AbUnc::new(self.val.plus(other.val), self.unc.plus(other.unc))
    }
}

impl vstd::std_specs::ops::AddSpecImpl<AbUnc> for AbUnc {
    open spec fn obeys_add_spec() -> bool {
        true
    }

    open spec fn add_req(self, other: AbUnc) -> bool {
        true
    }

    open spec fn add_spec(self, other: AbUnc) -> AbUnc {
        AbUnc {
            val: Scalar::of_model(sum(self.val@, other.val@)),
            unc: Scalar::of_model(sum(self.unc@, other.unc@)),
        }
    }
}

impl core::ops::Add<Scalar> for AbUnc {
    type Output = AbUnc;

    /// The scalar is added to the value; it adds nothing to the uncertainty.
    fn add(self, other: Scalar) -> (r: AbUnc)
        ensures
            r.val@ == sum(self.val@, other@),
            r.unc == self.unc,
    {
        let r = self + AbUnc::from(other);
        proof {
            use_type_invariant(&self.unc);
            use_type_invariant(&r.unc);
            self.unc.lemma_zero_neutral();
            r.unc.lemma_view_injective(self.unc);
        }
        r
    }
}

impl vstd::std_specs::ops::AddSpecImpl<Scalar> for AbUnc {
    open spec fn obeys_add_spec() -> bool {
        true
    }

    open spec fn add_req(self, other: Scalar) -> bool {
        true
    }

    open spec fn add_spec(self, other: Scalar) -> AbUnc {
        AbUnc { val: Scalar::of_model(sum(self.val@, other@)), unc: self.unc }
    }
}

impl core::ops::Add<AbUnc> for Scalar {
    type Output = AbUnc;

    /// The scalar is added to the value; it adds nothing to the uncertainty.
    fn add(self, other: AbUnc) -> (r: AbUnc)
        ensures
            r.val@ == sum(other.val@, self@),
            r.unc == other.unc,
    {
        let r = other + AbUnc::from(self);
        proof {
            use_type_invariant(&other.unc);
            use_type_invariant(&r.unc);
            other.unc.lemma_zero_neutral();
            r.unc.lemma_view_injective(other.unc);
        }
        r
    }
}

impl vstd::std_specs::ops::AddSpecImpl<AbUnc> for Scalar {
    open spec fn obeys_add_spec() -> bool {
        true
    }

    open spec fn add_req(self, other: AbUnc) -> bool {
        true
    }

    open spec fn add_spec(self, other: AbUnc) -> AbUnc {
        AbUnc { val: Scalar::of_model(sum(other.val@, self@)), unc: other.unc }
    }
}

} // verus!
