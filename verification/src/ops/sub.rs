//! Subtraction of values with an absolute uncertainty.
use crate::abunc::AbUnc;
use crate::model::{difference, sum};
use crate::scalar::Scalar;
use vstd::prelude::*;

verus! {

impl core::ops::Sub<AbUnc> for AbUnc {
    type Output = AbUnc;

    /// The values subtract; the uncertainties add, as the worst case has it.
    fn sub(self, other: AbUnc) -> (r: AbUnc)
        ensures
            r.val@ == difference(self.val@, other.val@),
            r.unc@ == sum(self.unc@, other.unc@),
    {
        AbUnc::new(self.val.minus(other.val), self.unc.plus(other.unc))
    }
}

impl vstd::std_specs::ops::SubSpecImpl<AbUnc> for AbUnc {
    open spec fn obeys_sub_spec() -> bool {
        true
    }

    open spec fn sub_req(self, other: AbUnc) -> bool {
        true
    }

    open spec fn sub_spec(self, other: AbUnc) -> AbUnc {
        AbUnc {
            val: Scalar::of_model(difference(self.val@, other.val@)),
            unc: Scalar::of_model(sum(self.unc@, other.unc@)),
        }
    }
}

impl core::ops::Sub<Scalar> for AbUnc {
    type Output = AbUnc;

    /// The scalar is subtracted from the value; it adds nothing to the
    /// uncertainty.
    fn sub(self, other: Scalar) -> (r: AbUnc)
        ensures
            r.val@ == difference(self.val@, other@),
            r.unc == self.unc,
    {
        let r = self - AbUnc::from(other);
        proof {
            use_type_invariant(&self.unc);
            use_type_invariant(&r.unc);
            self.unc.lemma_zero_neutral();
            r.unc.lemma_view_injective(self.unc);
        }
        r
    }
}

impl vstd::std_specs::ops::SubSpecImpl<Scalar> for AbUnc {
    open spec fn obeys_sub_spec() -> bool {
        true
    }

    open spec fn sub_req(self, other: Scalar) -> bool {
        true
    }

    open spec fn sub_spec(self, other: Scalar) -> AbUnc {
        AbUnc { val: Scalar::of_model(difference(self.val@, other@)), unc: self.unc }
    }
}

impl core::ops::Sub<AbUnc> for Scalar {
    type Output = AbUnc;

    /// The value is subtracted from the scalar, which adds nothing to the
    /// uncertainty.
    fn sub(self, other: AbUnc) -> (r: AbUnc)
        ensures
            r.val@ == difference(self@, other.val@),
            r.unc == other.unc,
    {
        let r = AbUnc::from(self) - other;
        proof {
            use_type_invariant(&other.unc);
            use_type_invariant(&r.unc);
            other.unc.lemma_zero_neutral();
            r.unc.lemma_view_injective(other.unc);
        }
        r
    }
}

impl vstd::std_specs::ops::SubSpecImpl<AbUnc> for Scalar {
    open spec fn obeys_sub_spec() -> bool {
        true
    }

    open spec fn sub_req(self, other: AbUnc) -> bool {
        true
    }

    open spec fn sub_spec(self, other: AbUnc) -> AbUnc {
        AbUnc { val: Scalar::of_model(difference(self@, other.val@)), unc: other.unc }
    }
}

} // verus!
