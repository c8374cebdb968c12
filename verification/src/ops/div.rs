//! Division of values with a relative uncertainty.
use crate::model::{quotient, sum};
use crate::relunc::RelUnc;
use crate::scalar::Scalar;
use vstd::prelude::*;

verus! {

impl core::ops::Div<RelUnc> for RelUnc {
    type Output = RelUnc;

    /// The values divide; the fractions add. The value is undefined where
    /// the divisor's is zero.
    fn div(self, other: RelUnc) -> (r: RelUnc)
        ensures
            r.val@ == quotient(self.val@, other.val@),
            r.unc@ == sum(self.unc@, other.unc@),
    {
        RelUnc::new(self.val.over(other.val), self.unc.plus(other.unc))
    }
}

impl vstd::std_specs::ops::DivSpecImpl<RelUnc> for RelUnc {
    open spec fn obeys_div_spec() -> bool {
        true
    }

    open spec fn div_req(self, other: RelUnc) -> bool {
        true
    }

    open spec fn div_spec(self, other: RelUnc) -> RelUnc {
        RelUnc {
            val: Scalar::of_model(quotient(self.val@, other.val@)),
            unc: Scalar::of_model(sum(self.unc@, other.unc@)),
        }
    }
}

impl core::ops::Div<Scalar> for RelUnc {
    type Output = RelUnc;

    /// The value is divided by the scalar, which adds nothing to the
    /// fraction.
    fn div(self, other: Scalar) -> (r: RelUnc)
        ensures
            r.val@ == quotient(self.val@, other@),
            r.unc == self.unc,
    {
        let r = self / RelUnc::from(other);
        proof {
            use_type_invariant(&self.unc);
            use_type_invariant(&r.unc);
            self.unc.lemma_zero_neutral();
            r.unc.lemma_view_injective(self.unc);
        }
        r
    }
}

impl vstd::std_specs::ops::DivSpecImpl<Scalar> for RelUnc {
    open spec fn obeys_div_spec() -> bool {
        true
    }

    open spec fn div_req(self, other: Scalar) -> bool {
        true
    }

    open spec fn div_spec(self, other: Scalar) -> RelUnc {
        RelUnc { val: Scalar::of_model(quotient(self.val@, other@)), unc: self.unc }
    }
}

impl core::ops::Div<RelUnc> for Scalar {
    type Output = RelUnc;

    /// The scalar is divided by the value; it adds nothing to the fraction.
    fn div(self, other: RelUnc) -> (r: RelUnc)
        ensures
            r.val@ == quotient(self@, other.val@),
            r.unc == other.unc,
    {
        let r = RelUnc::from(self) / other;
        proof {
            use_type_invariant(&other.unc);
            use_type_invariant(&r.unc);
            other.unc.lemma_zero_neutral();
            r.unc.lemma_view_injective(other.unc);
        }
        r
    }
}

impl vstd::std_specs::ops::DivSpecImpl<RelUnc> for Scalar {
    open spec fn obeys_div_spec() -> bool {
        true
    }

    open spec fn div_req(self, other: RelUnc) -> bool {
        true
    }

    open spec fn div_spec(self, other: RelUnc) -> RelUnc {
        RelUnc { val: Scalar::of_model(quotient(self@, other.val@)), unc: other.unc }
    }
}

} // verus!
