//! Multiplication of values with a relative uncertainty.
use crate::model::{product, sum};
use crate::relunc::RelUnc;
use crate::scalar::Scalar;
use vstd::prelude::*;

verus! {

impl core::ops::Mul<RelUnc> for RelUnc {
    type Output = RelUnc;

    /// The values multiply; the fractions add.
    fn mul(self, other: RelUnc) -> (r: RelUnc)
        ensures
            r.val@ == product(self.val@, other.val@),
            r.unc@ == sum(self.unc@, other.unc@),
    {
        RelUnc::new(self.val.times(other.val), self.unc.plus(other.unc))
    }
}

impl vstd::std_specs::ops::MulSpecImpl<RelUnc> for RelUnc {
    open spec fn obeys_mul_spec() -> bool {
        true
    }

    open spec fn mul_req(self, other: RelUnc) -> bool {
        true
    }

    open spec fn mul_spec(self, other: RelUnc) -> RelUnc {
        RelUnc {
            val: Scalar::of_model(product(self.val@, other.val@)),
            unc: Scalar::of_model(sum(self.unc@, other.unc@)),
        }
    }
}

impl core::ops::Mul<Scalar> for RelUnc {
    type Output = RelUnc;

    /// The value is multiplied by the scalar, which adds nothing to the
    /// fraction.
    fn mul(self, other: Scalar) -> (r: RelUnc)
        ensures
            r.val@ == product(self.val@, other@),
            r.unc == self.unc,
    {
        let r = self * RelUnc::from(other);
        proof {
            use_type_invariant(&self.unc);
            use_type_invariant(&r.unc);
            self.unc.lemma_zero_neutral();
            r.unc.lemma_view_injective(self.unc);
        }
        r
    }
}

impl vstd::std_specs::ops::MulSpecImpl<Scalar> for RelUnc {
    open spec fn obeys_mul_spec() -> bool {
        true
    }

    open spec fn mul_req(self, other: Scalar) -> bool {
        true
    }

    open spec fn mul_spec(self, other: Scalar) -> RelUnc {
        RelUnc { val: Scalar::of_model(product(self.val@, other@)), unc: self.unc }
    }
}

impl core::ops::Mul<RelUnc> for Scalar {
    type Output = RelUnc;

    /// The value is multiplied by the scalar, which adds nothing to the
    /// fraction.
    fn mul(self, other: RelUnc) -> (r: RelUnc)
        ensures
            r.val@ == product(other.val@, self@),
            r.unc == other.unc,
    {
        let r = other * RelUnc::from(self);
        proof {
            use_type_invariant(&other.unc);
            use_type_invariant(&r.unc);
            other.unc.lemma_zero_neutral();
            r.unc.lemma_view_injective(other.unc);
        }
        r
    }
}

impl vstd::std_specs::ops::MulSpecImpl<RelUnc> for Scalar {
    open spec fn obeys_mul_spec() -> bool {
        true
    }

    open spec fn mul_req(self, other: RelUnc) -> bool {
        true
    }

    open spec fn mul_spec(self, other: RelUnc) -> RelUnc {
        RelUnc { val: Scalar::of_model(product(other.val@, self@)), unc: other.unc }
    }
}

} // verus!
