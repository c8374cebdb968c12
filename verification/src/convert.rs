//! Conversions into uncertain values: from a plain scalar, and between the
//! two forms.
use crate::abunc::AbUnc;
use crate::model::{product, quotient};
use crate::relunc::RelUnc;
use crate::scalar::Scalar;
use vstd::prelude::*;

verus! {

impl core::convert::From<Scalar> for AbUnc {
    /// The scalar as a value with no uncertainty.
    fn from(x: Scalar) -> (r: AbUnc)
        ensures
            r.val == x,
            r.unc@ == Some(0 as real),
    {
        AbUnc::new(x, Scalar::zero())
    }
}

impl vstd::std_specs::convert::FromSpecImpl<Scalar> for AbUnc {
    open spec fn obeys_from_spec() -> bool {
        true
    }

    open spec fn from_spec(x: Scalar) -> AbUnc {
        AbUnc { val: x, unc: Scalar::of_model(Some(0 as real)) }
    }
}

impl core::convert::From<Scalar> for RelUnc {
    /// The scalar as a value with no uncertainty.
    fn from(x: Scalar) -> (r: RelUnc)
        ensures
            r.val == x,
            r.unc@ == Some(0 as real),
    {
        RelUnc::new(x, Scalar::zero())
    }
}

impl vstd::std_specs::convert::FromSpecImpl<Scalar> for RelUnc {
    open spec fn obeys_from_spec() -> bool {
        true
    }

    open spec fn from_spec(x: Scalar) -> RelUnc {
        RelUnc { val: x, unc: Scalar::of_model(Some(0 as real)) }
    }
}

impl core::convert::From<RelUnc> for AbUnc {
    /// The same value with its fraction as a margin.
    fn from(x: RelUnc) -> (r: AbUnc)
        ensures
            r.val == x.val,
            r.unc@ == product(x.unc@, x.val@),
    {
        AbUnc::new(x.val, x.unc.times(x.val))
    }
}

impl vstd::std_specs::convert::FromSpecImpl<RelUnc> for AbUnc {
    open spec fn obeys_from_spec() -> bool {
        true
    }

    open spec fn from_spec(x: RelUnc) -> AbUnc {
        AbUnc { val: x.val, unc: Scalar::of_model(product(x.unc@, x.val@)) }
    }
}

impl core::convert::From<AbUnc> for RelUnc {
    /// The same value with its margin as a fraction of the value.
    fn from(x: AbUnc) -> (r: RelUnc)
        ensures
            r.val == x.val,
            r.unc@ == quotient(x.unc@, x.val@),
    {
        RelUnc::new(x.val, x.unc.over(x.val))
    }
}

impl vstd::std_specs::convert::FromSpecImpl<AbUnc> for RelUnc {
    open spec fn obeys_from_spec() -> bool {
        true
    }

    open spec fn from_spec(x: AbUnc) -> RelUnc {
        RelUnc { val: x.val, unc: Scalar::of_model(quotient(x.unc@, x.val@)) }
    }
}

} // verus!
