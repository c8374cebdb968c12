//! The arithmetic operators on scalars.
use crate::model::{difference, product, quotient, sum};
use crate::scalar::Scalar;
use vstd::prelude::*;

verus! {

impl core::ops::Add<Scalar> for Scalar {
    type Output = Scalar;

    /// The sum, or the undefined scalar where either operand is undefined or
    /// the sum cannot be held.
    fn add(self, rhs: Scalar) -> (r: Scalar)
        ensures
            r@ == sum(self@, rhs@),
    {
        self.plus(rhs)
    }
}

impl vstd::std_specs::ops::AddSpecImpl<Scalar> for Scalar {
    open spec fn obeys_add_spec() -> bool {
        true
    }

    open spec fn add_req(self, rhs: Scalar) -> bool {
        true
    }

    open spec fn add_spec(self, rhs: Scalar) -> Scalar {
        Scalar::of_model(sum(self@, rhs@))
    }
}

impl core::ops::Sub<Scalar> for Scalar {
    type Output = Scalar;

    /// The difference, or the undefined scalar where either operand is
    /// undefined or the difference cannot be held.
    fn sub(self, rhs: Scalar) -> (r: Scalar)
        ensures
            r@ == difference(self@, rhs@),
    {
        self.minus(rhs)
    }
}

impl vstd::std_specs::ops::SubSpecImpl<Scalar> for Scalar {
    open spec fn obeys_sub_spec() -> bool {
        true
    }

    open spec fn sub_req(self, rhs: Scalar) -> bool {
        true
    }

    open spec fn sub_spec(self, rhs: Scalar) -> Scalar {
        Scalar::of_model(difference(self@, rhs@))
    }
}

impl core::ops::Mul<Scalar> for Scalar {
    type Output = Scalar;

    /// The product, or the undefined scalar where either operand is
    /// undefined or the product cannot be held.
    fn mul(self, rhs: Scalar) -> (r: Scalar)
        ensures
            r@ == product(self@, rhs@),
    {
        self.times(rhs)
    }
}

impl vstd::std_specs::ops::MulSpecImpl<Scalar> for Scalar {
    open spec fn obeys_mul_spec() -> bool {
        true
    }

    open spec fn mul_req(self, rhs: Scalar) -> bool {
        true
    }

    open spec fn mul_spec(self, rhs: Scalar) -> Scalar {
        Scalar::of_model(product(self@, rhs@))
    }
}

impl core::ops::Div<Scalar> for Scalar {
    type Output = Scalar;

    /// The quotient, or the undefined scalar where either operand is
    /// undefined, the divisor is zero, or the quotient cannot be held.
    fn div(self, rhs: Scalar) -> (r: Scalar)
        ensures
            r@ == quotient(self@, rhs@),
    {
        self.over(rhs)
    }
}

impl vstd::std_specs::ops::DivSpecImpl<Scalar> for Scalar {
    open spec fn obeys_div_spec() -> bool {
        true
    }

    open spec fn div_req(self, rhs: Scalar) -> bool {
        true
    }

    open spec fn div_spec(self, rhs: Scalar) -> Scalar {
        Scalar::of_model(quotient(self@, rhs@))
    }
}

} // verus!
