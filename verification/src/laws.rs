//! Laws of the arithmetic on uncertain values.
//!
//! Scalars hold only fractions within a limit. A law that regroups
//! operations therefore leaves out the operands for which one grouping can
//! be held and the other cannot, and a law that goes through a quotient
//! leaves out the operands whose quotient cannot be held.
use crate::abunc::AbUnc;
use crate::model::{
    at_most, difference, lemma_representable_negation, narrow, product, quotient, representable,
    sum,
};
use crate::order::begins_before_end;
use crate::relunc::RelUnc;
use crate::scalar::Scalar;
use crate::unc::{overlaps, Uncertainty};
use vstd::prelude::*;
use vstd::std_specs::ops::{AddSpec, SubSpec};

verus! {

/// Whether both parts of an absolute uncertainty are scalars as they should
/// be.
pub open spec fn valid(a: AbUnc) -> bool {
    a.val.wf() && a.unc.wf()
}

/// Whether grouping `a + b + c` from the left differs from grouping it from
/// the right: the sum of all three can be held, but only one of the partial
/// sums `a + b` and `b + c`.
pub open spec fn sum_regrouping_fails(a: Option<real>, b: Option<real>, c: Option<real>) -> bool {
    &&& a is Some && b is Some && c is Some
    &&& representable(a->0 + b->0 + c->0)
    &&& (sum(a, b) is Some) != (sum(b, c) is Some)
}

/// Whether `(a - b) - c` differs from `a - (b + c)`: the result can be held,
/// but only one of the partial results `a - b` and `b + c`.
pub open spec fn difference_regrouping_fails(
    a: Option<real>,
    b: Option<real>,
    c: Option<real>,
) -> bool {
    &&& a is Some && b is Some && c is Some
    &&& representable(a->0 - b->0 - c->0)
    &&& (difference(a, b) is Some) != (sum(b, c) is Some)
}

/// Round trip: a value with an absolute uncertainty whose base value is a
/// number other than zero, turned into relative form and back, is the value
/// it was. Left out are the values whose margin is a number of which the
/// fraction of the base value cannot be held.
///
/// `r` stands for any result of `a.to_rel()`, and `b` for any result of
/// `r.to_ab()`.
pub proof fn law_round_trip(a: AbUnc, r: RelUnc, b: AbUnc)
    requires
        valid(a),
        valid(b),
        a.val@ is Some,
        a.val@ != Some(0 as real),
        a.unc@ is Some ==> quotient(a.unc@, a.val@) is Some,
        r.val@ == a.value(),
        r.unc@ == a.fraction(),
        b.val@ == r.value(),
        b.unc@ == r.margin(),
    ensures
        b == a,
{
    if a.unc@ is Some {
        let x = a.val@->0;
        let y = a.unc@->0;
        assert((y / x) * x == y) by (nonlinear_arith)
            requires
                x != 0 as real,
        ;
        a.unc.lemma_view();
        assert(product(quotient(a.unc@, a.val@), a.val@) == narrow(y));
    }
    b.val.lemma_view_injective(a.val);
    b.unc.lemma_view_injective(a.unc);
}

/// Addition of absolute uncertainties is commutative, in value and in
/// uncertainty.
pub proof fn law_add_commutes(a: AbUnc, b: AbUnc)
    ensures
        a.add_spec(b) == b.add_spec(a),
{
}

/// Addition of absolute uncertainties is associative, in value and in
/// uncertainty. Left out are the operands for which one grouping can be held
/// and the other cannot.
pub proof fn law_add_associates(a: AbUnc, b: AbUnc, c: AbUnc)
    requires
        !sum_regrouping_fails(a.val@, b.val@, c.val@),
        !sum_regrouping_fails(a.unc@, b.unc@, c.unc@),
    ensures
        a.add_spec(b).add_spec(c) == a.add_spec(b.add_spec(c)),
{
    lemma_sum_regroups(a.val@, b.val@, c.val@);
    lemma_sum_regroups(a.unc@, b.unc@, c.unc@);
}

/// Under subtraction the uncertainties still add, so the uncertainty of a
/// difference does not depend on the order of the operands, and the value
/// only changes its sign.
pub proof fn law_sub_swaps(a: AbUnc, b: AbUnc)
    ensures
        a.sub_spec(b).unc == b.sub_spec(a).unc,
        difference(a.val@, b.val@) is Some <==> difference(b.val@, a.val@) is Some,
        difference(a.val@, b.val@) is Some ==> difference(a.val@, b.val@)->0 == -difference(
            b.val@,
            a.val@,
        )->0,
{
    if a.val@ is Some && b.val@ is Some {
        let x = a.val@->0;
        let y = b.val@->0;
        lemma_representable_negation(x - y);
        lemma_representable_negation(y - x);
        assert(-(x - y) == y - x);
        assert(-(y - x) == x - y);
    }
}

/// Subtracting two absolute uncertainties one after the other is
/// subtracting their sum, in value and in uncertainty. Left out are the
/// operands for which one grouping can be held and the other cannot.
pub proof fn law_sub_regroups(a: AbUnc, b: AbUnc, c: AbUnc)
    requires
        !difference_regrouping_fails(a.val@, b.val@, c.val@),
        !sum_regrouping_fails(a.unc@, b.unc@, c.unc@),
    ensures
        a.sub_spec(b).sub_spec(c) == a.sub_spec(b.add_spec(c)),
{
    lemma_difference_regroups(a.val@, b.val@, c.val@);
    lemma_sum_regroups(a.unc@, b.unc@, c.unc@);
}

/// With margins that are not negative, two uncertain values overlap exactly
/// when their intervals meet: each begins no later than the other ends.
/// Overlap then does not depend on which of the two values is asked, and
/// every value overlaps itself. This holds of all values whose base value
/// and margin are numbers, whether or not a scalar can hold their ends.
pub proof fn law_overlap_is_intersection(
    val: Option<real>,
    margin: Option<real>,
    other_val: Option<real>,
    other_margin: Option<real>,
)
    requires
        val is Some,
        other_val is Some,
        margin is Some && margin->0 >= 0 as real,
        other_margin is Some && other_margin->0 >= 0 as real,
    ensures
        overlaps(val, margin, other_val, other_margin) <==> val->0 - margin->0 <= other_val->0
            + other_margin->0 && other_val->0 - other_margin->0 <= val->0 + margin->0,
        overlaps(val, margin, other_val, other_margin) == overlaps(
            other_val,
            other_margin,
            val,
            margin,
        ),
        overlaps(val, margin, val, margin),
{
}

/// Where a scalar can hold the ends, overlap is what the comparison of the
/// least value of the one with the greatest of the other gives.
pub proof fn law_overlap_by_bounds(
    val: Option<real>,
    margin: Option<real>,
    other_val: Option<real>,
    other_margin: Option<real>,
)
    requires
        difference(val, margin) is Some,
        sum(other_val, other_margin) is Some,
    ensures
        begins_before_end(val, margin, other_val, other_margin) == at_most(
            difference(val, margin),
            sum(other_val, other_margin),
        ),
{
}

/// Regrouping a sum of models changes it exactly where
/// `sum_regrouping_fails`; this is stated of the scalars of the sums.
proof fn lemma_sum_regroups(a: Option<real>, b: Option<real>, c: Option<real>)
    ensures
        Scalar::of_model(sum(a, b))@ == sum(a, b),
        Scalar::of_model(sum(b, c))@ == sum(b, c),
        !sum_regrouping_fails(a, b, c) ==> sum(sum(a, b), c) == sum(a, sum(b, c)),
        sum_regrouping_fails(a, b, c) ==> sum(sum(a, b), c) != sum(a, sum(b, c)),
{
    Scalar::lemma_of_model_view(sum(a, b));
    Scalar::lemma_of_model_view(sum(b, c));
}

/// Regrouping a difference of models changes it exactly where
/// `difference_regrouping_fails`; this is stated of the scalars of the
/// partial results.
proof fn lemma_difference_regroups(a: Option<real>, b: Option<real>, c: Option<real>)
    ensures
        Scalar::of_model(difference(a, b))@ == difference(a, b),
        Scalar::of_model(sum(b, c))@ == sum(b, c),
        !difference_regrouping_fails(a, b, c) ==> difference(difference(a, b), c) == difference(
            a,
            sum(b, c),
        ),
        difference_regrouping_fails(a, b, c) ==> difference(difference(a, b), c) != difference(
            a,
            sum(b, c),
        ),
{
    Scalar::lemma_of_model_view(difference(a, b));
    Scalar::lemma_of_model_view(sum(b, c));
}

} // verus!
