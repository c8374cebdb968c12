//! What every uncertain value can do, whichever form it is held in.
use crate::abunc::AbUnc;
use crate::model::{below, difference, sum};
use crate::order::begins_before_end;
use crate::relunc::RelUnc;
use crate::scalar::Scalar;
use vstd::prelude::*;

verus! {

/// Whether two uncertain values, given by base value and margin, overlap.
///
/// Where the first value is strictly above the second, its lower end is
/// held against the upper end of the second; otherwise its upper end
/// against the lower end of the second. The ends are the exact numbers,
/// whether or not a scalar can hold them. A value whose base value or
/// margin is undefined overlaps nothing.
pub open spec fn overlaps(
    val: Option<real>,
    margin: Option<real>,
    other_val: Option<real>,
    other_margin: Option<real>,
) -> bool {
    if below(other_val, val) {
        begins_before_end(val, margin, other_val, other_margin)
    } else {
        begins_before_end(other_val, other_margin, val, margin)
    }
}

/// A value with an uncertainty, held in absolute or in relative form.
pub trait Uncertainty: Sized + Copy {
    /// The base value.
    spec fn value(&self) -> Option<real>;

    /// The uncertainty as it is held: a margin in the absolute form, a
    /// fraction of the base value in the relative form.
    spec fn uncertainty(&self) -> Option<real>;

    /// The uncertainty as a margin in the units of the base value.
    spec fn margin(&self) -> Option<real>;

    /// The uncertainty as a fraction of the base value.
    spec fn fraction(&self) -> Option<real>;

    /// Convert any uncertain value into one with an absolute uncertainty.
    fn to_ab(self) -> (r: AbUnc)
        ensures
            r.val@ == self.value(),
            r.unc@ == self.margin(),
    ;

    /// Convert any uncertain value into one with a relative uncertainty.
    fn to_rel(self) -> (r: RelUnc)
        ensures
            r.val@ == self.value(),
            r.unc@ == self.fraction(),
    ;

    /// Get the base value.
    fn val(&self) -> (r: Scalar)
        ensures
            r@ == self.value(),
    ;

    /// Get the uncertainty as it is held; what it means depends on the form.
    fn unc(&self) -> (r: Scalar)
        ensures
            r@ == self.uncertainty(),
    ;

    /// The least value this can stand for: the base value minus the margin.
    fn min(&self) -> (r: Scalar)
        ensures
            r@ == difference(self.value(), self.margin()),
    {
        let x = self.to_ab();
        x.val.minus(x.unc)
    }

    /// The greatest value this can stand for: the base value plus the
    /// margin.
    fn max(&self) -> (r: Scalar)
        ensures
            r@ == sum(self.value(), self.margin()),
    {
        let x = self.to_ab();
        x.val.plus(x.unc)
    }
}

/// What every uncertain value has from being one: conversions by their
/// other names, and the overlap test against any other uncertain value.
pub trait UncertainValue: Uncertainty {
    /// Convert any uncertain value into one with an absolute uncertainty.
    fn as_ab(self) -> (r: AbUnc)
        ensures
            r.val@ == self.value(),
            r.unc@ == self.margin(),
    {
        self.to_ab()
    }

    /// Convert any uncertain value into one with a relative uncertainty.
    fn as_rel(self) -> (r: RelUnc)
        ensures
            r.val@ == self.value(),
            r.unc@ == self.fraction(),
    {
        self.to_rel()
    }

    /// Whether the two values could stand for the same true value: whether
    /// the intervals of the two, each from its value minus its margin to
    /// its value plus its margin, meet. The ends are held against each
    /// other exactly, also where `min` or `max` could not hold them.
    fn overlap<T: Uncertainty>(&self, other: &T) -> (b: bool)
        ensures
            b == overlaps(self.value(), self.margin(), other.value(), other.margin()),
    {
        let mine = self.to_ab();
        let theirs = other.to_ab();
        if mine.val.gt(&theirs.val) {
            mine.begins_before_end_of(&theirs)
        } else {
            theirs.begins_before_end_of(&mine)
        }
    }
}

impl<U: Uncertainty> UncertainValue for U {

}

} // verus!
