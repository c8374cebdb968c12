//! The order of the ends of two intervals, decided exactly.
//!
//! The ends of an interval are a sum and a difference of two scalars, which
//! a scalar need not be able to hold. They are therefore never formed here:
//! two ends are held against each other as fractions of wide integers, and
//! those by their whole parts and what is left, as Euclid would.
use crate::abunc::AbUnc;
use crate::model::{lemma_ratio_difference, lemma_ratio_order, lemma_ratio_sum};
use crate::scalar::lemma_cross_bound;
use vstd::arithmetic::div_mod::{lemma_fundamental_div_mod, lemma_mod_bound};
use vstd::prelude::*;

verus! {

/// Whether the interval of the first value begins no later than the
/// interval of the second ends: `val - margin <= other_val + other_margin`,
/// of the exact numbers. It is false where one of the four is undefined.
pub open spec fn begins_before_end(
    val: Option<real>,
    margin: Option<real>,
    other_val: Option<real>,
    other_margin: Option<real>,
) -> bool {
    match (val, margin, other_val, other_margin) {
        (Some(v), Some(m), Some(w), Some(k)) => v - m <= w + k,
        _ => false,
    }
}

/// How two fractions with equal whole parts compare is how what is left of
/// them compares; with different whole parts, the whole parts decide.
proof fn lemma_whole_parts(a: int, b: int, c: int, d: int)
    requires
        0 <= a,
        0 < b,
        0 <= c,
        0 < d,
    ensures
        a / b < c / d ==> a * d < c * b,
        a / b > c / d ==> a * d > c * b,
        a / b == c / d ==> (a * d <= c * b <==> (a % b) * d <= (c % d) * b),
        0 <= a % b < b,
        0 <= c % d < d,
{
    let q = a / b;
    let r = a % b;
    let p = c / d;
    let s = c % d;
    lemma_fundamental_div_mod(a, b);
    lemma_fundamental_div_mod(c, d);
    lemma_mod_bound(a, b);
    lemma_mod_bound(c, d);
    let bd = b * d;
    assert(a * d == q * bd + r * d) by (nonlinear_arith)
        requires
            a == b * q + r,
            bd == b * d,
    ;
    assert(c * b == p * bd + s * b) by (nonlinear_arith)
        requires
            c == d * p + s,
            bd == b * d,
    ;
    assert(0 <= r * d < bd) by (nonlinear_arith)
        requires
            0 <= r < b,
            0 < d,
            bd == b * d,
    ;
    assert(0 <= s * b < bd) by (nonlinear_arith)
        requires
            0 <= s < d,
            0 < b,
            bd == b * d,
    ;
    if q < p {
        assert(q * bd + bd <= p * bd) by (nonlinear_arith)
            requires
                q < p,
                bd > 0,
        ;
    }
    if q > p {
        assert(p * bd + bd <= q * bd) by (nonlinear_arith)
            requires
                p < q,
                bd > 0,
        ;
    }
}

/// Whether `a / b <= c / d`, for fractions of naturals of any width.
pub(crate) fn fraction_at_most(a: u128, b: u128, c: u128, d: u128) -> (r: bool)
    requires
        b > 0,
        d > 0,
    ensures
        r == (a * d <= c * b),
{
    let mut top: u128 = a;
    let mut bottom: u128 = b;
    let mut other_top: u128 = c;
    let mut other_bottom: u128 = d;
    loop
        invariant
            bottom > 0,
            other_bottom > 0,
            (a * d <= c * b) == (top * other_bottom <= other_top * bottom),
        decreases bottom + other_bottom,
    {
        proof {
            lemma_whole_parts(top as int, bottom as int, other_top as int, other_bottom as int);
        }
        let q: u128 = top / bottom;
        let p: u128 = other_top / other_bottom;
        if q < p {
            return true;
        }
        if q > p {
            return false;
        }
        let left: u128 = top % bottom;
        let other_left: u128 = other_top % other_bottom;
        if left == 0 {
            proof {
                assert(left * other_bottom <= other_left * bottom) by (nonlinear_arith)
                    requires
                        left == 0,
                        0 <= other_left,
                        0 < bottom,
                ;
            }
            return true;
        }
        if other_left == 0 {
            proof {
                assert(left * other_bottom > other_left * bottom) by (nonlinear_arith)
                    requires
                        0 < left,
                        0 < other_bottom,
                        other_left == 0,
                ;
            }
            return false;
        }
        proof {
            // what is left of the first is at most what is left of the second
            // exactly when the reciprocals are in the other order
            assert((left * other_bottom <= other_left * bottom) == (other_bottom * left <= bottom
                * other_left)) by (nonlinear_arith);
        }
        top = other_bottom;
        other_top = bottom;
        bottom = other_left;
        other_bottom = left;
    }
}

/// Whether `n / d <= m / e`, for fractions of integers of any width.
pub(crate) fn signed_fraction_at_most(n: i128, d: i128, m: i128, e: i128) -> (r: bool)
    requires
        d > 0,
        e > 0,
        n > i128::MIN,
        m > i128::MIN,
    ensures
        r == (n * e <= m * d),
{
    if n < 0 {
        if m >= 0 {
            proof {
                assert(n * e <= m * d) by (nonlinear_arith)
                    requires
                        n < 0,
                        e > 0,
                        m >= 0,
                        d > 0,
                ;
            }
            true
        } else {
            proof {
                assert((n * e <= m * d) == ((-m) * d <= (-n) * e)) by (nonlinear_arith);
            }
            fraction_at_most((-m) as u128, e as u128, (-n) as u128, d as u128)
        }
    } else if m < 0 {
        proof {
            assert(n * e > m * d) by (nonlinear_arith)
                requires
                    n >= 0,
                    e > 0,
                    m < 0,
                    d > 0,
            ;
        }
        false
    } else {
        fraction_at_most(n as u128, d as u128, m as u128, e as u128)
    }
}

impl AbUnc {
    /// Whether the interval of this value begins no later than the interval
    /// of the other ends. The two ends are held against each other exactly,
    /// also where they are beyond what a scalar holds. It is false where a
    /// value or a margin is undefined.
    pub fn begins_before_end_of(&self, other: &AbUnc) -> (r: bool)
        ensures
            r == begins_before_end(self.val@, self.unc@, other.val@, other.unc@),
    {
        proof {
            use_type_invariant(&self.val);
            use_type_invariant(&self.unc);
            use_type_invariant(&other.val);
            use_type_invariant(&other.unc);
            self.val.lemma_view();
            self.unc.lemma_view();
            other.val.lemma_view();
            other.unc.lemma_view();
        }
        if !self.val.is_defined() || !self.unc.is_defined() || !other.val.is_defined()
            || !other.unc.is_defined() {
            return false;
        }
        let vn: i128 = self.val.numer() as i128;
        let vd: i128 = self.val.denom() as i128;
        let mn: i128 = self.unc.numer() as i128;
        let md: i128 = self.unc.denom() as i128;
        let wn: i128 = other.val.numer() as i128;
        let wd: i128 = other.val.denom() as i128;
        let kn: i128 = other.unc.numer() as i128;
        let kd: i128 = other.unc.denom() as i128;
        proof {
            lemma_cross_bound(vn as int, md as int);
            lemma_cross_bound(mn as int, vd as int);
            lemma_cross_bound(vd as int, md as int);
            lemma_cross_bound(wn as int, kd as int);
            lemma_cross_bound(kn as int, wd as int);
            lemma_cross_bound(wd as int, kd as int);
            assert(vd * md > 0 && wd * kd > 0) by (nonlinear_arith)
                requires
                    vd > 0,
                    md > 0,
                    wd > 0,
                    kd > 0,
            ;
            lemma_ratio_difference(vn as int, vd as int, mn as int, md as int);
            lemma_ratio_sum(wn as int, wd as int, kn as int, kd as int);
            lemma_ratio_order(
                vn * md - mn * vd,
                vd * md,
                wn * kd + kn * wd,
                wd * kd,
            );
        }
        let lower: i128 = vn * md - mn * vd;
        let upper: i128 = wn * kd + kn * wd;
        signed_fraction_at_most(lower, vd * md, upper, wd * kd)
    }
}

} // verus!
