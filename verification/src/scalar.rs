//! Exact scalars: the plain numbers that measurements are made of.
use crate::model::{
    at_most, below, difference, in_range, lemma_not_representable, lemma_ratio_difference,
    lemma_ratio_eq, lemma_ratio_order, lemma_ratio_product, lemma_ratio_quotient,
    lemma_ratio_sum, lemma_ratio_whole, lemma_ratio_zero, lemma_representable, lemma_terms_of,
    limit, narrow, power, product, quotient, ratio, real_pow, representable, sum, terms,
};
use crate::numth::{gcd, gcd_u128, lemma_quotients_coprime, lowest_terms, magnitude};
use crate::powers::{
    lemma_lowest_terms_exist, lemma_power_minus_one, lemma_power_settled,
    lemma_reciprocal_representable, lemma_units_representable,
};
use vstd::prelude::*;

verus! {

/// The largest numerator and denominator a scalar holds.
pub const LIMIT: i64 = 0x7fff_ffff_ffff_ffff;

/// An exact number: a fraction of two integers in lowest terms, or the
/// undefined scalar.
///
/// The undefined scalar is what arithmetic yields where its result is not
/// defined (division by zero) or cannot be held. It is absorbing: every
/// operation on it yields it again, and it compares neither below nor above
/// anything. Two scalars are equal exactly when their views are.
#[derive(Clone, Copy, Debug, PartialEq, Eq, Hash, Structural)]
pub struct Scalar {
    num: i64,
    den: i64,
}

impl View for Scalar {
    type V = Option<real>;

    /// The real number held, or `None` for the undefined scalar.
    closed spec fn view(&self) -> Option<real> {
        if self.den == 0 {
            None
        } else {
            Some(ratio(self.num as int, self.den as int))
        }
    }
}

impl Scalar {
    /// What holds of every scalar: it is the undefined scalar, or a fraction
    /// in lowest terms within range.
    #[verifier::type_invariant]
    pub closed spec fn wf(self) -> bool {
        if self.den == 0 {
            self.num == 0
        } else {
            in_range(self.num as int, self.den as int) && lowest_terms(
                self.num as int,
                self.den as int,
            )
        }
    }

    /// The view of a scalar is a model that can be held, and so the fraction
    /// in lowest terms that `terms` gives for it is within range.
    pub proof fn lemma_view(self)
        requires
            self.wf(),
        ensures
            self@ is Some ==> narrow(self@->0) == self@,
            self@ is Some ==> self@ == Some(ratio(terms(self@).0, terms(self@).1)),
            self@ is Some ==> in_range(terms(self@).0, terms(self@).1),
            self@ is Some ==> lowest_terms(terms(self@).0, terms(self@).1),
    {
        self.lemma_terms();
    }

    /// The numerator and denominator held are those of the view in lowest
    /// terms.
    proof fn lemma_terms(self)
        requires
            self.wf(),
        ensures
            terms(self@) == (self.num as int, self.den as int),
            self@ is Some ==> narrow(self@->0) == self@,
    {
        if self.den != 0 {
            lemma_representable(self.num as int, self.den as int);
            lemma_terms_of(self.num as int, self.den as int);
        }
    }

    /// Scalars with the same view are the same scalar.
    pub proof fn lemma_view_injective(self, other: Scalar)
        requires
            self.wf(),
            other.wf(),
            self@ == other@,
        ensures
            self == other,
    {
        if self.den != 0 {
            lemma_ratio_eq(self.num as int, self.den as int, other.num as int, other.den as int);
            crate::numth::lemma_lowest_terms_unique(
                self.num as int,
                self.den as int,
                other.num as int,
                other.den as int,
            );
        }
    }

    /// The scalar whose view is `m`, where there is one.
    pub closed spec fn of_model(m: Option<real>) -> Scalar {
        choose|s: Scalar| s.wf() && s@ == m
    }

    /// Every scalar is the scalar of its view.
    pub proof fn lemma_of_model(self)
        requires
            self.wf(),
        ensures
            Scalar::of_model(self@) == self,
    {
        let s = Scalar::of_model(self@);
        assert(s.wf() && s@ == self@);
        s.lemma_view_injective(self);
    }

    /// Every model that can be held is the view of a scalar.
    pub proof fn lemma_of_model_view(m: Option<real>)
        requires
            m is Some ==> representable(m->0),
        ensures
            Scalar::of_model(m).wf(),
            Scalar::of_model(m)@ == m,
    {
        match m {
            None => {
                let s = Scalar { num: 0, den: 0 };
                assert(s.wf() && s@ == m);
            },
            Some(x) => {
                let (n, d) = lemma_lowest_terms_exist(x);
                let s = Scalar { num: n as i64, den: d as i64 };
                assert(s.wf() && s@ == m);
            },
        }
    }

    /// Adding or subtracting zero changes nothing.
    pub proof fn lemma_zero_neutral(self)
        requires
            self.wf(),
        ensures
            sum(self@, Some(0 as real)) == self@,
            sum(Some(0 as real), self@) == self@,
            difference(self@, Some(0 as real)) == self@,
    {
        self.lemma_view();
    }

    /// The undefined scalar.
    pub fn undefined() -> (r: Scalar)
        ensures
            r@ is None,
    {
        Scalar { num: 0, den: 0 }
    }

    /// The fraction `n / d` in lowest terms, or the undefined scalar where
    /// that fraction is out of range.
    fn reduce(n: i128, d: i128) -> (r: Scalar)
        requires
            d > 0,
            n > i128::MIN,
        ensures
            r@ == narrow(ratio(n as int, d as int)),
    {
        let an: u128 = if n < 0 {
            (-n) as u128
        } else {
            n as u128
        };
        let ud: u128 = d as u128;
        let g: u128 = gcd_u128(an, ud);
        proof {
            lemma_quotients_coprime(an as nat, ud as nat);
        }
        let rn: u128 = an / g;
        let rd: u128 = ud / g;
        let ghost signed: int = if n < 0 {
            -(rn as int)
        } else {
            rn as int
        };
        proof {
            assert(signed * d == n * rd) by (nonlinear_arith)
                requires
                    an == rn * g,
                    ud == rd * g,
                    d == ud,
                    signed == if n < 0 {
                        -(rn as int)
                    } else {
                        rn as int
                    },
                    an == if n < 0 {
                        -n
                    } else {
                        n as int
                    },
            ;
            lemma_ratio_eq(signed, rd as int, n as int, d as int);
            assert(magnitude(signed) == rn);
            assert(lowest_terms(signed, rd as int));
        }
        if rn <= LIMIT as u128 && rd <= LIMIT as u128 {
            let m: i64 = rn as i64;
            let num: i64 = if n < 0 {
                -m
            } else {
                m
            };
            proof {
                lemma_representable(signed, rd as int);
            }
            Scalar { num, den: rd as i64 }
        } else {
            proof {
                lemma_not_representable(signed, rd as int);
            }
            Scalar::undefined()
        }
    }

    /// The scalar `num / den`. It is undefined where `den` is zero, and where
    /// the fraction in lowest terms has a part beyond the limit.
    pub fn new(num: i64, den: i64) -> (r: Scalar)
        ensures
            r@ == if den == 0 {
                None
            } else {
                narrow(ratio(num as int, den as int))
            },
    {
        if den == 0 {
            Scalar::undefined()
        } else if den > 0 {
            Scalar::reduce(num as i128, den as i128)
        } else {
            proof {
                lemma_ratio_eq(-(num as int), -(den as int), num as int, den as int);
                assert(-(num as int) * den == num * -(den as int)) by (nonlinear_arith);
            }
            Scalar::reduce(-(num as i128), -(den as i128))
        }
    }

    /// The whole number `n`.
    pub fn from_int(n: i64) -> (r: Scalar)
        ensures
            r@ == narrow(n as real),
    {
        proof {
            lemma_ratio_whole(n as int);
        }
        Scalar::reduce(n as i128, 1)
    }

    /// Zero.
    pub fn zero() -> (r: Scalar)
        ensures
            r@ == Some(0 as real),
            r == Scalar::of_model(Some(0 as real)),
    {
        proof {
            lemma_ratio_whole(0);
            assert(gcd(0, 1) == 1) by {
                reveal_with_fuel(gcd, 2);
            }
        }
        Scalar::sole(Scalar { num: 0, den: 1 })
    }

    /// One.
    pub fn one() -> (r: Scalar)
        ensures
            r@ == Some(1 as real),
    {
        proof {
            lemma_ratio_whole(1);
            assert(gcd(1, 1) == 1) by {
                reveal_with_fuel(gcd, 3);
            }
        }
        Scalar { num: 1, den: 1 }
    }

    /// Whether this is a number, not the undefined scalar.
    pub fn is_defined(&self) -> (b: bool)
        ensures
            b == (self@ is Some),
    {
        self.den != 0
    }

    /// The numerator of the fraction in lowest terms; zero for the undefined
    /// scalar.
    pub fn numer(&self) -> (n: i64)
        ensures
            n == terms(self@).0,
    {
        proof {
            use_type_invariant(self);
            self.lemma_terms();
        }
        self.num
    }

    /// The denominator of the fraction in lowest terms, which is positive;
    /// zero for the undefined scalar.
    pub fn denom(&self) -> (d: i64)
        ensures
            d == terms(self@).1,
    {
        proof {
            use_type_invariant(self);
            self.lemma_terms();
        }
        self.den
    }

    /// This scalar raised to the power `k`. It is undefined where this
    /// scalar is, and where the power cannot be held.
    pub fn pow(self, k: u64) -> (r: Scalar)
        ensures
            r@ == power(self@, k as int),
    {
        proof {
            use_type_invariant(&self);
            self.lemma_view();
        }
        if self.den == 0 {
            return Scalar::undefined();
        }
        let ghost x = self@->0;
        if self.num == -1 && self.den == 1 {
            proof {
                lemma_ratio_whole(-1);
                lemma_power_minus_one(k as nat);
            }
            return if k % 2 == 0 {
                Scalar::one()
            } else {
                self
            };
        }
        let mut acc: Scalar = Scalar::one();
        let mut i: u64 = 0;
        proof {
            lemma_units_representable();
        }
        while i < k
            invariant
                i <= k,
                self@ == Some(x),
                representable(x),
                acc@ == narrow(real_pow(x, i as nat)),
            decreases k - i,
        {
            let next: Scalar = acc.times(self);
            proof {
                assert(real_pow(x, (i + 1) as nat) == real_pow(x, i as nat) * x);
                use_type_invariant(&next);
                use_type_invariant(&acc);
                if next@ == acc@ {
                    next.lemma_view_injective(acc);
                }
            }
            if next == acc {
                proof {
                    lemma_power_settled(x, i as nat, k as nat);
                }
                return acc;
            }
            acc = next;
            i = i + 1;
        }
        acc
    }

    /// This scalar raised to the integer power `n`. A negative power is the
    /// power of the reciprocal, so it is undefined for zero. The result is
    /// undefined as well where this scalar is, and where the power cannot
    /// be held.
    pub fn powi(self, n: i32) -> (r: Scalar)
        ensures
            r@ == power(self@, n as int),
    {
        self.power_of(n as i64)
    }

    /// This scalar raised to the integer power `n`, for exponents of any
    /// size that a scalar holds.
    pub(crate) fn power_of(self, n: i64) -> (r: Scalar)
        requires
            n > i64::MIN,
        ensures
            r@ == power(self@, n as int),
    {
        if n >= 0 {
            self.pow(n as u64)
        } else {
            proof {
                use_type_invariant(&self);
                self.lemma_view();
                if self@ is Some && self@->0 != 0 as real {
                    lemma_reciprocal_representable(self@->0);
                }
            }
            let k: i64 = -n;
            Scalar::one().over(self).pow(k as u64)
        }
    }

    /// Whether this scalar is strictly below the other. False where either
    /// is undefined.
    pub fn lt(&self, other: &Scalar) -> (b: bool)
        ensures
            b == below(self@, other@),
    {
        proof {
            use_type_invariant(self);
            use_type_invariant(other);
        }
        if self.den == 0 || other.den == 0 {
            false
        } else {
            proof {
                lemma_cross_bound(self.num as int, other.den as int);
                lemma_cross_bound(other.num as int, self.den as int);
                lemma_ratio_order(
                    self.num as int,
                    self.den as int,
                    other.num as int,
                    other.den as int,
                );
            }
            (self.num as i128) * (other.den as i128) < (other.num as i128) * (self.den as i128)
        }
    }

    /// Whether this scalar is below or equal to the other. False where
    /// either is undefined.
    pub fn le(&self, other: &Scalar) -> (b: bool)
        ensures
            b == at_most(self@, other@),
    {
        proof {
            use_type_invariant(self);
            use_type_invariant(other);
        }
        if self.den == 0 || other.den == 0 {
            false
        } else {
            proof {
                lemma_cross_bound(self.num as int, other.den as int);
                lemma_cross_bound(other.num as int, self.den as int);
                lemma_ratio_order(
                    self.num as int,
                    self.den as int,
                    other.num as int,
                    other.den as int,
                );
            }
            (self.num as i128) * (other.den as i128) <= (other.num as i128) * (self.den as i128)
        }
    }

    /// Whether this scalar is strictly above the other. False where either
    /// is undefined.
    pub fn gt(&self, other: &Scalar) -> (b: bool)
        ensures
            b == below(other@, self@),
    {
        other.lt(self)
    }

    /// Whether this scalar is above or equal to the other. False where
    /// either is undefined.
    pub fn ge(&self, other: &Scalar) -> (b: bool)
        ensures
            b == at_most(other@, self@),
    {
        other.le(self)
    }
}

/// The product of two numbers within the limit is within its square.
pub proof fn lemma_cross_bound(x: int, y: int)
    requires
        -limit() <= x <= limit(),
        -limit() <= y <= limit(),
    ensures
        -0x3fff_ffff_ffff_ffff_0000_0000_0000_0001 <= x * y
            <= 0x3fff_ffff_ffff_ffff_0000_0000_0000_0001,
{
    assert(-0x3fff_ffff_ffff_ffff_0000_0000_0000_0001 <= x * y
        <= 0x3fff_ffff_ffff_ffff_0000_0000_0000_0001) by (nonlinear_arith)
        requires
            -0x7fff_ffff_ffff_ffff <= x <= 0x7fff_ffff_ffff_ffff,
            -0x7fff_ffff_ffff_ffff <= y <= 0x7fff_ffff_ffff_ffff,
    ;
}

impl Scalar {
    /// The sum of two scalars.
    pub(crate) fn plus(self, rhs: Scalar) -> (r: Scalar)
        ensures
            r@ == sum(self@, rhs@),
            r == Scalar::of_model(sum(self@, rhs@)),
    {
        proof {
            use_type_invariant(&self);
            use_type_invariant(&rhs);
        }
        if self.den == 0 || rhs.den == 0 {
            Scalar::sole(Scalar::undefined())
        } else {
            proof {
                lemma_cross_bound(self.num as int, rhs.den as int);
                lemma_cross_bound(rhs.num as int, self.den as int);
                lemma_cross_bound(self.den as int, rhs.den as int);
                lemma_ratio_sum(self.num as int, self.den as int, rhs.num as int, rhs.den as int);
                assert(self.den * rhs.den > 0) by (nonlinear_arith)
                    requires
                        self.den > 0,
                        rhs.den > 0,
                ;
            }
            let n: i128 = (self.num as i128) * (rhs.den as i128) + (rhs.num as i128) * (
            self.den as i128);
            let d: i128 = (self.den as i128) * (rhs.den as i128);
            Scalar::sole(Scalar::reduce(n, d))
        }
    }

    /// The difference of two scalars.
    pub(crate) fn minus(self, rhs: Scalar) -> (r: Scalar)
        ensures
            r@ == difference(self@, rhs@),
            r == Scalar::of_model(difference(self@, rhs@)),
    {
        proof {
            use_type_invariant(&self);
            use_type_invariant(&rhs);
        }
        if self.den == 0 || rhs.den == 0 {
            Scalar::sole(Scalar::undefined())
        } else {
            proof {
                lemma_cross_bound(self.num as int, rhs.den as int);
                lemma_cross_bound(rhs.num as int, self.den as int);
                lemma_cross_bound(self.den as int, rhs.den as int);
                lemma_ratio_difference(
                    self.num as int,
                    self.den as int,
                    rhs.num as int,
                    rhs.den as int,
                );
                assert(self.den * rhs.den > 0) by (nonlinear_arith)
                    requires
                        self.den > 0,
                        rhs.den > 0,
                ;
            }
            let n: i128 = (self.num as i128) * (rhs.den as i128) - (rhs.num as i128) * (
            self.den as i128);
            let d: i128 = (self.den as i128) * (rhs.den as i128);
            Scalar::sole(Scalar::reduce(n, d))
        }
    }

    /// The product of two scalars.
    pub(crate) fn times(self, rhs: Scalar) -> (r: Scalar)
        ensures
            r@ == product(self@, rhs@),
            r == Scalar::of_model(product(self@, rhs@)),
    {
        proof {
            use_type_invariant(&self);
            use_type_invariant(&rhs);
        }
        if self.den == 0 || rhs.den == 0 {
            Scalar::sole(Scalar::undefined())
        } else {
            proof {
                lemma_cross_bound(self.num as int, rhs.num as int);
                lemma_cross_bound(self.den as int, rhs.den as int);
                lemma_ratio_product(
                    self.num as int,
                    self.den as int,
                    rhs.num as int,
                    rhs.den as int,
                );
                assert(self.den * rhs.den > 0) by (nonlinear_arith)
                    requires
                        self.den > 0,
                        rhs.den > 0,
                ;
            }
            let n: i128 = (self.num as i128) * (rhs.num as i128);
            let d: i128 = (self.den as i128) * (rhs.den as i128);
            Scalar::sole(Scalar::reduce(n, d))
        }
    }

    /// The quotient of two scalars.
    pub(crate) fn over(self, rhs: Scalar) -> (r: Scalar)
        ensures
            r@ == quotient(self@, rhs@),
            r == Scalar::of_model(quotient(self@, rhs@)),
    {
        proof {
            use_type_invariant(&self);
            use_type_invariant(&rhs);
        }
        if self.den == 0 || rhs.den == 0 {
            Scalar::sole(Scalar::undefined())
        } else if rhs.num == 0 {
            proof {
                lemma_ratio_zero(rhs.num as int, rhs.den as int);
            }
            Scalar::sole(Scalar::undefined())
        } else {
            proof {
                lemma_cross_bound(self.num as int, rhs.den as int);
                lemma_cross_bound(self.den as int, rhs.num as int);
                lemma_ratio_quotient(
                    self.num as int,
                    self.den as int,
                    rhs.num as int,
                    rhs.den as int,
                );
            }
            let n: i128 = (self.num as i128) * (rhs.den as i128);
            let d: i128 = (self.den as i128) * (rhs.num as i128);
            if d > 0 {
                Scalar::sole(Scalar::reduce(n, d))
            } else {
                proof {
                    lemma_ratio_eq(-(n as int), -(d as int), n as int, d as int);
                    assert(-(n as int) * d == n * -(d as int)) by (nonlinear_arith);
                }
                Scalar::sole(Scalar::reduce(-n, -d))
            }
        }
    }

    /// Hands a scalar on, knowing it to be the scalar of its view.
    fn sole(self) -> (r: Scalar)
        ensures
            r == self,
            r == Scalar::of_model(self@),
    {
        proof {
            use_type_invariant(&self);
            self.lemma_of_model();
        }
        self
    }
}

} // verus!
