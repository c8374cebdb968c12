//! Exact roots: whole numbers that are powers, and fractions of them.
use crate::model::{
    in_range, lemma_ratio_eq, lemma_ratio_order, lemma_ratio_whole, lemma_representable, power,
    ratio, real_pow, representable, terms,
};
use crate::scalar::Scalar;
use crate::numth::{int_pow, lemma_int_pow_nat, lemma_lowest_terms_unique, lowest_terms};
use crate::powers::{lemma_lowest_terms_exist, lemma_power_lowest_terms, lemma_real_pow_ratio};
use vstd::prelude::*;

verus! {

/// Whether `y` is the root of `x` of degree `n`: the number that is not
/// negative, can be held, and has `x` as its `n`-th power.
pub open spec fn is_root(y: real, x: real, n: nat) -> bool {
    y >= 0 as real && representable(y) && real_pow(y, n) == x
}

/// The root of a model of degree `n`, where the model has one; see
/// `is_root`. No model has a root of degree zero, and a negative model has
/// no root.
pub open spec fn root(a: Option<real>, n: nat) -> Option<real> {
    match a {
        Some(x) => if n >= 1 && exists|y: real| is_root(y, x, n) {
            Some(choose|y: real| is_root(y, x, n))
        } else {
            None
        },
        None => None,
    }
}

/// A model raised to a power that is a model itself.
///
/// The exponent is taken as a fraction `m / n` in lowest terms. Where it is
/// whole, this is the power with the integer `m`. Otherwise it is the power
/// with `m` of the root of degree `n`, so it is defined only where that root
/// is: for a base that is not negative and is the `n`-th power of a number
/// that can be held.
pub open spec fn power_real(a: Option<real>, e: Option<real>) -> Option<real> {
    match e {
        Some(_) => {
            let (m, n) = terms(e);
            if n == 1 {
                power(a, m)
            } else {
                power(root(a, n as nat), m)
            }
        },
        None => None,
    }
}

/// A power grows with its exponent, where the base is one or more.
pub proof fn lemma_int_pow_exponent(b: int, j: nat, k: nat)
    requires
        b >= 1,
        j <= k,
    ensures
        1 <= int_pow(b, j) <= int_pow(b, k),
    decreases k - j,
{
    lemma_int_pow_nat(b, j);
    if j < k {
        lemma_int_pow_exponent(b, j + 1, k);
    }
}

/// A power with an exponent of one or more grows strictly with its base,
/// among the naturals.
pub proof fn lemma_int_pow_base(a: int, b: int, n: nat)
    requires
        0 <= a < b,
        n >= 1,
    ensures
        int_pow(a, n) < int_pow(b, n),
    decreases n,
{
    let pa = int_pow(a, (n - 1) as nat);
    let pb = int_pow(b, (n - 1) as nat);
    lemma_int_pow_nat(a, (n - 1) as nat);
    lemma_int_pow_nat(b, (n - 1) as nat);
    if n > 1 {
        lemma_int_pow_base(a, b, (n - 1) as nat);
    }
    assert(pa * a < pb * b) by (nonlinear_arith)
        requires
            0 <= pa <= pb,
            pb > 0,
            0 <= a < b,
    ;
}

/// The powers of zero and of one.
pub proof fn lemma_int_pow_units(n: nat)
    ensures
        int_pow(1, n) == 1,
        n >= 1 ==> int_pow(0, n) == 0,
    decreases n,
{
    if n > 0 {
        lemma_int_pow_units((n - 1) as nat);
        assert(int_pow(0, (n - 1) as nat) * 0 == 0) by (nonlinear_arith);
    }
}

/// Two naturals with the same power of degree one or more are the same.
pub proof fn lemma_int_pow_injective(a: int, b: int, n: nat)
    requires
        a >= 0,
        b >= 0,
        n >= 1,
        int_pow(a, n) == int_pow(b, n),
    ensures
        a == b,
{
    if a < b {
        lemma_int_pow_base(a, b, n);
    }
    if b < a {
        lemma_int_pow_base(b, a, n);
    }
}

/// The power `b^n`, where it is at most `cap`.
pub fn checked_pow(b: u64, n: u64, cap: u64) -> (r: Option<u64>)
    ensures
        match r {
            Some(v) => v == int_pow(b as int, n as nat) && v <= cap,
            None => int_pow(b as int, n as nat) > cap,
        },
{
    if cap == 0 {
        proof {
            lemma_int_pow_units(n as nat);
            if b >= 1 {
                lemma_int_pow_exponent(b as int, 0, n as nat);
            }
        }
        return if b == 0 && n >= 1 {
            Some(0)
        } else {
            None
        };
    }
    if b <= 1 {
        proof {
            lemma_int_pow_units(n as nat);
        }
        return if n == 0 {
            Some(1)
        } else {
            Some(b)
        };
    }
    let mut acc: u64 = 1;
    let mut i: u64 = 0;
    while i < n
        invariant
            i <= n,
            b >= 2,
            acc == int_pow(b as int, i as nat),
            1 <= acc <= cap,
        decreases n - i,
    {
        proof {
            assert(1 <= acc * b <= 0xffff_ffff_ffff_ffff * 0xffff_ffff_ffff_ffff)
                by (nonlinear_arith)
                requires
                    1 <= acc <= 0xffff_ffff_ffff_ffff,
                    2 <= b <= 0xffff_ffff_ffff_ffff,
            ;
            assert(int_pow(b as int, (i + 1) as nat) == acc * b);
        }
        let t: u128 = (acc as u128) * (b as u128);
        if t > cap as u128 {
            proof {
                lemma_int_pow_exponent(b as int, (i + 1) as nat, n as nat);
            }
            return None;
        }
        acc = t as u64;
        i = i + 1;
    }
    Some(acc)
}

/// The whole part of the root of `c` of degree `n`.
pub(crate) fn whole_root(c: u64, n: u64) -> (r: u64)
    requires
        n >= 1,
        c < u64::MAX,
    ensures
        int_pow(r as int, n as nat) <= c < int_pow(r + 1, n as nat),
{
    let mut lo: u64 = 0;
    let mut hi: u64 = c + 1;
    proof {
        lemma_int_pow_units(n as nat);
        lemma_int_pow_exponent(hi as int, 1, n as nat);
        assert(int_pow(hi as int, 1) == int_pow(hi as int, 0) * hi);
        assert(int_pow(hi as int, 0) == 1);
    }
    while hi - lo > 1
        invariant
            lo < hi <= c + 1,
            n >= 1,
            int_pow(lo as int, n as nat) <= c < int_pow(hi as int, n as nat),
        decreases hi - lo,
    {
        let mid: u64 = lo + (hi - lo) / 2;
        match checked_pow(mid, n, c) {
            Some(_) => {
                lo = mid;
            },
            None => {
                hi = mid;
            },
        }
    }
    lo
}

/// The natural number whose power of degree `n` is `c`, where there is one.
pub(crate) fn exact_root(c: u64, n: u64) -> (r: Option<u64>)
    requires
        n >= 1,
        c < u64::MAX,
    ensures
        match r {
            Some(v) => int_pow(v as int, n as nat) == c && v <= c,
            None => forall|s: int| s >= 0 ==> #[trigger] int_pow(s, n as nat) != c,
        },
{
    let r = whole_root(c, n);
    let hit = match checked_pow(r, n, c) {
        Some(v) => v == c,
        None => false,
    };
    if hit {
        proof {
            if r >= 1 {
                lemma_int_pow_exponent(r as int, 1, n as nat);
                assert(int_pow(r as int, 1) == int_pow(r as int, 0) * r);
                assert(int_pow(r as int, 0) == 1);
            }
        }
        Some(r)
    } else {
        proof {
            assert forall|s: int| s >= 0 implies #[trigger] int_pow(s, n as nat) != c by {
                if s < r {
                    lemma_int_pow_base(s, r as int, n as nat);
                } else if s > r {
                    if s > r + 1 {
                        lemma_int_pow_base(r + 1, s, n as nat);
                    }
                }
            }
        }
        None
    }
}

/// The power of a number that is not negative is not negative.
pub proof fn lemma_real_pow_sign(y: real, n: nat)
    requires
        y >= 0 as real,
    ensures
        real_pow(y, n) >= 0 as real,
    decreases n,
{
    if n > 0 {
        lemma_real_pow_sign(y, (n - 1) as nat);
        let p = real_pow(y, (n - 1) as nat);
        assert(p * y >= 0 as real) by (nonlinear_arith)
            requires
                p >= 0 as real,
                y >= 0 as real,
        ;
    }
}

/// A root of a fraction in lowest terms is the fraction of the roots of its
/// numerator and its denominator.
pub proof fn lemma_root_parts(y: real, c: int, d: int, n: nat) -> (f: (int, int))
    requires
        n >= 1,
        lowest_terms(c, d),
        is_root(y, ratio(c, d), n),
    ensures
        f.0 >= 0,
        f.1 > 0,
        y == ratio(f.0, f.1),
        int_pow(f.0, n) == c,
        int_pow(f.1, n) == d,
{
    let (s, t) = lemma_lowest_terms_exist(y);
    lemma_power_lowest_terms(s, t, n);
    lemma_ratio_eq(int_pow(s, n), int_pow(t, n), c, d);
    lemma_lowest_terms_unique(int_pow(s, n), int_pow(t, n), c, d);
    lemma_ratio_order(0, 1, s, t);
    lemma_ratio_whole(0);
    assert(0 * t == 0 && s * 1 == s);
    (s, t)
}

/// A number that has a root has the root that `root` gives.
proof fn lemma_root_exists(w: real, v: real, k: nat)
    requires
        k >= 1,
        is_root(w, v, k),
    ensures
        root(Some(v), k) is Some,
        is_root(root(Some(v), k)->0, v, k),
{
    let a = Some(v);
    assert(is_root(w, a->0, k));
    assert(exists|y: real| is_root(y, a->0, k));
}

/// A number has at most one root of each degree, so a number that is a root
/// is the root.
pub proof fn lemma_root_unique(y: real, x: real, n: nat)
    requires
        n >= 1,
        is_root(y, x, n),
    ensures
        root(Some(x), n) == Some(y),
        forall|z: real| is_root(z, x, n) ==> z == y,
{
    lemma_root_exists(y, x, n);
    let (s, t) = lemma_lowest_terms_exist(y);
    lemma_power_lowest_terms(s, t, n);
    let c = int_pow(s, n);
    let d = int_pow(t, n);
    lemma_ratio_order(0, 1, s, t);
    lemma_ratio_whole(0);
    assert(0 * t == 0 && s * 1 == s);
    assert forall|z: real| is_root(z, x, n) implies z == y by {
        let (u, v) = lemma_root_parts(z, c, d, n);
        lemma_int_pow_injective(u, s, n);
        lemma_int_pow_injective(v, t, n);
    }
}

/// The fraction of two roots is the root of the fraction.
pub proof fn lemma_root_of_parts(s: int, t: int, c: int, d: int, n: nat)
    requires
        n >= 1,
        0 <= s,
        in_range(s, t),
        int_pow(s, n) == c,
        int_pow(t, n) == d,
    ensures
        root(Some(ratio(c, d)), n) == Some(ratio(s, t)),
{
    lemma_real_pow_ratio(s, t, n);
    lemma_representable(s, t);
    lemma_ratio_order(0, 1, s, t);
    lemma_ratio_whole(0);
    assert(0 * t == 0 && s * 1 == s);
    lemma_root_unique(ratio(s, t), ratio(c, d), n);
}

impl Scalar {
    /// The root of degree `n` of this scalar: the scalar that is not
    /// negative and has this scalar as its `n`-th power. It is undefined
    /// where there is no such scalar, which is so for every negative scalar
    /// and for the degree zero.
    pub fn root(self, n: u64) -> (r: Scalar)
        ensures
            r@ == root(self@, n as nat),
    {
        proof {
            use_type_invariant(&self);
            self.lemma_view();
        }
        let num: i64 = self.numer();
        let den: i64 = self.denom();
        if den == 0 || n == 0 {
            return Scalar::undefined();
        }
        let ghost x = self@->0;
        if num < 0 {
            proof {
                lemma_ratio_order(num as int, den as int, 0, 1);
                lemma_ratio_whole(0);
                assert(num * 1 < 0 * den) by (nonlinear_arith)
                    requires
                        num < 0,
                        den > 0,
                ;
                assert forall|y: real| !is_root(y, x, n as nat) by {
                    if y >= 0 as real {
                        lemma_real_pow_sign(y, n as nat);
                    }
                }
            }
            return Scalar::undefined();
        }
        let top = exact_root(num as u64, n);
        let bottom = exact_root(den as u64, n);
        match (top, bottom) {
            (Some(s), Some(t)) => {
                proof {
                    lemma_int_pow_units(n as nat);
                    lemma_root_of_parts(s as int, t as int, num as int, den as int, n as nat);
                    lemma_representable(s as int, t as int);
                }
                Scalar::new(s as i64, t as i64)
            },
            _ => {
                proof {
                    assert forall|y: real| !is_root(y, x, n as nat) by {
                        if is_root(y, x, n as nat) {
                            let (u, v) = lemma_root_parts(y, num as int, den as int, n as nat);
                            assert(int_pow(u, n as nat) == num);
                            assert(int_pow(v, n as nat) == den);
                        }
                    }
                }
                Scalar::undefined()
            },
        }
    }

    /// This scalar raised to the power `e`; see `power_real`. Where `e` is
    /// whole, this is the integer power. Otherwise it is defined only where
    /// the result is exact: the square root of four is two, that of two is
    /// undefined.
    pub fn powf(self, e: Scalar) -> (r: Scalar)
        ensures
            r@ == power_real(self@, e@),
    {
        proof {
            use_type_invariant(&e);
            e.lemma_view();
        }
        let m: i64 = e.numer();
        let n: i64 = e.denom();
        if n == 0 {
            return Scalar::undefined();
        }
        if n == 1 {
            self.power_of(m)
        } else {
            self.root(n as u64).power_of(m)
        }
    }
}

} // verus!
