//! Which powers of a number a scalar can hold.
use crate::model::{
    in_range, lemma_not_representable, lemma_ratio_eq, lemma_ratio_whole, lemma_representable,
    limit, narrow, ratio, real_pow, representable,
};
use crate::numth::{
    gcd, int_pow, lemma_coprime_powers, lemma_int_pow_magnitude, lemma_int_pow_nat,
    lemma_quotients_coprime, lowest_terms, magnitude,
};
use vstd::prelude::*;

verus! {

/// Zero, one and minus one are representable.
pub proof fn lemma_units_representable()
    ensures
        narrow(1 as real) == Some(1 as real),
        narrow(-1 as real) == Some(-1 as real),
        narrow(0 as real) == Some(0 as real),
{
    lemma_ratio_whole(1);
    lemma_ratio_whole(-1);
    lemma_ratio_whole(0);
    assert(in_range(1, 1) && in_range(-1, 1) && in_range(0, 1));
}

/// Every representable number is a fraction in lowest terms within range.
pub proof fn lemma_lowest_terms_exist(x: real) -> (f: (int, int))
    requires
        representable(x),
    ensures
        x == ratio(f.0, f.1),
        lowest_terms(f.0, f.1),
        in_range(f.0, f.1),
{
    let (n, d) = choose|n: int, d: int| in_range(n, d) && x == #[trigger] ratio(n, d);
    let a = magnitude(n);
    let g = gcd(a, d as nat);
    lemma_quotients_coprime(a, d as nat);
    let rn = a / g;
    let rd = (d as nat) / g;
    let signed: int = if n < 0 {
        -(rn as int)
    } else {
        rn as int
    };
    assert(rn <= a && rd <= d && signed * d == n * rd) by (nonlinear_arith)
        requires
            a == rn * g,
            d == rd * g,
            g > 0,
            signed == if n < 0 {
                -(rn as int)
            } else {
                rn as int
            },
            a == if n < 0 {
                -n
            } else {
                n
            },
    ;
    lemma_ratio_eq(signed, rd as int, n, d);
    assert(magnitude(signed) == rn);
    (signed, rd as int)
}

/// The reciprocal of a representable number other than zero is
/// representable.
pub proof fn lemma_reciprocal_representable(x: real)
    requires
        representable(x),
        x != 0 as real,
    ensures
        representable(1 as real / x),
{
    let (n, d) = choose|n: int, d: int| in_range(n, d) && x == #[trigger] ratio(n, d);
    crate::model::lemma_ratio_zero(n, d);
    crate::model::lemma_ratio_quotient(1, 1, n, d);
    lemma_ratio_whole(1);
    assert(1 * d == d && 1 * n == n);
    if n > 0 {
        assert(in_range(d, n));
    } else {
        lemma_ratio_eq(-d, -n, d, n);
        assert((-d) * n == d * (-n)) by (nonlinear_arith);
        assert(in_range(-d, -n));
    }
}

/// The power of a fraction is the fraction of the powers.
pub proof fn lemma_real_pow_ratio(n: int, d: int, k: nat)
    requires
        d > 0,
    ensures
        int_pow(d, k) > 0,
        real_pow(ratio(n, d), k) == ratio(int_pow(n, k), int_pow(d, k)),
    decreases k,
{
    lemma_int_pow_nat(d, k);
    if k == 0 {
        lemma_ratio_whole(1);
    } else {
        lemma_real_pow_ratio(n, d, (k - 1) as nat);
        lemma_int_pow_nat(d, (k - 1) as nat);
        crate::model::lemma_ratio_product(
            int_pow(n, (k - 1) as nat),
            int_pow(d, (k - 1) as nat),
            n,
            d,
        );
    }
}

/// The power of a fraction in lowest terms is the fraction of the powers in
/// lowest terms.
pub proof fn lemma_power_lowest_terms(n: int, d: int, k: nat)
    requires
        lowest_terms(n, d),
    ensures
        lowest_terms(int_pow(n, k), int_pow(d, k)),
        real_pow(ratio(n, d), k) == ratio(int_pow(n, k), int_pow(d, k)),
{
    lemma_real_pow_ratio(n, d, k);
    lemma_int_pow_magnitude(n, k);
    lemma_coprime_powers(magnitude(n), d as nat, k, k);
}

/// Where a power of a representable number is representable, so is the
/// power before it.
pub proof fn lemma_power_before(x: real, k: nat)
    requires
        representable(x),
        representable(real_pow(x, k + 1)),
    ensures
        representable(real_pow(x, k)),
{
    let (n, d) = lemma_lowest_terms_exist(x);
    lemma_power_lowest_terms(n, d, k);
    lemma_power_lowest_terms(n, d, k + 1);
    let (pn, pd) = (int_pow(n, k), int_pow(d, k));
    let (qn, qd) = (int_pow(n, k + 1), int_pow(d, k + 1));
    if !in_range(qn, qd) {
        lemma_not_representable(qn, qd);
    }
    lemma_int_pow_magnitude(n, k);
    lemma_int_pow_magnitude(n, k + 1);
    lemma_int_pow_nat(magnitude(n) as int, k);
    lemma_int_pow_nat(d, k);
    if n == 0 {
        lemma_zero_pow(k);
    }
    assert(magnitude(pn) <= limit());
    assert(in_range(pn, pd));
    lemma_representable(pn, pd);
}

/// A power of zero is zero or one.
proof fn lemma_zero_pow(k: nat)
    ensures
        int_pow(0, k) == 0 || int_pow(0, k) == 1,
{
    if k > 0 {
        assert(int_pow(0, k) == int_pow(0, (k - 1) as nat) * 0);
        assert(int_pow(0, (k - 1) as nat) * 0 == 0) by (nonlinear_arith);
    }
}

/// Where a power of a representable number is representable, so are all
/// the powers before it.
pub proof fn lemma_power_shorter(x: real, j: nat, k: nat)
    requires
        representable(x),
        j <= k,
        representable(real_pow(x, k)),
    ensures
        representable(real_pow(x, j)),
    decreases k - j,
{
    if j < k {
        lemma_power_before(x, (k - 1) as nat);
        lemma_power_shorter(x, j, (k - 1) as nat);
    }
}

/// Once the next power is as the power before it, whether in what it is or
/// in that it cannot be held, all further powers are.
pub proof fn lemma_power_settled(x: real, i: nat, k: nat)
    requires
        representable(x),
        i <= k,
        narrow(real_pow(x, i)) is None || real_pow(x, i) * x == real_pow(x, i),
    ensures
        narrow(real_pow(x, k)) == narrow(real_pow(x, i)),
    decreases k - i,
{
    if i < k {
        if narrow(real_pow(x, i)) is None {
            if representable(real_pow(x, k)) {
                lemma_power_shorter(x, i, k);
            }
        } else {
            assert(real_pow(x, i + 1) == real_pow(x, i) * x);
            lemma_power_settled(x, i + 1, k);
        }
    }
}

/// The powers of minus one alternate between one and minus one.
pub proof fn lemma_power_minus_one(k: nat)
    ensures
        real_pow(-1 as real, k) == if k % 2 == 0 {
            1 as real
        } else {
            -1 as real
        },
        narrow(real_pow(-1 as real, k)) == Some(real_pow(-1 as real, k)),
    decreases k,
{
    lemma_units_representable();
    if k > 0 {
        lemma_power_minus_one((k - 1) as nat);
        assert((1 as real) * (-1 as real) == -1 as real) by (nonlinear_arith);
        assert((-1 as real) * (-1 as real) == 1 as real) by (nonlinear_arith);
    }
}

} // verus!
