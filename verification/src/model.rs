//! The mathematical model of a scalar: a real number, or nothing.
//!
//! A scalar holds a fraction of two machine integers, so only some reals can
//! be held. Arithmetic on models is exact where the result can be held and
//! yields `None` where it cannot; `None` is absorbing.
use crate::numth::{lemma_lowest_terms_least, lemma_lowest_terms_unique, lowest_terms, magnitude};
use vstd::prelude::*;

verus! {

/// The largest magnitude a numerator or a denominator may have.
pub open spec fn limit() -> int {
    0x7fff_ffff_ffff_ffff
}

/// The real number `n / d`.
pub open spec fn ratio(n: int, d: int) -> real {
    n as real / d as real
}

/// Whether `n` and `d` can be the numerator and denominator of a scalar.
pub open spec fn in_range(n: int, d: int) -> bool {
    -limit() <= n <= limit() && 0 < d <= limit()
}

/// Whether some scalar holds the real number `x`.
pub open spec fn representable(x: real) -> bool {
    exists|n: int, d: int| in_range(n, d) && x == #[trigger] ratio(n, d)
}

/// The numerator and the denominator of a model as a fraction in lowest
/// terms; both zero for nothing.
pub open spec fn terms(m: Option<real>) -> (int, int) {
    match m {
        Some(x) => choose|n: int, d: int| lowest_terms(n, d) && x == #[trigger] ratio(n, d),
        None => (0, 0),
    }
}

/// `x` if a scalar can hold it, nothing otherwise.
pub open spec fn narrow(x: real) -> Option<real> {
    if representable(x) {
        Some(x)
    } else {
        None
    }
}

/// Addition of models.
pub open spec fn sum(a: Option<real>, b: Option<real>) -> Option<real> {
    match (a, b) {
        (Some(x), Some(y)) => narrow(x + y),
        _ => None,
    }
}

/// Subtraction of models.
pub open spec fn difference(a: Option<real>, b: Option<real>) -> Option<real> {
    match (a, b) {
        (Some(x), Some(y)) => narrow(x - y),
        _ => None,
    }
}

/// Multiplication of models.
pub open spec fn product(a: Option<real>, b: Option<real>) -> Option<real> {
    match (a, b) {
        (Some(x), Some(y)) => narrow(x * y),
        _ => None,
    }
}

/// Division of models. Division by zero yields nothing.
pub open spec fn quotient(a: Option<real>, b: Option<real>) -> Option<real> {
    match (a, b) {
        (Some(x), Some(y)) => if y == 0 as real {
            None
        } else {
            narrow(x / y)
        },
        _ => None,
    }
}

/// A model raised to an integer power: the mathematical power, where it can
/// be held. A negative power is the power of the reciprocal, which zero does
/// not have.
pub open spec fn power(a: Option<real>, n: int) -> Option<real> {
    match a {
        Some(x) => if n >= 0 {
            narrow(real_pow(x, n as nat))
        } else if x == 0 as real {
            None
        } else {
            narrow(real_pow(1 as real / x, (-n) as nat))
        },
        None => None,
    }
}

/// Strict order of models. Nothing is below or above an undefined model.
pub open spec fn below(a: Option<real>, b: Option<real>) -> bool {
    match (a, b) {
        (Some(x), Some(y)) => x < y,
        _ => false,
    }
}

/// Weak order of models. Nothing is below or above an undefined model.
pub open spec fn at_most(a: Option<real>, b: Option<real>) -> bool {
    match (a, b) {
        (Some(x), Some(y)) => x <= y,
        _ => false,
    }
}

/// The mathematical power `x^n` of a real number.
pub open spec fn real_pow(x: real, n: nat) -> real
    decreases n,
{
    if n == 0 {
        1 as real
    } else {
        real_pow(x, (n - 1) as nat) * x
    }
}

/// Two fractions are the same real number exactly when they agree crosswise.
pub proof fn lemma_ratio_eq(n: int, d: int, m: int, e: int)
    requires
        d != 0,
        e != 0,
    ensures
        ratio(n, d) == ratio(m, e) <==> n * e == m * d,
{
    assert(((n as real / d as real) == (m as real / e as real)) <==> (n * e == m * d))
        by (nonlinear_arith)
        requires
            d != 0,
            e != 0,
    ;
}

/// The order of two fractions with positive denominators is the order of
/// their cross products.
pub proof fn lemma_ratio_order(n: int, d: int, m: int, e: int)
    requires
        d > 0,
        e > 0,
    ensures
        ratio(n, d) < ratio(m, e) <==> n * e < m * d,
        ratio(n, d) <= ratio(m, e) <==> n * e <= m * d,
{
    assert(((n as real / d as real) < (m as real / e as real)) <==> (n * e < m * d))
        by (nonlinear_arith)
        requires
            d > 0,
            e > 0,
    ;
    assert(((n as real / d as real) <= (m as real / e as real)) <==> (n * e <= m * d))
        by (nonlinear_arith)
        requires
            d > 0,
            e > 0,
    ;
}

/// The sum of two fractions.
pub proof fn lemma_ratio_sum(n: int, d: int, m: int, e: int)
    requires
        d != 0,
        e != 0,
    ensures
        ratio(n, d) + ratio(m, e) == ratio(n * e + m * d, d * e),
        d * e != 0,
{
    assert(d * e != 0) by (nonlinear_arith)
        requires
            d != 0,
            e != 0,
    ;
    assert((n as real / d as real) + (m as real / e as real) == ((n * e + m * d) as real) / ((d
        * e) as real)) by (nonlinear_arith)
        requires
            d != 0,
            e != 0,
    ;
}

/// The difference of two fractions.
pub proof fn lemma_ratio_difference(n: int, d: int, m: int, e: int)
    requires
        d != 0,
        e != 0,
    ensures
        ratio(n, d) - ratio(m, e) == ratio(n * e - m * d, d * e),
        d * e != 0,
{
    assert(d * e != 0) by (nonlinear_arith)
        requires
            d != 0,
            e != 0,
    ;
    assert((n as real / d as real) - (m as real / e as real) == ((n * e - m * d) as real) / ((d
        * e) as real)) by (nonlinear_arith)
        requires
            d != 0,
            e != 0,
    ;
}

/// The product of two fractions.
pub proof fn lemma_ratio_product(n: int, d: int, m: int, e: int)
    requires
        d != 0,
        e != 0,
    ensures
        ratio(n, d) * ratio(m, e) == ratio(n * m, d * e),
        d * e != 0,
{
    assert(d * e != 0) by (nonlinear_arith)
        requires
            d != 0,
            e != 0,
    ;
    assert((n as real / d as real) * (m as real / e as real) == ((n * m) as real) / ((d * e) as real))
        by (nonlinear_arith)
        requires
            d != 0,
            e != 0,
    ;
}

/// The quotient of two fractions, the second of which is not zero.
pub proof fn lemma_ratio_quotient(n: int, d: int, m: int, e: int)
    requires
        d != 0,
        e != 0,
        m != 0,
    ensures
        ratio(m, e) != 0 as real,
        ratio(n, d) / ratio(m, e) == ratio(n * e, d * m),
        d * m != 0,
{
    assert(d * m != 0) by (nonlinear_arith)
        requires
            d != 0,
            m != 0,
    ;
    assert((m as real / e as real) != 0 as real) by (nonlinear_arith)
        requires
            m != 0,
            e != 0,
    ;
    assert((n as real / d as real) / (m as real / e as real) == ((n * e) as real) / ((d * m) as real))
        by (nonlinear_arith)
        requires
            d != 0,
            e != 0,
            m != 0,
    ;
}

/// A fraction is zero exactly when its numerator is.
pub proof fn lemma_ratio_zero(n: int, d: int)
    requires
        d != 0,
    ensures
        ratio(n, d) == 0 as real <==> n == 0,
{
    assert(((n as real / d as real) == 0 as real) <==> (n == 0)) by (nonlinear_arith)
        requires
            d != 0,
    ;
}

/// A fraction over one is its numerator.
pub proof fn lemma_ratio_whole(n: int)
    ensures
        ratio(n, 1) == n as real,
{
    assert(n as real / 1 as real == n as real) by (nonlinear_arith);
}

/// The terms of a fraction in lowest terms are its numerator and its
/// denominator.
pub proof fn lemma_terms_of(n: int, d: int)
    requires
        lowest_terms(n, d),
    ensures
        terms(Some(ratio(n, d))) == (n, d),
{
    let (m, e) = terms(Some(ratio(n, d)));
    lemma_ratio_eq(m, e, n, d);
    lemma_lowest_terms_unique(m, e, n, d);
}

/// A fraction within range is representable.
pub proof fn lemma_representable(n: int, d: int)
    requires
        in_range(n, d),
    ensures
        representable(ratio(n, d)),
        narrow(ratio(n, d)) == Some(ratio(n, d)),
{
}

/// The negative of a representable number is representable.
pub proof fn lemma_representable_negation(x: real)
    ensures
        representable(x) <==> representable(-x),
{
    if representable(x) {
        let (n, d) = choose|n: int, d: int| in_range(n, d) && x == #[trigger] ratio(n, d);
        lemma_ratio_negation(n, d);
        assert(in_range(-n, d));
    }
    if representable(-x) {
        let (n, d) = choose|n: int, d: int| in_range(n, d) && -x == #[trigger] ratio(n, d);
        lemma_ratio_negation(n, d);
        assert(in_range(-n, d));
        assert(x == ratio(-n, d));
    }
}

/// The negative of a fraction.
pub proof fn lemma_ratio_negation(n: int, d: int)
    requires
        d != 0,
    ensures
        ratio(-n, d) == -ratio(n, d),
{
    assert(((-n) as real / d as real) == -(n as real / d as real)) by (nonlinear_arith)
        requires
            d != 0,
    ;
}

/// A fraction in lowest terms that is out of range is the value of no
/// fraction within range.
pub proof fn lemma_not_representable(n: int, d: int)
    requires
        lowest_terms(n, d),
        !in_range(n, d),
    ensures
        !representable(ratio(n, d)),
        narrow(ratio(n, d)) is None,
{
    if representable(ratio(n, d)) {
        let (m, e) = choose|m: int, e: int| in_range(m, e) && ratio(n, d) == #[trigger] ratio(m, e);
        lemma_ratio_eq(n, d, m, e);
        lemma_lowest_terms_least(n, d, m, e);
        assert(magnitude(m) <= limit());
    }
}

} // verus!
