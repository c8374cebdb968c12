//! Greatest common divisors and what they say about fractions in lowest terms.
use vstd::arithmetic::div_mod::{lemma_fundamental_div_mod, lemma_mod_multiples_basic};
use vstd::prelude::*;

verus! {

/// The greatest common divisor of two naturals, by Euclid's recursion.
/// `gcd(0, 0)` is 0.
pub open spec fn gcd(a: nat, b: nat) -> nat
    decreases b,
{
    if b == 0 {
        a
    } else {
        gcd(b, a % b)
    }
}

/// The magnitude of an integer.
pub open spec fn magnitude(n: int) -> nat {
    if n < 0 {
        (-n) as nat
    } else {
        n as nat
    }
}

/// A fraction `n / d` is in lowest terms when `d` is positive and shares no
/// factor with `n`.
pub open spec fn lowest_terms(n: int, d: int) -> bool {
    d > 0 && gcd(magnitude(n), d as nat) == 1
}

/// The gcd is positive unless both arguments are zero.
pub proof fn lemma_gcd_positive(a: nat, b: nat)
    requires
        a > 0 || b > 0,
    ensures
        gcd(a, b) > 0,
    decreases b,
{
    if b != 0 {
        lemma_gcd_positive(b, a % b);
    }
}

/// The gcd divides both of its arguments.
pub proof fn lemma_gcd_divides(a: nat, b: nat)
    requires
        a > 0 || b > 0,
    ensures
        a % gcd(a, b) == 0,
        b % gcd(a, b) == 0,
    decreases b,
{
    let g = gcd(a, b);
    lemma_gcd_positive(a, b);
    if b == 0 {
        lemma_exact_multiple(1, g as int);
        lemma_exact_multiple(0, g as int);
    } else {
        let r = a % b;
        let q = a / b;
        lemma_gcd_divides(b, r);
        // b = kb * g and r = kr * g, so a = q * b + r is a multiple of g too
        let kb = (b / g) as int;
        let kr = (r / g) as int;
        lemma_fundamental_div_mod(b as int, g as int);
        lemma_fundamental_div_mod(r as int, g as int);
        lemma_fundamental_div_mod(a as int, b as int);
        assert(a == (q * kb + kr) * g) by (nonlinear_arith)
            requires
                a == b * q + r,
                b == g * kb,
                r == g * kr,
        ;
        lemma_exact_multiple(q * kb + kr, g as int);
    }
}

/// A multiple of a positive number leaves no remainder, and dividing it
/// gives the factor back.
pub proof fn lemma_exact_multiple(k: int, g: int)
    requires
        g > 0,
    ensures
        (k * g) % g == 0,
        (k * g) / g == k,
{
    lemma_mod_multiples_basic(k, g);
    lemma_fundamental_div_mod(k * g, g);
    assert((k * g) / g == k) by (nonlinear_arith)
        requires
            g > 0,
            k * g == g * ((k * g) / g),
    ;
}

/// Bezout's identity: the gcd is an integer combination of its arguments.
pub proof fn lemma_bezout(a: nat, b: nat) -> (c: (int, int))
    ensures
        c.0 * a + c.1 * b == gcd(a, b),
    decreases b,
{
    if b == 0 {
        (1, 0)
    } else {
        let r = a % b;
        let q = (a / b) as int;
        let (x, y) = lemma_bezout(b, r);
        lemma_fundamental_div_mod(a as int, b as int);
        let g = gcd(a, b);
        assert(y * a + (x - q * y) * b == g) by (nonlinear_arith)
            requires
                x * b + y * r == g,
                a == b * q + r,
        ;
        (y, x - q * y)
    }
}

/// Dividing two numbers by their gcd leaves numbers with no common factor.
pub proof fn lemma_quotients_coprime(a: nat, b: nat)
    requires
        b > 0,
    ensures
        gcd(a, b) > 0,
        gcd(a / gcd(a, b), b / gcd(a, b)) == 1,
        a == (a / gcd(a, b)) * gcd(a, b),
        b == (b / gcd(a, b)) * gcd(a, b),
        b / gcd(a, b) > 0,
{
    let g = gcd(a, b);
    lemma_gcd_positive(a, b);
    lemma_gcd_divides(a, b);
    let a1 = a / g;
    let b1 = b / g;
    lemma_fundamental_div_mod(a as int, g as int);
    lemma_fundamental_div_mod(b as int, g as int);
    assert(a == a1 * g && b == b1 * g) by (nonlinear_arith)
        requires
            a == g * a1,
            b == g * b1,
    ;
    assert(b1 > 0) by (nonlinear_arith)
        requires
            b == b1 * g,
            b > 0,
            g > 0,
    ;
    let (x, y) = lemma_bezout(a, b);
    assert(x * a1 + y * b1 == 1) by (nonlinear_arith)
        requires
            x * a + y * b == g,
            a == a1 * g,
            b == b1 * g,
            g > 0,
    ;
    lemma_coprime_from_combination(a1, b1, x, y);
}

/// A fraction in lowest terms has the smallest numerator and denominator
/// among all fractions of the same value.
pub proof fn lemma_lowest_terms_least(n: int, d: int, m: int, e: int)
    requires
        lowest_terms(n, d),
        e > 0,
        n * e == m * d,
    ensures
        d <= e,
        magnitude(n) <= magnitude(m),
        exists|k: int| k >= 1 && e == k * d && m == #[trigger] (k * n),
{
    let (x0, y) = lemma_bezout(magnitude(n), d as nat);
    let x = if n < 0 {
        -x0
    } else {
        x0
    };
    assert(x * n + y * d == 1) by (nonlinear_arith)
        requires
            x0 * magnitude(n) + y * d == 1,
            x == if n < 0 {
                -x0
            } else {
                x0
            },
            magnitude(n) == if n < 0 {
                -n
            } else {
                n
            },
    ;
    let k = x * m + y * e;
    assert(e == k * d) by (nonlinear_arith)
        requires
            x * n + y * d == 1,
            n * e == m * d,
            k == x * m + y * e,
    {
        assert(e == e * (x * n + y * d));
        assert(e * (x * n + y * d) == x * (n * e) + y * d * e);
    }
    assert(k >= 1) by (nonlinear_arith)
        requires
            e == k * d,
            e > 0,
            d > 0,
    ;
    assert(m == k * n) by (nonlinear_arith)
        requires
            e == k * d,
            n * e == m * d,
            d > 0,
    {
        assert((k * n - m) * d == 0);
    }
    assert(d <= e) by (nonlinear_arith)
        requires
            e == k * d,
            k >= 1,
            d > 0,
    ;
    assert(magnitude(n) <= magnitude(m)) by (nonlinear_arith)
        requires
            m == k * n,
            k >= 1,
            magnitude(n) == if n < 0 {
                -n
            } else {
                n
            },
            magnitude(m) == if m < 0 {
                -m
            } else {
                m
            },
    ;
}

/// Two fractions in lowest terms with the same value are the same fraction.
pub proof fn lemma_lowest_terms_unique(n: int, d: int, m: int, e: int)
    requires
        lowest_terms(n, d),
        lowest_terms(m, e),
        n * e == m * d,
    ensures
        n == m,
        d == e,
{
    lemma_lowest_terms_least(n, d, m, e);
    lemma_lowest_terms_least(m, e, n, d);
    assert(n == m) by (nonlinear_arith)
        requires
            n * e == m * d,
            d == e,
            d > 0,
    {
        assert((n - m) * d == 0);
    }
}

/// Two numbers of which an integer combination is one have no common
/// factor.
pub proof fn lemma_coprime_from_combination(a: nat, b: nat, x: int, y: int)
    requires
        x * a + y * b == 1,
    ensures
        gcd(a, b) == 1,
{
    assert(a > 0 || b > 0) by (nonlinear_arith)
        requires
            x * a + y * b == 1,
    ;
    let g = gcd(a, b);
    lemma_gcd_positive(a, b);
    lemma_gcd_divides(a, b);
    lemma_fundamental_div_mod(a as int, g as int);
    lemma_fundamental_div_mod(b as int, g as int);
    let ka = (a / g) as int;
    let kb = (b / g) as int;
    assert(g == 1) by (nonlinear_arith)
        requires
            g > 0,
            a == g * ka,
            b == g * kb,
            x * a + y * b == 1,
    {
        assert(g * (x * ka + y * kb) == 1);
    }
}

/// Having no common factor does not depend on the order.
pub proof fn lemma_coprime_symmetric(a: nat, b: nat)
    requires
        gcd(a, b) == 1,
    ensures
        gcd(b, a) == 1,
{
    let (x, y) = lemma_bezout(a, b);
    lemma_coprime_from_combination(b, a, y, x);
}

/// A product of two numbers that share no factor with a third shares none
/// with it either.
pub proof fn lemma_coprime_product(a: nat, b: nat, c: nat)
    requires
        gcd(a, c) == 1,
        gcd(b, c) == 1,
    ensures
        gcd(a * b, c) == 1,
{
    let (x, y) = lemma_bezout(a, c);
    let (u, v) = lemma_bezout(b, c);
    // multiply the two combinations out and collect what c divides
    let s = x * a;
    let t = y * c;
    let m = u * b;
    let n = v * c;
    let p = x * u;
    let q1 = s * v;
    let q2 = y * m;
    let q3 = y * n;
    assert(s * m + s * n + t * m + t * n == 1) by (nonlinear_arith)
        requires
            s + t == 1,
            m + n == 1,
    ;
    assert(s * m == p * (a * b)) by (nonlinear_arith)
        requires
            s == x * a,
            m == u * b,
            p == x * u,
    ;
    assert(s * n == q1 * c) by (nonlinear_arith)
        requires
            n == v * c,
            q1 == s * v,
    ;
    assert(t * m == q2 * c) by (nonlinear_arith)
        requires
            t == y * c,
            q2 == y * m,
    ;
    assert(t * n == q3 * c) by (nonlinear_arith)
        requires
            t == y * c,
            q3 == y * n,
    ;
    let q = q1 + q2 + q3;
    assert(q * c == q1 * c + q2 * c + q3 * c) by (nonlinear_arith)
        requires
            q == q1 + q2 + q3,
    ;
    lemma_coprime_from_combination(a * b, c, p, q);
}

/// The power `b^e` of an integer.
pub open spec fn int_pow(b: int, e: nat) -> int
    decreases e,
{
    if e == 0 {
        1
    } else {
        int_pow(b, (e - 1) as nat) * b
    }
}

/// A power of a natural number is a natural number, positive where the
/// base is, and it does not shrink as the exponent grows.
pub proof fn lemma_int_pow_nat(b: int, e: nat)
    requires
        b >= 0,
    ensures
        int_pow(b, e) >= 0,
        b > 0 ==> int_pow(b, e) > 0,
        b > 0 ==> int_pow(b, e) <= int_pow(b, e + 1),
    decreases e,
{
    if e > 0 {
        lemma_int_pow_nat(b, (e - 1) as nat);
    }
    let p = int_pow(b, e);
    assert(int_pow(b, e + 1) == p * b);
    assert(p >= 0 && (b > 0 ==> p > 0)) by (nonlinear_arith)
        requires
            b >= 0,
            e > 0 ==> p == int_pow(b, (e - 1) as nat) * b,
            e == 0 ==> p == 1,
            e > 0 ==> int_pow(b, (e - 1) as nat) >= 0,
            e > 0 && b > 0 ==> int_pow(b, (e - 1) as nat) > 0,
    ;
    assert(b > 0 ==> p <= p * b) by (nonlinear_arith)
        requires
            p >= 0,
    ;
}

/// The magnitude of a power is the power of the magnitude.
pub proof fn lemma_int_pow_magnitude(b: int, e: nat)
    ensures
        magnitude(int_pow(b, e)) == int_pow(magnitude(b) as int, e),
    decreases e,
{
    if e > 0 {
        lemma_int_pow_magnitude(b, (e - 1) as nat);
        let p = int_pow(b, (e - 1) as nat);
        let m = magnitude(b) as int;
        lemma_int_pow_nat(m, (e - 1) as nat);
        assert(magnitude(p * b) == magnitude(p) * m) by (nonlinear_arith)
            requires
                m == if b < 0 {
                    -b
                } else {
                    b
                },
                magnitude(p) == if p < 0 {
                    -p
                } else {
                    p
                },
                magnitude(p * b) == if p * b < 0 {
                    -(p * b)
                } else {
                    p * b
                },
        ;
    }
}

/// Powers of two numbers that share no factor share no factor.
pub proof fn lemma_coprime_powers(a: nat, b: nat, j: nat, k: nat)
    requires
        gcd(a, b) == 1,
    ensures
        int_pow(a as int, j) >= 0,
        int_pow(b as int, k) >= 0,
        gcd(int_pow(a as int, j) as nat, int_pow(b as int, k) as nat) == 1,
    decreases j,
{
    lemma_int_pow_nat(a as int, j);
    lemma_int_pow_nat(b as int, k);
    let bk = int_pow(b as int, k) as nat;
    if j > 0 {
        lemma_coprime_powers(a, b, (j - 1) as nat, k);
        lemma_int_pow_nat(a as int, (j - 1) as nat);
        lemma_coprime_one_step(a, b, k);
        lemma_coprime_product(int_pow(a as int, (j - 1) as nat) as nat, a, bk);
    } else {
        lemma_coprime_from_combination(1, bk, 1, 0);
    }
}

/// A number shares no factor with the powers of a number it shares none
/// with.
proof fn lemma_coprime_one_step(a: nat, b: nat, k: nat)
    requires
        gcd(a, b) == 1,
    ensures
        int_pow(b as int, k) >= 0,
        gcd(a, int_pow(b as int, k) as nat) == 1,
    decreases k,
{
    lemma_int_pow_nat(b as int, k);
    if k == 0 {
        lemma_coprime_from_combination(a, 1, 0, 1);
    } else {
        lemma_coprime_one_step(a, b, (k - 1) as nat);
        lemma_int_pow_nat(b as int, (k - 1) as nat);
        let prev = int_pow(b as int, (k - 1) as nat) as nat;
        lemma_coprime_symmetric(a, prev);
        lemma_coprime_symmetric(a, b);
        lemma_coprime_product(prev, b, a);
        lemma_coprime_symmetric(prev * b, a);
    }
}

/// Computes the greatest common divisor of two numbers.
pub fn gcd_u128(a: u128, b: u128) -> (g: u128)
    ensures
        g == gcd(a as nat, b as nat),
{
    let mut x: u128 = a;
    let mut y: u128 = b;
    while y != 0
        invariant
            gcd(x as nat, y as nat) == gcd(a as nat, b as nat),
        decreases y,
    {
        let r: u128 = x % y;
        x = y;
        y = r;
    }
    x
}

} // verus!
