use uncertainty::Scalar;

struct Lcg(u64);

impl Lcg {
    fn next(&mut self) -> u64 {
        self.0 = self.0.wrapping_mul(6364136223846793005).wrapping_add(1442695040888963407);
        self.0 >> 11
    }

    fn scalar(&mut self) -> Scalar {
        let bits = (self.next() % 63) as u32;
        let num = (self.next() as i64) >> (63 - bits.min(62));
        let bits = (self.next() % 63) as u32;
        let den = ((self.next() >> 1) as i64) >> (62 - bits.min(62));
        Scalar::new(num, den)
    }
}

fn greatest_common_divisor(mut a: u128, mut b: u128) -> u128 {
    while b != 0 {
        let r = a % b;
        a = b;
        b = r;
    }
    a
}

fn expected(n: i128, d: i128) -> Option<(i64, i64)> {
    if d == 0 {
        return None;
    }
    let (n, d) = if d < 0 { (-n, -d) } else { (n, d) };
    let g = greatest_common_divisor(n.unsigned_abs(), d as u128) as i128;
    let (n, d) = (n / g, d / g);
    if n.abs() <= i64::MAX as i128 && d <= i64::MAX as i128 {
        Some((n as i64, d as i64))
    } else {
        None
    }
}

fn parts(x: Scalar) -> Option<(i64, i64)> {
    if x.is_defined() {
        Some((x.numer(), x.denom()))
    } else {
        None
    }
}

#[test]
fn random_arithmetic_agrees_with_wide_integers() {
    let mut gen = Lcg(42);
    let mut defined = 0;
    for _ in 0..20000 {
        let a = gen.scalar();
        let b = gen.scalar();
        let (Some((an, ad)), Some((bn, bd))) = (parts(a), parts(b)) else {
            assert!(!(a + b).is_defined());
            assert!(!(a - b).is_defined());
            assert!(!(a * b).is_defined());
            assert!(!(a / b).is_defined());
            continue;
        };
        let (an, ad, bn, bd) = (an as i128, ad as i128, bn as i128, bd as i128);
        assert_eq!(parts(a + b), expected(an * bd + bn * ad, ad * bd));
        assert_eq!(parts(a - b), expected(an * bd - bn * ad, ad * bd));
        assert_eq!(parts(a * b), expected(an * bn, ad * bd));
        assert_eq!(parts(a / b), expected(an * bd, ad * bn));
        assert_eq!(a.lt(&b), an * bd < bn * ad);
        assert_eq!(a.le(&b), an * bd <= bn * ad);
        assert_eq!(a.gt(&b), an * bd > bn * ad);
        assert_eq!(a.ge(&b), an * bd >= bn * ad);
        if (a + b).is_defined() {
            defined += 1;
        }
    }
    assert!(defined > 1000);
}

#[test]
fn random_scalars_are_in_lowest_terms() {
    let mut gen = Lcg(7);
    for _ in 0..20000 {
        let a = gen.scalar();
        if a.is_defined() {
            assert!(a.denom() > 0);
            assert!(a.numer() > i64::MIN);
            assert_eq!(
                greatest_common_divisor(a.numer().unsigned_abs() as u128, a.denom() as u128),
                1
            );
            assert_eq!(Scalar::new(a.numer(), a.denom()), a);
        } else {
            assert_eq!((a.numer(), a.denom()), (0, 0));
        }
    }
}

#[test]
fn random_roots_undo_powers() {
    let mut gen = Lcg(99);
    let mut found = 0;
    for _ in 0..2000 {
        let n = (gen.next() % 1000) as i64;
        let d = (gen.next() % 1000 + 1) as i64;
        let k = gen.next() % 6 + 1;
        let base = Scalar::new(n, d);
        let raised = base.pow(k);
        if raised.is_defined() {
            assert_eq!(raised.root(k), base);
            found += 1;
        }
        let any = Scalar::new(n, d);
        let r = any.root(k);
        if r.is_defined() {
            assert_eq!(r.pow(k), any);
        }
    }
    assert!(found > 500);
}

#[test]
fn random_text_reads_back() {
    let mut gen = Lcg(5);
    for _ in 0..5000 {
        let a = gen.scalar();
        let text = a.to_string();
        if !a.is_defined() {
            assert_eq!(text, "NaN");
        } else if let Some((n, d)) = text.split_once('/') {
            assert_eq!(Scalar::new(n.parse().unwrap(), d.parse().unwrap()), a);
            assert_eq!(n.parse::<i64>().unwrap(), a.numer());
            assert_eq!(d.parse::<i64>().unwrap(), a.denom());
        } else {
            let (whole, places) = text.split_once('.').unwrap_or((&text, ""));
            let negative = whole.starts_with('-');
            let mut sum = Scalar::new(whole.trim_start_matches('-').parse().unwrap(), 1);
            let mut unit = Scalar::one();
            for c in places.chars() {
                unit = unit / Scalar::from_int(10);
                sum = sum + unit * Scalar::from_int(c.to_digit(10).unwrap() as i64);
                if !sum.is_defined() {
                    break;
                }
            }
            if sum.is_defined() {
                let signed = if negative { Scalar::zero() - sum } else { sum };
                assert_eq!(signed, a);
            }
            assert!(!places.ends_with('0'));
        }
    }
}

fn wide_at_most(a: (i128, i128), b: (i128, i128)) -> bool {
    // a.0 / a.1 <= b.0 / b.1 by whole parts and what is left, in floor division
    let (qa, ra) = (a.0.div_euclid(a.1), a.0.rem_euclid(a.1));
    let (qb, rb) = (b.0.div_euclid(b.1), b.0.rem_euclid(b.1));
    if qa != qb {
        return qa < qb;
    }
    if ra == 0 {
        return true;
    }
    if rb == 0 {
        return false;
    }
    wide_at_most((b.1, rb), (a.1, ra))
}

#[test]
fn random_overlap_agrees_with_exact_ends() {
    let mut gen = Lcg(2024);
    let mut met = 0;
    let mut total = 0;
    for _ in 0..20000 {
        let v = gen.scalar();
        let m = gen.scalar();
        let w = gen.scalar();
        let k = gen.scalar();
        let a = uncertainty::AbUnc::new(v, m);
        let b = uncertainty::AbUnc::new(w, k);
        let got = uncertainty::UncertainValue::overlap(&a, &b);
        let (Some(v), Some(m), Some(w), Some(k)) = (parts(v), parts(m), parts(w), parts(k)) else {
            assert!(!got);
            continue;
        };
        let (vn, vd, mn, md) = (v.0 as i128, v.1 as i128, m.0 as i128, m.1 as i128);
        let (wn, wd, kn, kd) = (w.0 as i128, w.1 as i128, k.0 as i128, k.1 as i128);
        let a_min = (vn * md - mn * vd, vd * md);
        let a_max = (vn * md + mn * vd, vd * md);
        let b_min = (wn * kd - kn * wd, wd * kd);
        let b_max = (wn * kd + kn * wd, wd * kd);
        let want = if vn * wd > wn * vd {
            wide_at_most(a_min, b_max)
        } else {
            wide_at_most(b_min, a_max)
        };
        assert_eq!(got, want);
        if mn >= 0 && kn >= 0 {
            assert_eq!(got, wide_at_most(a_min, b_max) && wide_at_most(b_min, a_max));
            assert_eq!(got, uncertainty::UncertainValue::overlap(&b, &a));
            assert!(uncertainty::UncertainValue::overlap(&a, &a));
        }
        total += 1;
        if got {
            met += 1;
        }
    }
    assert!(total > 5000);
    assert!(met > 100 && met < total);
}
