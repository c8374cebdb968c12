use approx::AbsDiffEq;
use uncertainty::{AbUnc, RelUnc, Scalar, UncVal, Uncertainty};

fn frac(n: i64, d: i64) -> Scalar {
    Scalar::new(n, d)
}

fn as_float(s: Scalar) -> f64 {
    if s.is_defined() {
        s.numer() as f64 / s.denom() as f64
    } else {
        f64::NAN
    }
}

fn near(a: f64, b: f64) -> bool {
    f64::abs_diff_eq(&a, &b, f64::default_epsilon())
}

#[test]
fn convert_ab_from_f64() {
    let x: AbUnc = frac(1, 1).into();
    assert!(near(as_float(x.val()), 1.0));
    assert!(near(as_float(x.unc()), 0.0));
}

#[test]
fn convert_rel_from_f64() {
    let x: RelUnc = frac(1, 1).into();
    assert!(near(as_float(x.val()), 1.0));
    assert!(near(as_float(x.unc()), 0.0));
}

#[test]
fn convert_rel_from_ab() {
    let x = UncVal::ab(frac(10, 1), frac(1, 1)).to_rel();

    assert!(near(as_float(x.val()), 10.0));
    assert!(near(as_float(x.unc()), 0.1));
}

#[test]
fn convert_ab_from_rel() {
    let x = UncVal::rel(frac(10, 1), frac(1, 10)).to_ab();

    assert!(near(as_float(x.val()), 10.0));
    assert!(near(as_float(x.unc()), 1.0));
}

#[test]
fn from_relative_into_absolute() {
    let x: AbUnc = UncVal::rel(frac(2, 1), frac(1, 10)).into();
    assert!(near(as_float(x.unc()), 0.2));
    assert_eq!(x, AbUnc::new(frac(2, 1), frac(1, 5)));

    let y = AbUnc::from(frac(2, 1));
    assert!(near(as_float(y.val()), 2.0));
    assert!(near(as_float(y.unc()), 0.0));
}

#[test]
fn from_absolute_into_relative() {
    let x: RelUnc = UncVal::ab(frac(35, 10), frac(35, 100)).into();
    assert_eq!(x, RelUnc::new(frac(35, 10), frac(1, 10)));
}

#[test]
fn scalar_lift_keeps_value_and_has_no_uncertainty() {
    let x = frac(-73, 5);
    let a = AbUnc::from(x);
    let r = RelUnc::from(x);
    assert_eq!(a.val(), x);
    assert_eq!(a.unc(), Scalar::zero());
    assert_eq!(r.val(), x);
    assert_eq!(r.unc(), Scalar::zero());
}

#[test]
fn round_trip_restores_value_and_margin() {
    let a = AbUnc::new(frac(10, 1), frac(1, 1));
    let r = a.to_rel();
    assert_eq!(r, RelUnc::new(frac(10, 1), frac(1, 10)));
    assert_eq!(r.to_ab(), a);
    assert!(near(as_float(r.to_ab().unc()), 1.0));

    let b = AbUnc::new(frac(-7, 3), frac(22, 7));
    assert_eq!(b.to_rel().to_ab(), b);
}

#[test]
fn conversion_to_itself_changes_nothing() {
    let a = AbUnc::new(frac(3, 1), frac(1, 4));
    assert_eq!(a.to_ab(), a);
    let r = RelUnc::new(frac(3, 1), frac(1, 4));
    assert_eq!(r.to_rel(), r);
}

#[test]
fn zero_value_has_no_relative_form() {
    let a = AbUnc::new(frac(0, 1), frac(1, 2));
    let r = a.to_rel();
    assert_eq!(r.val(), frac(0, 1));
    assert!(!r.unc().is_defined());
    assert_eq!(r.unc(), Scalar::undefined());
}

#[test]
fn round_trip_fails_where_fraction_cannot_be_held() {
    let a = AbUnc::new(frac(9223372036854775807, 1), frac(1, 9223372036854775807));
    let r = a.to_rel();
    assert!(!r.unc().is_defined());
    assert!(!r.to_ab().unc().is_defined());
}
