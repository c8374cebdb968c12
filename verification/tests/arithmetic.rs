use approx::AbsDiffEq;
use uncertainty::{AbUnc, RelUnc, Scalar, UncVal, UncertainValue, Uncertainty};

fn q(n: i64, d: i64) -> Scalar {
    Scalar::new(n, d)
}

fn float(s: Scalar) -> f64 {
    if s.is_defined() {
        s.numer() as f64 / s.denom() as f64
    } else {
        f64::NAN
    }
}

fn close(a: f64, b: f64) -> bool {
    f64::abs_diff_eq(&a, &b, f64::default_epsilon())
}

#[test]
fn add_test_both_unc() {
    let one = AbUnc::new(q(1, 1), q(1, 10));
    let two = AbUnc::new(q(2, 1), q(2, 10));
    let sum = one + two;

    assert!(close(float(sum.val()), 3.0));
    assert!(close(float(sum.unc()), 0.3));
    assert_eq!(sum, UncVal::ab(q(3, 1), q(3, 10)));
}

#[test]
fn add_test_left_unc() {
    let one = AbUnc::new(q(1, 1), q(1, 10));
    let two = q(2, 1);
    let sum = one + two;

    assert!(close(float(sum.val()), 3.0));
    assert!(close(float(sum.unc()), 0.1));
    assert_eq!(sum, UncVal::ab(q(3, 1), q(1, 10)));
}

#[test]
fn add_test_right_unc() {
    let one = q(2, 1);
    let two = AbUnc::new(q(1, 1), q(1, 10));
    let sum = one + two;

    assert!(close(float(sum.val()), 3.0));
    assert!(close(float(sum.unc()), 0.1));
    assert_eq!(sum, UncVal::ab(q(3, 1), q(1, 10)));
}

#[test]
fn sub_test_both_unc() {
    let one = AbUnc::new(q(1, 1), q(1, 10));
    let two = AbUnc::new(q(2, 1), q(2, 10));
    let diff = one - two;

    assert!(close(float(diff.val()), -1.0));
    assert!(close(float(diff.unc()), 0.3));
    assert_eq!(diff, UncVal::ab(q(-1, 1), q(3, 10)));
}

#[test]
fn sub_test_left_unc() {
    let one = AbUnc::new(q(1, 1), q(1, 10));
    let two = q(2, 1);
    let diff = one - two;

    assert!(close(float(diff.val()), -1.0));
    assert!(close(float(diff.unc()), 0.1));
    assert_eq!(diff, UncVal::ab(q(-1, 1), q(1, 10)));
}

#[test]
fn sub_test_right_unc() {
    let one = q(2, 1);
    let two = AbUnc::new(q(1, 1), q(1, 10));
    let diff = one - two;

    assert!(close(float(diff.val()), 1.0));
    assert!(close(float(diff.unc()), 0.1));
    assert_eq!(diff, UncVal::ab(q(1, 1), q(1, 10)));
}

#[test]
fn scalar_minus_value_is_lifted_scalar_minus_value() {
    let two = q(2, 1);
    let x = AbUnc::new(q(1, 3), q(1, 10));
    assert_eq!(two - x, AbUnc::from(two) - x);
    assert_eq!(two - x, AbUnc::new(q(5, 3), q(1, 10)));
    assert_eq!(x - two, AbUnc::new(q(-5, 3), q(1, 10)));
}

#[test]
fn mul_test_both_unc() {
    let one = RelUnc::new(q(1, 1), q(1, 10));
    let two = RelUnc::new(q(2, 1), q(1, 10));
    let prod = one * two;

    assert!(close(float(prod.val()), 2.0));
    assert!(close(float(prod.unc()), 0.2));
    assert_eq!(prod, UncVal::rel(q(2, 1), q(2, 10)));
}

#[test]
fn mul_test_left_unc() {
    let one = RelUnc::new(q(1, 1), q(1, 10));
    let two = q(2, 1);
    let prod = one * two;

    assert!(close(float(prod.val()), 2.0));
    assert!(close(float(prod.unc()), 0.1));
}

#[test]
fn mul_test_right_unc() {
    let one = q(2, 1);
    let two = RelUnc::new(q(1, 1), q(1, 10));
    let prod = one * two;

    assert!(close(float(prod.val()), 2.0));
    assert!(close(float(prod.unc()), 0.1));
}

#[test]
fn div_test_both_unc() {
    let one = RelUnc::new(q(10, 1), q(1, 10));
    let two = RelUnc::new(q(2, 1), q(1, 10));
    let quot = one / two;

    assert!(close(float(quot.val()), 5.0));
    assert!(close(float(quot.unc()), 0.2));
    assert_eq!(quot, UncVal::rel(q(5, 1), q(1, 5)));
}

#[test]
fn div_test_left_unc() {
    let one = RelUnc::new(q(1, 1), q(1, 10));
    let two = q(2, 1);
    let quot = one / two;

    assert!(close(float(quot.val()), 0.5));
    assert!(close(float(quot.unc()), 0.1));
}

#[test]
fn div_test_right_unc() {
    let one = q(2, 1);
    let two = RelUnc::new(q(1, 1), q(1, 10));
    let quot = one / two;

    assert!(close(float(quot.val()), 2.0));
    assert!(close(float(quot.unc()), 0.1));
}

#[test]
fn test_add_and_sub() {
    let one = UncVal::ab(q(10, 1), q(5, 10));
    let two = q(45, 10);
    let three = UncVal::rel(q(20, 1), q(1, 10)); // 10% uncertainty is 2.0
    let eq = one + two - three.as_ab();

    assert!(close(float(eq.val), -5.5));
    assert!(close(float(eq.unc), 2.5));
}

#[test]
fn test_div_and_mul() {
    let one = UncVal::rel(q(20, 1), q(5, 100));
    let two = q(2, 1);
    let three = UncVal::ab(q(35, 10), q(35, 100)); // 0.35 ab uncertainty is 10%
    let eq = one / two * three.as_rel();

    assert!(close(float(eq.val()), 35.0));
    assert!(close(float(eq.unc()), 0.15));
}

#[test]
fn test_all_ops() {
    let two = UncVal::ab(q(2, 1), q(2, 100));
    let three = UncVal::ab(q(3, 1), q(3, 100));
    let four = RelUnc::from(q(4, 1));
    let five = UncVal::rel(q(5, 1), q(1, 10));
    let eq = ((two + three).as_rel() / five * four).as_ab() - two;

    assert!(close(float(eq.val()), 2.0));
    assert!(close(float(eq.unc()), 0.46));
    assert_eq!(eq, AbUnc::new(q(2, 1), q(46, 100)));
}

#[test]
fn powi_cubes_value_and_triples_fraction() {
    let two = RelUnc::new(q(2, 1), q(1, 100));
    let eight = two.powi(3);

    assert!(close(float(eight.val()), 8.0));
    assert!(close(float(eight.unc()), 0.03));
    assert_eq!(eight, RelUnc::new(q(8, 1), q(3, 100)));
}

#[test]
fn powi_of_zero_exponent_is_one_with_no_uncertainty() {
    let x = RelUnc::new(q(7, 3), q(1, 100)).powi(0);
    assert_eq!(x, RelUnc::new(q(1, 1), q(0, 1)));
}

#[test]
fn powi_of_negative_exponent_inverts() {
    let x = RelUnc::new(q(2, 3), q(1, 100)).powi(-2);
    assert_eq!(x, RelUnc::new(q(9, 4), q(-2, 100)));
    let z = RelUnc::new(q(0, 1), q(1, 100)).powi(-1);
    assert!(!z.val().is_defined());
    assert_eq!(z.unc(), q(-1, 100));
}

#[test]
fn chained_arithmetic_matches_hand_computation() {
    let one = UncVal::ab(q(146, 10), q(2, 10));
    let two = UncVal::rel(q(147, 10), q(1369, 100000));
    let three = UncVal::rel(q(2, 1), q(5, 100));

    let eq: AbUnc = one + two.to_ab();
    let eq: RelUnc = eq.to_rel() * three;

    assert!(f64::abs_diff_eq(&float(eq.val()), &58.6, 0.0000001));
    assert!(f64::abs_diff_eq(&float(eq.unc()), &0.0636943, 0.0000001));
    assert_eq!(eq.val(), q(586, 10));
    assert_eq!(eq.unc(), q(1866243, 29300000));
}

#[test]
fn powf_with_whole_power_cubes_value_and_triples_fraction() {
    let two = RelUnc::new(q(2, 1), q(1, 100));
    let eight = two.powf(q(3, 1));

    assert!(close(float(eight.val()), 8.0));
    assert!(close(float(eight.unc()), 0.03));
    assert_eq!(eight, two.powi(3));
}

#[test]
fn powf_with_fraction_takes_exact_root() {
    let x = RelUnc::new(q(9, 4), q(1, 100)).powf(q(3, 2));
    assert_eq!(x, RelUnc::new(q(27, 8), q(3, 200)));
    let y = RelUnc::new(q(2, 1), q(1, 100)).powf(q(1, 2));
    assert!(!y.val().is_defined());
    assert_eq!(y.unc(), q(1, 200));
}
