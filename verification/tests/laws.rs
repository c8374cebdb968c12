use uncertainty::{AbUnc, Scalar};

fn r(n: i64, d: i64) -> Scalar {
    Scalar::new(n, d)
}

#[test]
fn addition_commutes_on_values() {
    let a = AbUnc::new(r(1, 3), r(1, 10));
    let b = AbUnc::new(r(-5, 7), r(2, 10));
    assert_eq!(a + b, b + a);
    assert_eq!(a + b, AbUnc::new(r(-8, 21), r(3, 10)));
}

#[test]
fn addition_associates_on_values() {
    let a = AbUnc::new(r(1, 3), r(1, 10));
    let b = AbUnc::new(r(-5, 7), r(2, 10));
    let c = AbUnc::new(r(9, 2), r(1, 4));
    assert_eq!((a + b) + c, a + (b + c));
    assert_eq!((a + b) + c, AbUnc::new(r(173, 42), r(11, 20)));
}

#[test]
fn addition_does_not_associate_past_the_limit() {
    let a = AbUnc::new(r(i64::MAX, 1), r(0, 1));
    let b = AbUnc::new(r(1, 1), r(0, 1));
    let c = AbUnc::new(r(-1, 1), r(0, 1));
    assert!(!((a + b) + c).val.is_defined());
    assert_eq!(a + (b + c), a);
}

#[test]
fn subtraction_adds_uncertainties_in_either_order() {
    let a = AbUnc::new(r(1, 3), r(1, 10));
    let b = AbUnc::new(r(-5, 7), r(2, 10));
    assert_eq!((a - b).unc, (b - a).unc);
    assert_eq!((a - b).unc, r(3, 10));
    assert_eq!((a - b).val, r(22, 21));
    assert_eq!((b - a).val, r(-22, 21));
}

#[test]
fn subtracting_twice_is_subtracting_the_sum() {
    let a = AbUnc::new(r(1, 3), r(1, 10));
    let b = AbUnc::new(r(-5, 7), r(2, 10));
    let c = AbUnc::new(r(9, 2), r(1, 4));
    assert_eq!((a - b) - c, a - (b + c));
    assert_eq!((a - b) - c, AbUnc::new(r(-145, 42), r(11, 20)));
}
