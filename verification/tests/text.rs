use uncertainty::{AbUnc, RelUnc, Scalar};

#[test]
fn whole_scalars_read_as_integers() {
    assert_eq!(Scalar::from_int(10).to_string(), "10");
    assert_eq!(Scalar::from_int(0).to_string(), "0");
    assert_eq!(Scalar::from_int(-3).to_string(), "-3");
    assert_eq!(Scalar::from_int(i64::MAX).to_string(), "9223372036854775807");
    assert_eq!(Scalar::from_int(-i64::MAX).to_string(), "-9223372036854775807");
}

#[test]
fn scalars_with_ending_expansion_read_as_decimals() {
    assert_eq!(Scalar::new(146, 10).to_string(), "14.6");
    assert_eq!(Scalar::new(1, 10).to_string(), "0.1");
    assert_eq!(Scalar::new(-1, 2).to_string(), "-0.5");
    assert_eq!(Scalar::new(1369, 100000).to_string(), "0.01369");
    assert_eq!(Scalar::new(1, 8).to_string(), "0.125");
    assert_eq!(Scalar::new(1005, 1000).to_string(), "1.005");
    assert_eq!(
        Scalar::new(1, 4611686018427387904).to_string(),
        "0.00000000000000000021684043449710088680149056017398834228515625"
    );
}

#[test]
fn other_scalars_read_as_fractions() {
    assert_eq!(Scalar::new(1, 3).to_string(), "1/3");
    assert_eq!(Scalar::new(-22, 7).to_string(), "-22/7");
    assert_eq!(Scalar::new(10, 30).to_string(), "1/3");
    assert_eq!(Scalar::new(1, i64::MAX).to_string(), "1/9223372036854775807");
}

#[test]
fn undefined_scalar_reads_as_nan() {
    assert_eq!(Scalar::undefined().to_string(), "NaN");
    assert_eq!(Scalar::new(1, 0).to_string(), "NaN");
}

#[test]
fn absolute_uncertainty_reads_value_then_margin() {
    assert_eq!(AbUnc::new(Scalar::new(146, 10), Scalar::new(2, 10)).to_string(), "14.6 ± 0.2");
    assert_eq!(AbUnc::new(Scalar::from_int(10), Scalar::from_int(1)).to_string(), "10 ± 1");
    assert_eq!(AbUnc::new(Scalar::new(1, 3), Scalar::undefined()).to_string(), "1/3 ± NaN");
}

#[test]
fn relative_uncertainty_reads_value_then_percent() {
    assert_eq!(
        RelUnc::new(Scalar::new(147, 10), Scalar::new(1369, 100000)).to_string(),
        "14.7 ± 1.369%"
    );
    assert_eq!(RelUnc::new(Scalar::from_int(10), Scalar::new(1, 10)).to_string(), "10 ± 10%");
    assert_eq!(RelUnc::new(Scalar::from_int(2), Scalar::zero()).to_string(), "2 ± 0%");
    assert_eq!(
        RelUnc::new(Scalar::from_int(2), Scalar::from_int(i64::MAX)).to_string(),
        "2 ± NaN%"
    );
}
