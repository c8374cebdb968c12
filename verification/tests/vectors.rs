use uncertainty::uncvec;
use uncertainty::vec::UncVec;
use uncertainty::{AbUnc, RelUnc, Scalar, Uncertainty};

fn whole(n: i64) -> Scalar {
    Scalar::from_int(n)
}

fn tenth() -> Scalar {
    Scalar::new(1, 10)
}

#[test]
fn vec_ab_stamps_every_value() {
    let vals = vec![whole(1), whole(2), whole(3)];
    let uncertainties = UncVec::ab(vals, tenth());

    assert_eq!(uncertainties.len(), 3);
    assert_eq!(uncertainties[0].val(), whole(1));
    assert_eq!(uncertainties[1].val(), whole(2));
    assert_eq!(uncertainties[2].val(), whole(3));

    for each in uncertainties {
        assert_eq!(each.unc(), tenth());
    }
}

#[test]
fn vec_rel_stamps_every_value() {
    let vals = vec![whole(1), whole(2), whole(3)];
    let uncertainties = UncVec::rel(vals, tenth());

    assert_eq!(uncertainties.len(), 3);
    assert_eq!(uncertainties[0].val(), whole(1));
    assert_eq!(uncertainties[1].val(), whole(2));
    assert_eq!(uncertainties[2].val(), whole(3));

    for each in uncertainties {
        assert_eq!(each.unc(), tenth());
    }
}

#[test]
fn vec_of_nothing_is_nothing() {
    assert!(UncVec::ab(Vec::new(), tenth()).is_empty());
    assert!(UncVec::rel(Vec::new(), tenth()).is_empty());
}

#[test]
fn uncvec_as_ab_keeps_or_converts() {
    let vals = vec![whole(1), whole(2), whole(0)];
    let kept = uncvec::UncVec::ab(vals.clone(), tenth()).as_ab();
    assert_eq!(
        kept,
        vec![
            AbUnc::new(whole(1), tenth()),
            AbUnc::new(whole(2), tenth()),
            AbUnc::new(whole(0), tenth())
        ]
    );
    let converted = uncvec::UncVec::rel(vals, tenth()).as_ab();
    assert_eq!(
        converted,
        vec![
            AbUnc::new(whole(1), tenth()),
            AbUnc::new(whole(2), Scalar::new(1, 5)),
            AbUnc::new(whole(0), whole(0))
        ]
    );
}

#[test]
fn uncvec_as_rel_keeps_or_converts() {
    let vals = vec![whole(1), whole(2), whole(0)];
    let kept = uncvec::UncVec::rel(vals.clone(), tenth()).as_rel();
    assert_eq!(
        kept,
        vec![
            RelUnc::new(whole(1), tenth()),
            RelUnc::new(whole(2), tenth()),
            RelUnc::new(whole(0), tenth())
        ]
    );
    let converted = uncvec::UncVec::ab(vals, tenth()).as_rel();
    assert_eq!(
        converted,
        vec![
            RelUnc::new(whole(1), tenth()),
            RelUnc::new(whole(2), Scalar::new(1, 20)),
            RelUnc::new(whole(0), Scalar::undefined())
        ]
    );
}
