use ticker_score::binary64::Binary64;

fn of(x: f64) -> Binary64 {
    Binary64::from_bits(x.to_bits())
}

fn samples() -> Vec<f64> {
    vec![
        f64::NEG_INFINITY,
        f64::MIN,
        -1.0e300,
        -121.0,
        -1.0,
        -0.1,
        -f64::MIN_POSITIVE,
        -5e-324,
        -0.0,
        0.0,
        5e-324,
        f64::MIN_POSITIVE,
        0.05,
        0.1,
        0.12,
        1.0,
        5.0,
        6.0,
        7.0,
        110.0,
        1.0e300,
        f64::MAX,
        f64::INFINITY,
    ]
}

#[test]
fn bits_round_trip() {
    for x in samples() {
        assert_eq!(of(x).to_bits(), x.to_bits());
        assert_eq!(f64::from_bits(of(x).to_bits()).to_bits(), x.to_bits());
    }
}

#[test]
fn positive_agrees_with_comparison_to_zero() {
    for x in samples() {
        assert_eq!(of(x).positive(), x > 0.0, "{}", x);
    }
    assert!(!of(f64::NAN).positive());
    assert!(!of(-f64::NAN).positive());
    assert!(!Binary64::from_bits(0x7FF0_0000_0000_0001).positive());
    assert!(!Binary64::from_bits(0xFFFF_FFFF_FFFF_FFFF).positive());
    assert!(Binary64::from_bits(0x7FF0_0000_0000_0000).positive());
    assert!(Binary64::from_bits(1).positive());
    assert!(!Binary64::from_bits(0).positive());
}

#[test]
fn nan_agrees_with_is_nan() {
    for x in samples() {
        assert_eq!(of(x).nan(), x.is_nan());
    }
    assert!(of(f64::NAN).nan());
    assert!(of(-f64::NAN).nan());
    assert!(Binary64::from_bits(0x7FF0_0000_0000_0001).nan());
    assert!(Binary64::from_bits(0xFFF0_0000_0000_0001).nan());
    assert!(!Binary64::from_bits(0x7FF0_0000_0000_0000).nan());
    assert!(!Binary64::from_bits(0xFFF0_0000_0000_0000).nan());
}

#[test]
fn lt_agrees_with_less_than() {
    let mut all = samples();
    all.push(f64::NAN);
    all.push(-f64::NAN);
    for &a in all.iter() {
        for &b in all.iter() {
            assert_eq!(of(a).lt(of(b)), a < b, "{} < {}", a, b);
        }
    }
}

#[test]
fn key_orders_as_the_numbers_are_ordered() {
    let all = samples();
    for &a in all.iter() {
        for &b in all.iter() {
            assert_eq!(of(a).key() < of(b).key(), a < b, "{} < {}", a, b);
            assert_eq!(of(a).key() == of(b).key(), a == b, "{} == {}", a, b);
        }
    }
}

#[test]
fn key_exact_values() {
    assert_eq!(of(0.0).key(), 0);
    assert_eq!(of(-0.0).key(), 0);
    assert_eq!(of(1.0).key(), 0x3FF0_0000_0000_0000);
    assert_eq!(of(-1.0).key(), -0x3FF0_0000_0000_0000);
    assert_eq!(of(f64::INFINITY).key(), 0x7FF0_0000_0000_0000);
    assert_eq!(of(f64::NEG_INFINITY).key(), -0x7FF0_0000_0000_0000);
    assert_eq!(Binary64::from_bits(u64::MAX).key(), -i64::MAX);
}

#[test]
fn sorting_key_puts_no_number_below_every_number() {
    for x in samples() {
        assert_eq!(of(x).sorting_key(), of(x).key());
        assert!(of(f64::NAN).sorting_key() < of(x).sorting_key());
        assert!(of(-f64::NAN).sorting_key() < of(x).sorting_key());
    }
    assert_eq!(of(f64::NAN).sorting_key(), i64::MIN);
    assert_eq!(of(f64::NAN).sorting_key(), of(-f64::NAN).sorting_key());
}
