use ticker_score::binary64::Binary64;
use ticker_score::error::SeriesError;
use ticker_score::series::{extract_boundaries, record_highs};

fn point(x: f64) -> Option<Binary64> {
    Some(Binary64::from_bits(x.to_bits()))
}

fn value(b: Binary64) -> f64 {
    f64::from_bits(b.to_bits())
}

#[test]
fn boundaries_skip_gaps_and_non_positive_prices() {
    let series = vec![None, point(-1.0), point(5.0), point(6.0), None, point(7.0)];
    let b = extract_boundaries(&series).unwrap();
    assert_eq!(b.first_index, 2);
    assert_eq!(value(b.first_valid), 5.0);
    assert_eq!(b.last_index, 5);
    assert_eq!(value(b.last_valid), 7.0);
}

#[test]
fn boundaries_of_a_clean_series() {
    let series = vec![point(100.0), point(105.0), point(110.0)];
    let b = extract_boundaries(&series).unwrap();
    assert_eq!((b.first_index, b.last_index), (0, 2));
    assert_eq!(value(b.first_valid), 100.0);
    assert_eq!(value(b.last_valid), 110.0);
}

#[test]
fn boundaries_of_a_single_point() {
    let series = vec![point(3.5)];
    let b = extract_boundaries(&series).unwrap();
    assert_eq!((b.first_index, b.last_index), (0, 0));
    assert_eq!(value(b.first_valid), 3.5);
    assert_eq!(value(b.last_valid), 3.5);
}

#[test]
fn boundaries_skip_trailing_gaps() {
    let series = vec![point(0.0), point(2.0), point(4.0), None, None];
    let b = extract_boundaries(&series).unwrap();
    assert_eq!((b.first_index, b.last_index), (1, 2));
    assert_eq!(value(b.first_valid), 2.0);
    assert_eq!(value(b.last_valid), 4.0);
}

#[test]
fn last_boundary_is_not_checked_for_its_sign() {
    let series = vec![point(5.0), point(6.0), point(-3.0), None];
    let b = extract_boundaries(&series).unwrap();
    assert_eq!((b.first_index, b.last_index), (0, 2));
    assert_eq!(value(b.last_valid), -3.0);
    let zero = vec![None, point(5.0), point(0.0)];
    let b = extract_boundaries(&zero).unwrap();
    assert_eq!((b.first_index, b.last_index), (1, 2));
    assert_eq!(value(b.last_valid), 0.0);
}

#[test]
fn first_boundary_is_not_a_price_that_is_no_number() {
    let series = vec![point(f64::NAN), point(2.0), point(f64::NAN)];
    let b = extract_boundaries(&series).unwrap();
    assert_eq!((b.first_index, b.last_index), (1, 2));
    assert!(value(b.last_valid).is_nan());
}

#[test]
fn empty_series_fails() {
    let series: Vec<Option<Binary64>> = Vec::new();
    assert_eq!(extract_boundaries(&series).unwrap_err(), SeriesError::EmptySeries);
}

#[test]
fn series_of_gaps_fails() {
    let series: Vec<Option<Binary64>> = vec![None, None, None];
    assert_eq!(extract_boundaries(&series).unwrap_err(), SeriesError::NoValidPoint);
    let one: Vec<Option<Binary64>> = vec![None];
    assert_eq!(extract_boundaries(&one).unwrap_err(), SeriesError::NoValidPoint);
}

#[test]
fn series_without_positive_price_fails() {
    let series = vec![point(-1.0), point(0.0), None, point(-0.0), point(-7.5)];
    assert_eq!(extract_boundaries(&series).unwrap_err(), SeriesError::NoValidPoint);
    let nan = vec![point(f64::NAN), None];
    assert_eq!(extract_boundaries(&nan).unwrap_err(), SeriesError::NoValidPoint);
}

#[test]
fn record_highs_of_a_series() {
    let series = vec![None, point(3.0), point(2.0), point(3.0), None, point(4.0), point(10.0), point(9.0)];
    let highs = record_highs(&series);
    assert_eq!(highs.records, vec![1, 5, 6]);
    assert_eq!(highs.present, 6);
}

#[test]
fn record_highs_start_above_zero() {
    let series = vec![point(-2.0), point(0.0), point(-1.0), point(0.5), point(0.5), point(f64::NAN), point(0.75)];
    let highs = record_highs(&series);
    assert_eq!(highs.records, vec![3, 6]);
    assert_eq!(highs.present, 7);
}

#[test]
fn record_highs_of_nothing() {
    let empty: Vec<Option<Binary64>> = Vec::new();
    let highs = record_highs(&empty);
    assert_eq!(highs.records, Vec::<usize>::new());
    assert_eq!(highs.present, 0);
    let gaps: Vec<Option<Binary64>> = vec![None, None];
    let highs = record_highs(&gaps);
    assert_eq!(highs.records, Vec::<usize>::new());
    assert_eq!(highs.present, 0);
}

#[test]
fn record_highs_of_a_rising_series() {
    let series = vec![point(1.0), point(2.0), point(3.0), point(f64::INFINITY)];
    let highs = record_highs(&series);
    assert_eq!(highs.records, vec![0, 1, 2, 3]);
    assert_eq!(highs.present, 4);
}
