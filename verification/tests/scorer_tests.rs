use ticker_score::binary64::Binary64;
use ticker_score::chart::{Chart, ChartError, ChartResult};
use ticker_score::error::{ScoreError, SeriesError};
use ticker_score::scorer::{horizon, Due, HorizonRates, Scorer, HORIZONS};

fn num(x: f64) -> Binary64 {
    Binary64::from_bits(x.to_bits())
}

fn chart_of(prices: &[Option<f64>]) -> Chart {
    let series: Vec<Option<Binary64>> = prices.iter().map(|p| p.map(num)).collect();
    Chart { result: Some(vec![ChartResult { adjclose: vec![series] }]), error: None }
}

fn unknown_ticker() -> Chart {
    Chart {
        result: None,
        error: Some(ChartError {
            code: "Not Found".to_string(),
            description: Some("No data found, symbol may be delisted".to_string()),
        }),
    }
}

fn expect_chart(scorer: &Scorer, years: u16, url: &str) {
    match scorer.due() {
        Due::Chart { years: y, url: u } => {
            assert_eq!(y, years);
            assert_eq!(u, url);
        }
        other => panic!("a chart should be due, not {:?}", other),
    }
}

fn expect_rate(scorer: &Scorer, periods: u16, present: f64, future: f64) {
    match scorer.due() {
        Due::Rate { periods: n, present: p, future: f } => {
            assert_eq!(n, periods);
            assert_eq!(f64::from_bits(p.to_bits()), present);
            assert_eq!(f64::from_bits(f.to_bits()), future);
        }
        other => panic!("a rate should be due, not {:?}", other),
    }
}

#[test]
fn horizons_are_five_ten_and_twenty_five_years() {
    assert_eq!(HORIZONS, 3);
    assert_eq!(horizon(0), Some(5));
    assert_eq!(horizon(1), Some(10));
    assert_eq!(horizon(2), Some(25));
    assert_eq!(horizon(3), None);
    assert_eq!(horizon(usize::MAX), None);
}

#[test]
fn scorer_asks_for_each_horizon_in_turn() {
    let mut scorer = Scorer::new("AAPL".to_string());
    expect_chart(
        &scorer,
        5,
        "https://query1.finance.yahoo.com/v8/finance/chart/AAPL?range=5y&interval=1d&events=history",
    );
    scorer.take_chart(Ok(chart_of(&[None, Some(-1.0), Some(5.0), Some(6.0), None, Some(7.0)])));
    expect_rate(&scorer, 5, 5.0, 7.0);
    scorer.take_rate(num(0.07));
    expect_chart(
        &scorer,
        10,
        "https://query1.finance.yahoo.com/v8/finance/chart/AAPL?range=10y&interval=1d&events=history",
    );
    scorer.take_chart(Ok(chart_of(&[Some(100.0), Some(121.0)])));
    expect_rate(&scorer, 10, 100.0, 121.0);
    scorer.take_rate(num(0.02));
    expect_chart(
        &scorer,
        25,
        "https://query1.finance.yahoo.com/v8/finance/chart/AAPL?range=25y&interval=1d&events=history",
    );
    scorer.take_chart(Ok(chart_of(&[Some(1.0), None, Some(50.0), None])));
    expect_rate(&scorer, 25, 1.0, 50.0);
    scorer.take_rate(num(0.17));
    assert!(matches!(scorer.due(), Due::Nothing));
    let rates = scorer.verdict().unwrap().unwrap();
    assert_eq!(
        rates,
        HorizonRates { five_years: num(0.07), ten_years: num(0.02), quarter_century: num(0.17) }
    );
}

#[test]
fn scorer_has_no_verdict_while_something_is_due() {
    let scorer = Scorer::new("A".to_string());
    assert!(scorer.verdict().is_none());
    let mut scorer = Scorer::new("A".to_string());
    scorer.take_chart(Ok(chart_of(&[Some(1.0), Some(2.0)])));
    assert!(scorer.verdict().is_none());
    let mut scorer = Scorer::new("A".to_string());
    scorer.take_chart(Ok(chart_of(&[Some(1.0), Some(2.0)])));
    scorer.take_rate(num(0.1));
    scorer.take_chart(Ok(chart_of(&[Some(1.0), Some(2.0)])));
    scorer.take_rate(num(0.1));
    assert!(scorer.verdict().is_none());
}

#[test]
fn upstream_error_on_the_first_horizon_fails_the_ticker() {
    let mut scorer = Scorer::new("NOPE".to_string());
    scorer.take_chart(Ok(unknown_ticker()));
    assert!(matches!(scorer.due(), Due::Nothing));
    match scorer.verdict() {
        Some(Err(ScoreError::Upstream { code, description })) => {
            assert_eq!(code, "Not Found");
            assert_eq!(description, Some("No data found, symbol may be delisted".to_string()));
        }
        other => panic!("{:?}", other),
    }
}

#[test]
fn upstream_error_on_a_later_horizon_fails_the_ticker() {
    let mut scorer = Scorer::new("X".to_string());
    scorer.take_chart(Ok(chart_of(&[Some(1.0), Some(2.0)])));
    scorer.take_rate(num(0.15));
    scorer.take_chart(Ok(chart_of(&[Some(1.0), Some(3.0)])));
    scorer.take_rate(num(0.12));
    scorer.take_chart(Ok(unknown_ticker()));
    assert!(matches!(scorer.due(), Due::Nothing));
    assert!(matches!(scorer.verdict(), Some(Err(ScoreError::Upstream { .. }))));

    let mut scorer = Scorer::new("X".to_string());
    scorer.take_chart(Ok(chart_of(&[Some(1.0), Some(2.0)])));
    scorer.take_rate(num(0.15));
    scorer.take_chart(Ok(unknown_ticker()));
    assert!(matches!(scorer.due(), Due::Nothing));
    scorer.take_chart(Ok(chart_of(&[Some(1.0), Some(3.0)])));
    scorer.take_rate(num(0.12));
    scorer.take_rate(num(0.12));
    assert!(matches!(scorer.due(), Due::Nothing));
    assert!(matches!(scorer.verdict(), Some(Err(ScoreError::Upstream { .. }))));
}

#[test]
fn failed_fetch_is_reported_with_its_horizon() {
    let mut scorer = Scorer::new("X".to_string());
    scorer.take_chart(Ok(chart_of(&[Some(1.0), Some(2.0)])));
    scorer.take_rate(num(0.15));
    scorer.take_chart(Err("connection refused".to_string()));
    assert!(matches!(scorer.due(), Due::Nothing));
    match scorer.verdict() {
        Some(Err(ScoreError::Fetch { horizon, cause })) => {
            assert_eq!(horizon, 10);
            assert_eq!(cause, "connection refused");
        }
        other => panic!("{:?}", other),
    }
}

#[test]
fn series_without_boundaries_fails_the_ticker() {
    let mut scorer = Scorer::new("X".to_string());
    scorer.take_chart(Ok(chart_of(&[None, Some(-1.0), Some(0.0)])));
    assert!(matches!(scorer.due(), Due::Nothing));
    assert!(matches!(scorer.verdict(), Some(Err(ScoreError::NoValidPoint))));
    let mut scorer = Scorer::new("X".to_string());
    scorer.take_chart(Ok(chart_of(&[])));
    assert!(matches!(scorer.verdict(), Some(Err(ScoreError::EmptySeries))));
}

#[test]
fn what_is_not_due_is_ignored() {
    let mut scorer = Scorer::new("X".to_string());
    scorer.take_rate(num(0.5));
    assert!(matches!(scorer.due(), Due::Chart { years: 5, .. }));
    scorer.take_chart(Ok(chart_of(&[Some(1.0), Some(2.0)])));
    scorer.take_chart(Ok(unknown_ticker()));
    expect_rate(&scorer, 5, 1.0, 2.0);
}

#[test]
fn chart_yields_error_before_anything_else() {
    let both = Chart {
        result: Some(vec![ChartResult { adjclose: vec![vec![Some(num(1.0))]] }]),
        error: Some(ChartError { code: "Bad Request".to_string(), description: None }),
    };
    match both.adjusted_closes() {
        Err(ScoreError::Upstream { code, description }) => {
            assert_eq!(code, "Bad Request");
            assert_eq!(description, None);
        }
        other => panic!("{:?}", other),
    }
    assert!(matches!(both.boundaries(), Err(ScoreError::Upstream { .. })));
}

#[test]
fn chart_yields_its_first_series() {
    let chart = Chart {
        result: Some(vec![
            ChartResult { adjclose: vec![vec![Some(num(1.0)), None], vec![Some(num(9.0))]] },
            ChartResult { adjclose: vec![vec![Some(num(8.0))]] },
        ]),
        error: None,
    };
    assert_eq!(chart.adjusted_closes().unwrap(), &vec![Some(num(1.0)), None]);
    let b = chart.boundaries().unwrap();
    assert_eq!((b.first_index, b.last_index), (0, 0));
    assert_eq!(b.first_valid, num(1.0));
    assert_eq!(b.last_valid, num(1.0));
}

#[test]
fn chart_without_series_is_an_empty_series() {
    let nothing = Chart { result: None, error: None };
    assert!(matches!(nothing.adjusted_closes(), Err(ScoreError::EmptySeries)));
    let no_charts = Chart { result: Some(Vec::new()), error: None };
    assert!(matches!(no_charts.adjusted_closes(), Err(ScoreError::EmptySeries)));
    let no_series = Chart { result: Some(vec![ChartResult { adjclose: Vec::new() }]), error: None };
    assert!(matches!(no_series.adjusted_closes(), Err(ScoreError::EmptySeries)));
    assert!(matches!(no_series.boundaries(), Err(ScoreError::EmptySeries)));
    let empty = Chart { result: Some(vec![ChartResult { adjclose: vec![Vec::new()] }]), error: None };
    assert_eq!(empty.adjusted_closes().unwrap().len(), 0);
    assert!(matches!(empty.boundaries(), Err(ScoreError::EmptySeries)));
}

#[test]
fn error_messages() {
    let upstream = ScoreError::Upstream { code: "Not Found".to_string(), description: Some("gone".to_string()) };
    assert_eq!(upstream.message(), "Not Found");
    let fetch = ScoreError::Fetch { horizon: 25, cause: "timed out".to_string() };
    assert_eq!(fetch.message(), "timed out");
    assert_eq!(ScoreError::EmptySeries.message(), "price series is empty");
    assert_eq!(ScoreError::NoValidPoint.message(), "price series has no valid point");
    assert!(matches!(ScoreError::from_series(SeriesError::EmptySeries), ScoreError::EmptySeries));
    assert!(matches!(ScoreError::from_series(SeriesError::NoValidPoint), ScoreError::NoValidPoint));
}
