use quantara::decimal::{Dec, MAX_MANTISSA};
use quantara::domain::{PricePoint, TimeSeries};
use quantara::engine::{BacktestEngine, BacktestError};

fn d(m: i64, s: u32) -> Dec {
    Dec::new(m, s)
}

fn parts(x: Dec) -> (i128, u32) {
    (x.mantissa(), x.scale())
}

fn closes(values: &[Dec]) -> Vec<TimeSeries> {
    let data = values
        .iter()
        .enumerate()
        .map(|(i, &c)| PricePoint { timestamp: i as i128, open: c, high: c, low: c, close: c, volume: None })
        .collect();
    vec![TimeSeries { asset_id: 1, data }]
}

fn sma(values: &[Dec], period: usize) -> Result<Option<Dec>, BacktestError> {
    let e = BacktestEngine::new(Dec::zero());
    let s = closes(values);
    e.calculate_sma(1, values.len() as i128, period, &s)
}

#[test]
fn equality_is_numeric() {
    assert!(d(10, 1) == d(100, 2));
    assert!(d(10, 1) != d(101, 2));
    assert!(Dec::from_parts(0, 28).unwrap() == Dec::zero());
    assert!(d(-5, 0) != d(5, 0));
}

#[test]
fn from_parts_checks_range() {
    assert!(Dec::from_parts(MAX_MANTISSA + 1, 0).is_none());
    assert!(Dec::from_parts(-MAX_MANTISSA - 1, 0).is_none());
    assert!(Dec::from_parts(1, 29).is_none());
    assert_eq!(parts(Dec::from_parts(-7, 28).unwrap()), (-7, 28));
    assert_eq!(parts(Dec::from_parts(MAX_MANTISSA, 3).unwrap()), (MAX_MANTISSA, 3));
}

#[test]
fn constants() {
    assert_eq!(parts(Dec::zero()), (0, 0));
    assert_eq!(parts(Dec::one()), (1, 0));
    assert_eq!(parts(Dec::one_hundred()), (100, 0));
    assert_eq!(parts(Dec::from_usize(42)), (42, 0));
    assert_eq!(parts(Dec::new(-1234, 3)), (-1234, 3));
}

#[test]
fn sum_keeps_the_larger_scale() {
    // (1.5 + 2.25) / 1 through a moving average of period 2 over [1.5, 2.25]: 1.875
    let avg = sma(&[d(15, 1), d(225, 2)], 2).unwrap().unwrap();
    assert!(avg == d(1875, 3));
}

#[test]
fn division_rounds_to_28_digits() {
    let avg = sma(&[d(1, 0), Dec::zero(), Dec::zero()], 3).unwrap().unwrap();
    assert_eq!(parts(avg), (3333333333333333333333333333, 28));
}

#[test]
fn sum_overflow_is_an_error() {
    let max = Dec::from_parts(MAX_MANTISSA, 0).unwrap();
    assert!(matches!(sma(&[max, max], 2), Err(BacktestError::Arithmetic)));
}
