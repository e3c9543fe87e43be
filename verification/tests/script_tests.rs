use quantara::decimal::Dec;
use quantara::domain::Position;
use quantara::python::{run_script, split_nanos};
use quantara::script::{MarketQuote, ScriptInputs, ScriptOutcome};

const A: u128 = 0x67e5_5044_10b1_426f_9247_bb68_0e5f_e0c8;

fn inputs() -> ScriptInputs {
    ScriptInputs {
        cash: Dec::new(1250, 1),
        positions: vec![Position { asset_id: A, quantity: Dec::new(3, 0), average_price: Dec::new(10, 0) }],
        market: vec![MarketQuote { asset_id: A, price: Dec::new(205, 1), volume: None }],
        timestamp: 86_400_000_000_000,
    }
}

#[test]
fn script_sees_its_inputs() {
    let script = "p = portfolio['positions']['67e55044-10b1-426f-9247-bb680e5fe0c8']\n\
                  m = market['67e55044-10b1-426f-9247-bb680e5fe0c8']\n\
                  signal = '|'.join([portfolio['cash'], p['quantity'], p['avg_price'], m['price'], str(m['volume']), timestamp])";
    match run_script(script, &inputs()) {
        ScriptOutcome::Signal(s) => assert_eq!(s, "125.0|3|10|20.5|None|1970-01-02T00:00:00+00:00"),
        _ => panic!("expected a signal"),
    }
}

#[test]
fn script_without_signal() {
    assert!(matches!(run_script("x = 1", &inputs()), ScriptOutcome::NoSignal));
}

#[test]
fn script_that_raises_fails() {
    match run_script("raise ValueError('boom')", &inputs()) {
        ScriptOutcome::Failed(m) => assert_eq!(m, "Python Error: ValueError: boom"),
        _ => panic!("expected a failure"),
    }
}

#[test]
fn signal_that_is_not_text_fails() {
    match run_script("signal = 42", &inputs()) {
        ScriptOutcome::Failed(m) => assert!(m.starts_with("Python Error: ")),
        _ => panic!("expected a failure"),
    }
}

#[test]
fn nanoseconds_split_into_seconds() {
    assert_eq!(split_nanos(1_500_000_000), Some((1, 500_000_000)));
    assert_eq!(split_nanos(-1), Some((-1, 999_999_999)));
    assert_eq!(split_nanos(-1_000_000_000), Some((-1, 0)));
    assert_eq!(split_nanos(i128::MAX), None);
}
