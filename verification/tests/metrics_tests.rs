use quantara::api::run_backtest;
use quantara::decimal::Dec;
use quantara::domain::{Indicator, PricePoint, Rule, RuleOperator, Strategy, StrategyType, TimeSeries};
use quantara::engine::{BacktestError, PortfolioSnapshot};
use quantara::metrics::calculate_metrics;
use quantara::timeline::NANOS_PER_DAY;

fn d(m: i64, s: u32) -> Dec {
    Dec::new(m, s)
}

fn snap(t: i128, total: i64) -> PortfolioSnapshot {
    PortfolioSnapshot { timestamp: t, total_value: d(total, 0), cash: d(total, 0), holdings_value: Dec::zero() }
}

#[test]
fn metrics_of_empty_history_are_zero() {
    let m = calculate_metrics(&vec![]).unwrap();
    for v in [m.total_return, m.annual_return, m.max_drawdown, m.volatility, m.final_value] {
        assert!(v == Dec::zero());
    }
}

#[test]
fn metrics_return_and_drawdown() {
    let h = vec![snap(1, 100), snap(2, 120), snap(3, 90), snap(4, 150)];
    let m = calculate_metrics(&h).unwrap();
    assert!(m.total_return == d(5, 1));
    assert!(m.max_drawdown == d(25, 2));
    assert!(m.final_value == d(150, 0));
    assert!(m.annual_return == Dec::zero());
    assert!(m.volatility == Dec::zero());
}

#[test]
fn rising_history_has_no_drawdown() {
    let h = vec![snap(1, 100), snap(2, 100), snap(3, 130)];
    let m = calculate_metrics(&h).unwrap();
    assert!(m.max_drawdown == Dec::zero());
    assert!(m.total_return == d(3, 1));
}

#[test]
fn drawdown_is_never_negative() {
    let h = vec![snap(1, 50), snap(2, 10), snap(3, 70), snap(4, 20)];
    let m = calculate_metrics(&h).unwrap();
    assert!(m.max_drawdown.mantissa() >= 0);
    assert!(m.max_drawdown == d(8, 1));
}

#[test]
fn non_positive_start_gives_zero_return() {
    let h = vec![snap(1, -10), snap(2, -5)];
    let m = calculate_metrics(&h).unwrap();
    assert!(m.total_return == Dec::zero());
}

#[test]
fn zero_start_divides_by_zero() {
    let h = vec![snap(1, 0), snap(2, 5)];
    assert!(matches!(calculate_metrics(&h), Err(BacktestError::Arithmetic)));
}

fn bar(day: i128, close: i64) -> PricePoint {
    PricePoint {
        timestamp: day * NANOS_PER_DAY,
        open: d(close, 0),
        high: d(close, 0),
        low: d(close, 0),
        close: d(close, 0),
        volume: None,
    }
}

#[test]
fn backtest_from_100k() {
    let data = vec![TimeSeries { asset_id: 9, data: vec![bar(1, 10), bar(2, 20), bar(3, 40)] }];
    let entry = vec![Rule { left: Indicator::Price, operator: RuleOperator::LessThan, right: Indicator::Value(d(15, 0)) }];
    let strategy = Strategy {
        id: 1,
        name: "dip".to_string(),
        strategy_type: StrategyType::RuleBased { entry_rules: entry, exit_rules: vec![] },
        rebalance_interval_days: Some(30),
    };
    let m = run_backtest(&strategy, &data).unwrap();
    // Buys 10 000 units at 10 on day 1; worth 400 000 on day 3.
    assert!(m.final_value == d(400000, 0));
    assert!(m.total_return == d(3, 0));
    assert!(m.max_drawdown == Dec::zero());
}

#[test]
fn backtest_without_data_has_zero_metrics() {
    let strategy = Strategy {
        id: 1,
        name: "rules".to_string(),
        strategy_type: StrategyType::RuleBased { entry_rules: vec![], exit_rules: vec![] },
        rebalance_interval_days: Some(1),
    };
    let m = run_backtest(&strategy, &vec![]).unwrap();
    assert!(m.total_return == Dec::zero());
    assert!(m.final_value == Dec::zero());
    assert!(m.max_drawdown == Dec::zero());
}

#[test]
fn backtest_of_script_strategy() {
    let strategy = Strategy {
        id: 3,
        name: "py".to_string(),
        strategy_type: StrategyType::Python { script: "signal = 'HOLD'".to_string() },
        rebalance_interval_days: None,
    };
    let data = vec![TimeSeries {
        asset_id: 5,
        data: vec![PricePoint { timestamp: NANOS_PER_DAY, open: d(1, 0), high: d(1, 0), low: d(1, 0), close: d(1, 0), volume: None }],
    }];
    let m = run_backtest(&strategy, &data).unwrap();
    assert!(m.total_return == Dec::zero());
    assert!(m.final_value == d(100000, 0));
}
