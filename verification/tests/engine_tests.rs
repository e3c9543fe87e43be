use quantara::decimal::Dec;
use quantara::domain::{
    Indicator, OrderSide, Position, PricePoint, Rule, RuleOperator, Strategy, StrategyType,
    TimeSeries,
};
use quantara::engine::{BacktestEngine, BacktestError};
use quantara::timeline::{backtest_timestamps, elapsed_whole_days, NANOS_PER_DAY};

const A: u128 = 0x67e5_5044_10b1_426f_9247_bb68_0e5f_e0c8;
const B: u128 = 0x1111_2222_3333_4444_5555_6666_7777_8888;

fn d(m: i64, s: u32) -> Dec {
    Dec::new(m, s)
}

fn same(x: Dec, m: i64, s: u32) -> bool {
    x == d(m, s)
}

fn bar(day: i128, close: i64) -> PricePoint {
    PricePoint {
        timestamp: day * NANOS_PER_DAY,
        open: d(close, 0),
        high: d(close, 0),
        low: d(close, 0),
        close: d(close, 0),
        volume: Some(d(1000, 0)),
    }
}

fn series(id: u128, closes: &[(i128, i64)]) -> TimeSeries {
    TimeSeries { asset_id: id, data: closes.iter().map(|&(t, c)| bar(t, c)).collect() }
}

fn rule(left: Indicator, operator: RuleOperator, right: Indicator) -> Rule {
    Rule { left, operator, right }
}

fn rule_strategy(entry: Vec<Rule>, exit: Vec<Rule>, interval: Option<i64>) -> Strategy {
    Strategy {
        id: 7,
        name: "test".to_string(),
        strategy_type: StrategyType::RuleBased { entry_rules: entry, exit_rules: exit },
        rebalance_interval_days: interval,
    }
}

fn day(n: i128) -> i128 {
    n * NANOS_PER_DAY
}

#[test]
fn price_lookup() {
    let e = BacktestEngine::new(d(100, 0));
    let s = vec![series(A, &[(1, 10), (2, 20)])];
    assert!(same(e.get_price_at(A, day(2), &s).unwrap(), 20, 0));
    assert!(e.get_price_at(A, day(3), &s).is_none());
    assert!(e.get_price_at(B, day(1), &s).is_none());
}

#[test]
fn sma_of_recent_closes() {
    let e = BacktestEngine::new(d(100, 0));
    let s = vec![series(A, &[(1, 10), (2, 20), (3, 30)])];
    assert!(same(e.calculate_sma(A, day(3), 2, &s).unwrap().unwrap(), 25, 0));
    assert!(same(e.calculate_sma(A, day(2), 2, &s).unwrap().unwrap(), 15, 0));
    assert!(same(e.calculate_sma(A, day(3), 3, &s).unwrap().unwrap(), 20, 0));
    assert!(e.calculate_sma(A, day(3), 4, &s).unwrap().is_none());
    assert!(e.calculate_sma(B, day(3), 1, &s).unwrap().is_none());
}

#[test]
fn sma_of_zero_period_divides_by_zero() {
    let e = BacktestEngine::new(d(100, 0));
    let s = vec![series(A, &[(1, 10)])];
    assert!(matches!(e.calculate_sma(A, day(1), 0, &s), Err(BacktestError::Arithmetic)));
}

#[test]
fn rsi_values() {
    let e = BacktestEngine::new(d(100, 0));
    let s = vec![series(A, &[(1, 10), (2, 12), (3, 10)])];
    assert!(same(e.calculate_rsi(A, day(3), 2, &s).unwrap().unwrap(), 50, 0));
    let up = vec![series(A, &[(1, 10), (2, 12), (3, 15)])];
    assert!(same(e.calculate_rsi(A, day(3), 2, &up).unwrap().unwrap(), 100, 0));
    assert!(e.calculate_rsi(A, day(3), 3, &s).unwrap().is_none());
    assert!(matches!(e.calculate_rsi(A, day(3), usize::MAX, &s), Err(BacktestError::Arithmetic)));
}

#[test]
fn rule_evaluation() {
    let e = BacktestEngine::new(d(100, 0));
    let s = vec![series(A, &[(1, 20)])];
    let gt = rule(Indicator::Price, RuleOperator::GreaterThan, Indicator::Value(d(15, 0)));
    let lt = rule(Indicator::Price, RuleOperator::LessThan, Indicator::Value(d(15, 0)));
    let eq = rule(Indicator::Price, RuleOperator::Equal, Indicator::Value(d(200, 1)));
    let cross = rule(Indicator::Price, RuleOperator::CrossesOver, Indicator::Value(d(999, 0)));
    let missing = rule(Indicator::SMA(5), RuleOperator::LessThan, Indicator::Value(d(999, 0)));
    assert!(e.evaluate_rule(&gt, A, day(1), &s).unwrap());
    assert!(!e.evaluate_rule(&lt, A, day(1), &s).unwrap());
    assert!(e.evaluate_rule(&eq, A, day(1), &s).unwrap());
    assert!(e.evaluate_rule(&cross, A, day(1), &s).unwrap());
    assert!(!e.evaluate_rule(&missing, A, day(1), &s).unwrap());
    assert!(e.should_enter_rules(A, day(1), &vec![gt, eq], &s).unwrap());
    assert!(!e.should_enter_rules(A, day(1), &vec![gt, lt], &s).unwrap());
    assert!(e.should_exit_rules(A, day(1), &vec![lt, gt], &s).unwrap());
    assert!(!e.should_exit_rules(A, day(1), &vec![lt], &s).unwrap());
}

#[test]
fn no_rules_never_enter_or_exit() {
    let e = BacktestEngine::new(d(100, 0));
    let s = vec![series(A, &[(1, 20)])];
    assert!(!e.should_enter_rules(A, day(1), &vec![], &s).unwrap());
    assert!(!e.should_exit_rules(A, day(1), &vec![], &s).unwrap());
}

#[test]
fn ema_is_computed_as_sma() {
    let e = BacktestEngine::new(d(100, 0));
    let s = vec![series(A, &[(1, 10), (2, 20)])];
    let v = e.calculate_indicator(&Indicator::EMA(2), A, day(2), &s).unwrap().unwrap();
    assert!(same(v, 15, 0));
}

#[test]
fn buy_spends_all_cash() {
    let mut e = BacktestEngine::new(d(1000, 0));
    let s = vec![series(A, &[(1, 20)])];
    e.execute_buy(A, day(1), &s).unwrap();
    assert!(e.portfolio.cash == Dec::zero());
    assert_eq!(e.portfolio.positions.len(), 1);
    let p = e.portfolio.positions[0];
    assert_eq!(p.asset_id, A);
    assert!(same(p.quantity, 50, 0));
    assert!(same(p.average_price, 20, 0));
    assert_eq!(e.trades.len(), 1);
    assert_eq!(e.trades[0].side, OrderSide::Buy);
    assert!(same(e.trades[0].quantity, 50, 0));
    assert!(same(e.trades[0].price, 20, 0));
    assert_eq!(e.trades[0].timestamp, day(1));
}

#[test]
fn buy_without_price_or_cash_does_nothing() {
    let s = vec![series(A, &[(1, 20)])];
    let mut e = BacktestEngine::new(d(1000, 0));
    e.execute_buy(A, day(2), &s).unwrap();
    assert_eq!(e.trades.len(), 0);
    let mut broke = BacktestEngine::new(Dec::zero());
    broke.execute_buy(A, day(1), &s).unwrap();
    assert_eq!(broke.trades.len(), 0);
    assert_eq!(broke.portfolio.positions.len(), 0);
}

#[test]
fn buy_at_zero_price_fails() {
    let s = vec![series(A, &[(1, 0)])];
    let mut e = BacktestEngine::new(d(1000, 0));
    assert!(matches!(e.execute_buy(A, day(1), &s), Err(BacktestError::Arithmetic)));
}

#[test]
fn buy_adds_to_existing_position_with_average_price() {
    let s = vec![series(A, &[(1, 30)])];
    let mut e = BacktestEngine::new(d(600, 0));
    e.portfolio.positions.push(Position { asset_id: A, quantity: d(10, 0), average_price: d(10, 0) });
    e.execute_buy(A, day(1), &s).unwrap();
    let p = e.portfolio.positions[0];
    assert_eq!(e.portfolio.positions.len(), 1);
    assert!(same(p.quantity, 30, 0));
    // (10 * 10 + 30 * 20) / 30 = 700 / 30
    assert_eq!((p.average_price.mantissa(), p.average_price.scale()), (23333333333333333333333333333, 27));
}

#[test]
fn sell_closes_position() {
    let s = vec![series(A, &[(1, 25)])];
    let mut e = BacktestEngine::new(d(100, 0));
    e.portfolio.positions.push(Position { asset_id: A, quantity: d(50, 0), average_price: d(20, 0) });
    e.execute_sell(A, day(1), &s).unwrap();
    assert!(same(e.portfolio.cash, 1350, 0));
    assert_eq!(e.portfolio.positions.len(), 0);
    assert_eq!(e.trades.len(), 1);
    assert_eq!(e.trades[0].side, OrderSide::Sell);
    assert!(same(e.trades[0].quantity, 50, 0));
}

#[test]
fn sell_without_price_drops_position() {
    let s = vec![series(A, &[(1, 25)])];
    let mut e = BacktestEngine::new(d(100, 0));
    e.portfolio.positions.push(Position { asset_id: A, quantity: d(50, 0), average_price: d(20, 0) });
    e.execute_sell(A, day(2), &s).unwrap();
    assert!(same(e.portfolio.cash, 100, 0));
    assert_eq!(e.portfolio.positions.len(), 0);
    assert_eq!(e.trades.len(), 0);
}

#[test]
fn holdings_are_valued_at_current_prices() {
    let s = vec![series(A, &[(1, 25)]), series(B, &[(2, 5)])];
    let mut e = BacktestEngine::new(d(100, 0));
    e.portfolio.positions.push(Position { asset_id: A, quantity: d(2, 0), average_price: d(20, 0) });
    e.portfolio.positions.push(Position { asset_id: B, quantity: d(3, 0), average_price: d(5, 0) });
    assert!(same(e.holdings_value(day(1), &s).unwrap(), 50, 0));
    assert!(same(e.holdings_value(day(2), &s).unwrap(), 15, 0));
}

#[test]
fn step_records_snapshot() {
    let s = vec![series(A, &[(1, 25)])];
    let mut e = BacktestEngine::new(d(100, 0));
    e.portfolio.positions.push(Position { asset_id: A, quantity: d(2, 0), average_price: d(20, 0) });
    let strategy = rule_strategy(vec![], vec![], None);
    e.step(day(1), &strategy, &s).unwrap();
    assert_eq!(e.history.len(), 1);
    let snap = e.history[0];
    assert_eq!(snap.timestamp, day(1));
    assert!(same(snap.cash, 100, 0));
    assert!(same(snap.holdings_value, 50, 0));
    assert!(same(snap.total_value, 150, 0));
}

#[test]
fn timeline_is_sorted_and_distinct() {
    let s = vec![series(A, &[(3, 1), (1, 1), (2, 1)]), series(B, &[(2, 1), (5, 1), (1, 1)])];
    let ts = backtest_timestamps(&s);
    assert_eq!(ts, vec![day(1), day(2), day(3), day(5)]);
    assert!(backtest_timestamps(&vec![]).is_empty());
}

#[test]
fn whole_days_truncate_toward_zero() {
    assert_eq!(elapsed_whole_days(day(3) + NANOS_PER_DAY / 2, day(2)), 1);
    assert_eq!(elapsed_whole_days(day(2), day(3) + NANOS_PER_DAY / 2), -1);
    assert_eq!(elapsed_whole_days(day(2) - 1, day(1)), 0);
    assert_eq!(elapsed_whole_days(i128::MAX, i128::MIN), (u128::MAX / 86_400_000_000_000) as i128);
}

#[test]
fn run_trades_by_rules() {
    // A rises above 15 on day 2 (buy), falls below 12 on day 4 (sell).
    let s = vec![series(A, &[(1, 10), (2, 20), (3, 25), (4, 10), (5, 30)])];
    let entry = vec![rule(Indicator::Price, RuleOperator::GreaterThan, Indicator::Value(d(15, 0)))];
    let exit = vec![rule(Indicator::Price, RuleOperator::LessThan, Indicator::Value(d(12, 0)))];
    let strategy = rule_strategy(entry, exit, None);
    let mut e = BacktestEngine::new(d(1000, 0));
    e.run(&strategy, &s).unwrap();
    assert_eq!(e.history.len(), 5);
    assert_eq!(e.trades.len(), 3);
    assert_eq!(e.trades[0].side, OrderSide::Buy);
    assert_eq!(e.trades[0].timestamp, day(2));
    assert_eq!(e.trades[1].side, OrderSide::Sell);
    assert_eq!(e.trades[1].timestamp, day(4));
    assert_eq!(e.trades[2].side, OrderSide::Buy);
    assert_eq!(e.trades[2].timestamp, day(5));
    // 1000 / 20 = 50 units, sold at 10: 500, bought back at 30.
    assert!(same(e.history[2].total_value, 1250, 0));
    assert!(same(e.history[3].total_value, 500, 0));
    assert!(same(e.history[4].cash, 500, 0));
    assert!(e.portfolio.cash == Dec::zero());
    assert_eq!(e.portfolio.positions.len(), 1);
    assert!(e.portfolio.positions[0].quantity.mantissa() > 0);
}

#[test]
fn run_records_one_snapshot_per_timestamp_in_order() {
    let s = vec![series(A, &[(4, 10), (1, 10)]), series(B, &[(1, 5), (3, 5), (2, 5)])];
    let strategy = rule_strategy(vec![], vec![], None);
    let mut e = BacktestEngine::new(d(1000, 0));
    e.run(&strategy, &s).unwrap();
    let ts: Vec<i128> = e.history.iter().map(|h| h.timestamp).collect();
    assert_eq!(ts, vec![day(1), day(2), day(3), day(4)]);
}

#[test]
fn run_without_entry_rules_never_buys() {
    let s = vec![series(A, &[(1, 10), (2, 20)])];
    let exit = vec![rule(Indicator::Price, RuleOperator::GreaterThan, Indicator::Value(d(15, 0)))];
    let strategy = rule_strategy(vec![], exit, None);
    let mut e = BacktestEngine::new(d(1000, 0));
    e.portfolio.positions.push(Position { asset_id: A, quantity: d(1, 0), average_price: d(10, 0) });
    e.run(&strategy, &s).unwrap();
    assert_eq!(e.trades.len(), 1);
    assert!(e.trades.iter().all(|o| o.side == OrderSide::Sell));
}

#[test]
fn run_with_rules_holds_at_most_one_position() {
    let s = vec![series(A, &[(1, 10), (2, 12)]), series(B, &[(1, 20), (2, 25)])];
    let entry = vec![rule(Indicator::Price, RuleOperator::GreaterThan, Indicator::Value(d(0, 0)))];
    let strategy = rule_strategy(entry, vec![], None);
    let mut e = BacktestEngine::new(d(1000, 0));
    e.run(&strategy, &s).unwrap();
    // Assets are considered by increasing id: B's id is the smaller.
    assert_eq!(e.portfolio.positions.len(), 1);
    assert_eq!(e.portfolio.positions[0].asset_id, B);
    assert!(e.portfolio.cash == Dec::zero());
    assert_eq!(e.trades.len(), 1);
}

#[test]
fn sell_error_leaves_engine_unchanged() {
    let s = vec![series(A, &[(1, i64::MAX)])];
    let mut e = BacktestEngine::new(d(100, 0));
    let held = Position { asset_id: A, quantity: d(i64::MAX, 0), average_price: d(1, 0) };
    e.portfolio.positions.push(held);
    let earlier = quantara::domain::Order {
        id: 42,
        asset_id: B,
        quantity: d(1, 0),
        price: d(2, 0),
        timestamp: day(1),
        side: OrderSide::Buy,
    };
    e.trades.push(earlier);
    assert!(matches!(e.execute_sell(A, day(1), &s), Err(BacktestError::Arithmetic)));
    assert!(same(e.portfolio.cash, 100, 0));
    assert_eq!(e.portfolio.positions.len(), 1);
    assert!(e.portfolio.positions[0].quantity == d(i64::MAX, 0));
    assert_eq!(e.trades.len(), 1);
    assert_eq!(e.trades[0].id, 42);
}

#[test]
fn earlier_trade_ids_are_kept() {
    let s = vec![series(A, &[(1, 20), (2, 40)])];
    let mut e = BacktestEngine::new(d(1000, 0));
    let earlier = quantara::domain::Order {
        id: 99,
        asset_id: B,
        quantity: d(1, 0),
        price: d(2, 0),
        timestamp: day(1),
        side: OrderSide::Sell,
    };
    e.trades.push(earlier);
    e.execute_buy(A, day(1), &s).unwrap();
    e.handle_python_signal("SELL:67e55044-10b1-426f-9247-bb680e5fe0c8", day(2), &s).unwrap();
    assert_eq!(e.trades.len(), 3);
    assert_eq!(e.trades[0].id, 99);
    assert_ne!(e.trades[1].id, 0);
    assert_ne!(e.trades[1].id, e.trades[2].id);
}

#[test]
fn buy_then_sell_restores_positions() {
    let s = vec![series(A, &[(1, 20), (2, 40)])];
    let mut e = BacktestEngine::new(d(1000, 0));
    let other = Position { asset_id: B, quantity: d(3, 0), average_price: d(7, 0) };
    e.portfolio.positions.push(other);
    e.execute_buy(A, day(1), &s).unwrap();
    assert_eq!(e.portfolio.positions.len(), 2);
    e.execute_sell(A, day(2), &s).unwrap();
    assert_eq!(e.portfolio.positions.len(), 1);
    assert_eq!(e.portfolio.positions[0].asset_id, B);
    assert!(same(e.portfolio.positions[0].quantity, 3, 0));
    assert!(same(e.portfolio.positions[0].average_price, 7, 0));
    assert!(same(e.portfolio.cash, 2000, 0));
}

#[test]
fn zero_quantity_is_valued_at_scale_zero() {
    let s = vec![series(A, &[(1, 5)])];
    let mut e = BacktestEngine::new(d(100, 0));
    e.portfolio.positions.push(Position { asset_id: A, quantity: d(0, 2), average_price: d(5, 0) });
    let v = e.holdings_value(day(1), &s).unwrap();
    assert_eq!((v.mantissa(), v.scale()), (0, 0));
}

#[test]
fn rebalancing_dates() {
    let s = vec![series(A, &[(1, 10), (2, 10), (3, 10), (4, 10)])];
    let strategy = rule_strategy(vec![], vec![], Some(2));
    let mut e = BacktestEngine::new(d(1000, 0));
    e.step(day(1), &strategy, &s).unwrap();
    assert_eq!(e.last_rebalance, Some(day(1)));
    e.step(day(2), &strategy, &s).unwrap();
    assert_eq!(e.last_rebalance, Some(day(1)));
    e.step(day(3), &strategy, &s).unwrap();
    assert_eq!(e.last_rebalance, Some(day(3)));
    let none = rule_strategy(vec![], vec![], None);
    let mut f = BacktestEngine::new(d(1000, 0));
    f.step(day(1), &none, &s).unwrap();
    assert_eq!(f.last_rebalance, None);
}

fn python_strategy(script: &str) -> Strategy {
    Strategy {
        id: 2,
        name: "py".to_string(),
        strategy_type: StrategyType::Python { script: script.to_string() },
        rebalance_interval_days: None,
    }
}

#[test]
fn script_signals() {
    let s = vec![series(A, &[(1, 20), (2, 40)])];
    let mut e = BacktestEngine::new(d(1000, 0));
    e.handle_python_signal("HOLD:67e55044-10b1-426f-9247-bb680e5fe0c8", day(1), &s).unwrap();
    e.handle_python_signal("BUY", day(1), &s).unwrap();
    e.handle_python_signal("BUY:not-a-uuid", day(1), &s).unwrap();
    e.handle_python_signal("SELL:67e55044-10b1-426f-9247-bb680e5fe0c8", day(1), &s).unwrap();
    assert_eq!(e.trades.len(), 0);
    e.handle_python_signal("BUY:67e55044-10b1-426f-9247-bb680e5fe0c8:extra", day(1), &s).unwrap();
    assert_eq!(e.trades.len(), 1);
    assert_eq!(e.trades[0].asset_id, A);
    e.handle_python_signal("BUY:67e55044-10b1-426f-9247-bb680e5fe0c8", day(2), &s).unwrap();
    assert_eq!(e.trades.len(), 1);
    e.step(day(2), &python_strategy("signal = 'SELL:67e55044-10b1-426f-9247-bb680e5fe0c8'"), &s).unwrap();
    assert_eq!(e.trades.len(), 2);
    assert_eq!(e.trades[1].side, OrderSide::Sell);
    assert!(same(e.portfolio.cash, 2000, 0));
}

#[test]
fn failed_script_stops_the_step() {
    let s = vec![series(A, &[(1, 20)])];
    let mut e = BacktestEngine::new(d(1000, 0));
    let r = e.step(day(1), &python_strategy("raise Exception('boom')"), &s);
    match r {
        Err(BacktestError::Script(m)) => assert_eq!(m, "Python Error: Exception: boom"),
        _ => panic!("expected a script error"),
    }
    assert_eq!(e.history.len(), 1);
}

#[test]
fn failed_script_keeps_snapshot_and_portfolio() {
    let s = vec![series(A, &[(1, 20)])];
    let mut e = BacktestEngine::new(d(100, 0));
    e.portfolio.positions.push(Position { asset_id: A, quantity: d(2, 0), average_price: d(10, 0) });
    let earlier = quantara::domain::Order {
        id: 5,
        asset_id: A,
        quantity: d(2, 0),
        price: d(10, 0),
        timestamp: 0,
        side: OrderSide::Buy,
    };
    e.trades.push(earlier);
    let mut strategy = python_strategy("raise Exception()");
    strategy.rebalance_interval_days = Some(1);
    let r = e.step(day(1), &strategy, &s);
    assert!(matches!(r, Err(BacktestError::Script(_))));
    assert_eq!(e.history.len(), 1);
    assert_eq!(e.history[0].timestamp, day(1));
    assert!(same(e.history[0].cash, 100, 0));
    assert!(same(e.history[0].holdings_value, 40, 0));
    assert!(same(e.history[0].total_value, 140, 0));
    assert!(same(e.portfolio.cash, 100, 0));
    assert_eq!(e.portfolio.positions.len(), 1);
    assert!(same(e.portfolio.positions[0].quantity, 2, 0));
    assert_eq!(e.trades.len(), 1);
    assert_eq!(e.trades[0].id, 5);
    assert_eq!(e.last_rebalance, None);
}

#[test]
fn script_inputs_show_bars_at_timestamp() {
    let s = vec![series(A, &[(1, 20)]), series(B, &[(2, 5)])];
    let mut e = BacktestEngine::new(d(1000, 0));
    e.portfolio.positions.push(Position { asset_id: B, quantity: d(1, 0), average_price: d(5, 0) });
    let inputs = e.script_inputs(day(1), &s);
    assert!(same(inputs.cash, 1000, 0));
    assert_eq!(inputs.positions.len(), 1);
    assert_eq!(inputs.market.len(), 1);
    assert_eq!(inputs.market[0].asset_id, A);
    assert!(same(inputs.market[0].price, 20, 0));
    assert!(same(inputs.market[0].volume.unwrap(), 1000, 0));
    assert_eq!(inputs.timestamp, day(1));
}

#[test]
fn signal_accepts_simple_uuid_form() {
    let s = vec![series(A, &[(1, 20)])];
    let mut e = BacktestEngine::new(d(1000, 0));
    e.handle_python_signal("BUY:67e5504410b1426f9247bb680e5fe0c8", day(1), &s).unwrap();
    assert_eq!(e.trades.len(), 1);
    assert_eq!(e.portfolio.positions[0].asset_id, A);
}

#[test]
fn strategy_id_assignment() {
    let mut s = rule_strategy(vec![], vec![], None);
    s.id = 0;
    s.assign_id_if_nil();
    assert_ne!(s.id, 0);
    assert_eq!(s.id & 0xF000_C000_0000_0000_0000u128, 0x4000_8000_0000_0000_0000u128);
    let mut t = rule_strategy(vec![], vec![], None);
    t.assign_id_if_nil();
    assert_eq!(t.id, 7);
}

#[test]
fn run_keeps_earlier_trades_and_history() {
    let s = vec![series(A, &[(5, 10), (6, 20)])];
    let entry = vec![rule(Indicator::Price, RuleOperator::GreaterThan, Indicator::Value(d(15, 0)))];
    let strategy = rule_strategy(entry, vec![], None);
    let mut e = BacktestEngine::new(d(1000, 0));
    let earlier = quantara::domain::Order {
        id: 99,
        asset_id: B,
        quantity: d(1, 0),
        price: d(2, 0),
        timestamp: day(1),
        side: OrderSide::Sell,
    };
    e.trades.push(earlier);
    e.step(day(1), &strategy, &s).unwrap();
    e.run(&strategy, &s).unwrap();
    assert_eq!(e.trades.len(), 2);
    assert_eq!(e.trades[0].id, 99);
    assert_eq!(e.trades[1].side, OrderSide::Buy);
    assert_eq!(e.trades[1].timestamp, day(6));
    let ts: Vec<i128> = e.history.iter().map(|h| h.timestamp).collect();
    assert_eq!(ts, vec![day(1), day(5), day(6)]);
}

#[test]
fn run_with_positive_prices_keeps_cash_and_quantities_non_negative() {
    let s = vec![series(A, &[(1, 10), (2, 30), (3, 7), (4, 9)]), series(B, &[(1, 3), (2, 4), (3, 5), (4, 1)])];
    let entry = vec![rule(Indicator::Price, RuleOperator::LessThan, Indicator::Value(d(10, 0)))];
    let exit = vec![rule(Indicator::Price, RuleOperator::GreaterThan, Indicator::Value(d(20, 0)))];
    let strategy = rule_strategy(entry, exit, None);
    let mut e = BacktestEngine::new(d(1000, 0));
    e.run(&strategy, &s).unwrap();
    assert!(!e.trades.is_empty());
    assert!(e.portfolio.cash.mantissa() >= 0);
    assert!(e.portfolio.positions.iter().all(|p| p.quantity.mantissa() >= 0));
    assert!(e.portfolio.positions.len() <= 1);
}

#[test]
fn run_ignores_the_order_of_the_series() {
    let entry = vec![rule(Indicator::Price, RuleOperator::GreaterThan, Indicator::Value(d(0, 0)))];
    let exit = vec![rule(Indicator::Price, RuleOperator::GreaterThan, Indicator::Value(d(24, 0)))];
    let strategy = rule_strategy(entry, exit, None);
    let forward = vec![series(A, &[(1, 10), (2, 12), (3, 11)]), series(B, &[(1, 20), (2, 25), (3, 22)])];
    let backward = vec![series(B, &[(1, 20), (2, 25), (3, 22)]), series(A, &[(1, 10), (2, 12), (3, 11)])];
    let mut e1 = BacktestEngine::new(d(1000, 0));
    let mut e2 = BacktestEngine::new(d(1000, 0));
    e1.run(&strategy, &forward).unwrap();
    e2.run(&strategy, &backward).unwrap();
    assert!(e1.portfolio.cash == e2.portfolio.cash);
    assert_eq!(e1.portfolio.positions.len(), e2.portfolio.positions.len());
    for (p, q) in e1.portfolio.positions.iter().zip(e2.portfolio.positions.iter()) {
        assert_eq!(p.asset_id, q.asset_id);
        assert!(p.quantity == q.quantity && p.average_price == q.average_price);
    }
    assert_eq!(e1.trades.len(), e2.trades.len());
    for (o, q) in e1.trades.iter().zip(e2.trades.iter()) {
        assert_eq!((o.asset_id, o.timestamp, o.side), (q.asset_id, q.timestamp, q.side));
        assert!(o.quantity == q.quantity && o.price == q.price);
    }
    assert_eq!(e1.history.len(), e2.history.len());
    for (h, k) in e1.history.iter().zip(e2.history.iter()) {
        assert!(h.total_value == k.total_value && h.cash == k.cash);
    }
    assert!(e1.trades.len() >= 2);
}

#[test]
fn new_orders_get_random_v4_ids() {
    let s = vec![series(A, &[(1, 20), (2, 40)])];
    let mut e = BacktestEngine::new(d(1000, 0));
    e.execute_buy(A, day(1), &s).unwrap();
    e.execute_sell(A, day(2), &s).unwrap();
    assert_eq!(e.trades.len(), 2);
    for o in &e.trades {
        assert_eq!(o.id & 0xF000_C000_0000_0000_0000u128, 0x4000_8000_0000_0000_0000u128);
    }
}

#[test]
fn run_of_script_strategy_over_no_data_does_nothing() {
    let mut strategy = python_strategy("raise Exception()");
    strategy.rebalance_interval_days = Some(1);
    let mut e = BacktestEngine::new(d(1000, 0));
    e.run(&strategy, &vec![]).unwrap();
    assert!(e.history.is_empty());
    assert!(e.trades.is_empty());
    assert!(same(e.portfolio.cash, 1000, 0));
    assert!(e.portfolio.positions.is_empty());
    assert_eq!(e.last_rebalance, None);
}

#[test]
fn run_of_script_strategy_trades_on_its_signals() {
    let s = vec![series(A, &[(1, 20), (2, 40), (3, 30)])];
    let script = "a = '67e55044-10b1-426f-9247-bb680e5fe0c8'\n\
                  signal = ('SELL:' if a in portfolio['positions'] else 'BUY:') + a";
    let mut e = BacktestEngine::new(d(1000, 0));
    e.run(&python_strategy(script), &s).unwrap();
    assert_eq!(e.history.len(), 3);
    assert_eq!(e.trades.len(), 3);
    assert_eq!(e.trades[0].side, OrderSide::Buy);
    assert_eq!(e.trades[1].side, OrderSide::Sell);
    assert_eq!(e.trades[2].side, OrderSide::Buy);
    assert!(e.portfolio.cash == Dec::zero());
    assert_eq!(e.portfolio.positions.len(), 1);
}

#[test]
fn run_of_failing_script_stops_at_the_first_step() {
    let s = vec![series(A, &[(1, 20), (2, 40)])];
    let mut e = BacktestEngine::new(d(1000, 0));
    let r = e.run(&python_strategy("signal = 42"), &s);
    assert!(matches!(r, Err(BacktestError::Script(_))));
    assert_eq!(e.history.len(), 1);
    assert!(e.trades.is_empty());
}

#[test]
fn rsi_of_falling_and_rising_windows() {
    let e = BacktestEngine::new(d(100, 0));
    let falling = vec![series(A, &[(1, 30), (2, 20), (3, 20), (4, 10)])];
    let r = e.calculate_rsi(A, day(4), 3, &falling).unwrap().unwrap();
    assert!(r == Dec::zero());
    let rising = vec![series(A, &[(1, 10), (2, 20), (3, 20), (4, 30)])];
    let r = e.calculate_rsi(A, day(4), 3, &rising).unwrap().unwrap();
    assert!(same(r, 100, 0));
}
