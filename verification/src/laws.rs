//! Properties of the engine that hold across operations and whole runs.
use crate::backtest::{
    enter_upto, exit_ids_upto, process_rules_spec, rebalance_spec, script_run_spec, sell_all_upto,
    snapshot_spec, step_spec, steps_upto, strategy_spec,
};
use crate::assets::asset_order;
use crate::domain::{positions_distinct, OrderSide, Order, Position, Rule, Strategy, StrategyType, TimeSeries};
use crate::engine::{BacktestError, EngineState};
use crate::script::{signal_spec, ScriptOutcome};
use crate::signals::{lemma_first_index_from, position_index, should_enter_spec};
use crate::timeline::{is_timeline, lemma_timeline_unique};
use crate::trading::{bought_position, buy_spec, empty_position, sell_spec};
use vstd::prelude::*;

verus! {

/// `after` starts with `before`.
pub open spec fn trades_kept(before: Seq<Order>, after: Seq<Order>) -> bool {
    before.len() <= after.len() && after.subrange(0, before.len() as int) == before
}

/// Every order of `after` beyond `before` has the given side.
pub open spec fn new_trades_are(before: Seq<Order>, after: Seq<Order>, side: OrderSide) -> bool {
    forall|i: int| before.len() <= i < after.len() ==> #[trigger] after[i].side == side
}

/// Every order of `after` beyond `before` is at timestamp `t`.
pub open spec fn new_trades_at(before: Seq<Order>, after: Seq<Order>, t: i128) -> bool {
    forall|i: int| before.len() <= i < after.len() ==> #[trigger] after[i].timestamp == t
}

/// What trading at one timestamp keeps: the history and the rebalancing
/// date are untouched, the earlier trades stay, the new ones are at that
/// timestamp, and no asset gets two positions.
pub open spec fn trading_step(m: EngineState, s: EngineState, t: i128) -> bool {
    &&& s.history == m.history
    &&& s.last_rebalance == m.last_rebalance
    &&& trades_kept(m.trades, s.trades)
    &&& new_trades_at(m.trades, s.trades, t)
    &&& positions_distinct(m.positions) ==> positions_distinct(s.positions)
}

proof fn lemma_trading_step_trans(a: EngineState, b: EngineState, c: EngineState, t: i128)
    requires
        trading_step(a, b, t),
        trading_step(b, c, t),
    ensures
        trading_step(a, c, t),
{
    assert(c.trades.subrange(0, a.trades.len() as int) =~= b.trades.subrange(0, a.trades.len() as int));
    assert forall|i: int| a.trades.len() <= i < c.trades.len() implies #[trigger] c.trades[i].timestamp == t by {
        if i < b.trades.len() {
            assert(c.trades[i] == b.trades[i]);
        }
    }
}

proof fn lemma_sides_trans(a: Seq<Order>, b: Seq<Order>, c: Seq<Order>, side: OrderSide)
    requires
        trades_kept(a, b),
        trades_kept(b, c),
        new_trades_are(a, b, side),
        new_trades_are(b, c, side),
    ensures
        new_trades_are(a, c, side),
{
    assert forall|i: int| a.len() <= i < c.len() implies #[trigger] c[i].side == side by {
        if i < b.len() {
            assert(c[i] == c.subrange(0, b.len() as int)[i]);
        }
    }
}

proof fn lemma_trading_refl(m: EngineState, t: i128)
    ensures
        trading_step(m, m, t),
        new_trades_are(m.trades, m.trades, OrderSide::Buy),
        new_trades_are(m.trades, m.trades, OrderSide::Sell),
{
    assert(m.trades.subrange(0, m.trades.len() as int) =~= m.trades);
}

proof fn lemma_push_trade(trades: Seq<Order>, o: Order)
    ensures
        trades_kept(trades, trades.push(o)),
        new_trades_are(trades, trades.push(o), o.side),
        new_trades_at(trades, trades.push(o), o.timestamp),
{
    assert(trades.push(o).subrange(0, trades.len() as int) =~= trades);
}

/// Buying keeps the history, the earlier trades and the rebalancing date,
/// records only a buy at the current timestamp, and never gives an asset a
/// second position.
pub proof fn lemma_buy_trading(m: EngineState, id: u128, t: i128, series: Seq<TimeSeries>)
    requires
        buy_spec(m, id, t, series) is Ok,
    ensures
        trading_step(m, buy_spec(m, id, t, series)->Ok_0, t),
        new_trades_are(m.trades, buy_spec(m, id, t, series)->Ok_0.trades, OrderSide::Buy),
{
    let s = buy_spec(m, id, t, series)->Ok_0;
    if s.trades.len() == m.trades.len() {
        lemma_trading_refl(m, t);
        assert(s == m);
    } else {
        let price = crate::signals::price_at(series, id, t)->0;
        let idx = position_index(m.positions, id);
        let keys = m.positions.map_values(|p: Position| p.asset_id);
        lemma_first_index_from(keys, id, 0);
        lemma_push_trade(m.trades, s.trades.last());
        assert(s.trades =~= m.trades.push(s.trades.last()));
        if positions_distinct(m.positions) {
            let entry = match idx {
                Some(i) => m.positions[i],
                None => empty_position(id),
            };
            let quantity = crate::decimal::decimal_div(m.cash, price)->0;
            let p = bought_position(entry, price, quantity)->0;
            assert(p.asset_id == entry.asset_id);
            match idx {
                Some(i) => {
                    assert(keys[i] == id);
                    assert(s.positions == m.positions.update(i, p));
                    assert forall|a: int, b: int|
                        0 <= a < s.positions.len() && 0 <= b < s.positions.len() && a != b
                            implies #[trigger] s.positions[a].asset_id != #[trigger] s.positions[b].asset_id by {
                        assert(m.positions[a].asset_id == s.positions[a].asset_id);
                        assert(m.positions[b].asset_id == s.positions[b].asset_id);
                    }
                },
                None => {
                    assert(s.positions == m.positions.push(p));
                    assert forall|a: int, b: int|
                        0 <= a < s.positions.len() && 0 <= b < s.positions.len() && a != b
                            implies #[trigger] s.positions[a].asset_id != #[trigger] s.positions[b].asset_id by {
                        if a < m.positions.len() && b < m.positions.len() {
                            assert(s.positions[a] == m.positions[a]);
                            assert(s.positions[b] == m.positions[b]);
                        } else if a < m.positions.len() {
                            assert(keys[a] != id);
                        } else {
                            assert(keys[b] != id);
                        }
                    }
                },
            }
        }
    }
}

/// Selling keeps the history, the earlier trades and the rebalancing date,
/// records only a sell at the current timestamp, and never gives an asset a
/// second position.
pub proof fn lemma_sell_trading(m: EngineState, id: u128, t: i128, series: Seq<TimeSeries>)
    requires
        sell_spec(m, id, t, series) is Ok,
    ensures
        trading_step(m, sell_spec(m, id, t, series)->Ok_0, t),
        new_trades_are(m.trades, sell_spec(m, id, t, series)->Ok_0.trades, OrderSide::Sell),
{
    let s = sell_spec(m, id, t, series)->Ok_0;
    match position_index(m.positions, id) {
        None => {
            lemma_trading_refl(m, t);
        },
        Some(i) => {
            let keys = m.positions.map_values(|p: Position| p.asset_id);
            lemma_first_index_from(keys, id, 0);
            assert(s.positions == m.positions.remove(i));
            if s.trades.len() == m.trades.len() {
                lemma_trading_refl(m, t);
                assert(s.trades == m.trades);
            } else {
                lemma_push_trade(m.trades, s.trades.last());
                assert(s.trades =~= m.trades.push(s.trades.last()));
            }
            if positions_distinct(m.positions) {
                m.positions.remove_ensures(i);
                assert forall|a: int, b: int|
                    0 <= a < s.positions.len() && 0 <= b < s.positions.len() && a != b
                        implies #[trigger] s.positions[a].asset_id != #[trigger] s.positions[b].asset_id by {
                    let a0 = if a < i { a } else { a + 1 };
                    let b0 = if b < i { b } else { b + 1 };
                    assert(s.positions[a] == m.positions[a0]);
                    assert(s.positions[b] == m.positions[b0]);
                }
            }
        },
    }
}

/// Selling a list of assets keeps what trading keeps and records only sells.
pub proof fn lemma_sell_all_trading(
    m: EngineState,
    ids: Seq<u128>,
    series: Seq<TimeSeries>,
    t: i128,
    n: nat,
)
    requires
        sell_all_upto(m, ids, series, t, n) is Ok,
    ensures
        trading_step(m, sell_all_upto(m, ids, series, t, n)->Ok_0, t),
        new_trades_are(m.trades, sell_all_upto(m, ids, series, t, n)->Ok_0.trades, OrderSide::Sell),
    decreases n,
{
    if n == 0 {
        lemma_trading_refl(m, t);
    } else {
        lemma_sell_all_trading(m, ids, series, t, (n - 1) as nat);
        let prev = sell_all_upto(m, ids, series, t, (n - 1) as nat)->Ok_0;
        lemma_sell_trading(prev, ids[n - 1], t, series);
        let s = sell_all_upto(m, ids, series, t, n)->Ok_0;
        lemma_trading_step_trans(m, prev, s, t);
        lemma_sides_trans(m.trades, prev.trades, s.trades, OrderSide::Sell);
    }
}

/// The entry pass keeps what trading keeps; without entry rules it changes
/// nothing.
pub proof fn lemma_enter_trading(
    m: EngineState,
    entry_rules: Seq<Rule>,
    series: Seq<TimeSeries>,
    ids: Seq<u128>,
    t: i128,
    n: nat,
)
    requires
        enter_upto(m, entry_rules, series, ids, t, n) is Ok,
    ensures
        trading_step(m, enter_upto(m, entry_rules, series, ids, t, n)->Ok_0, t),
        entry_rules.len() == 0 ==> enter_upto(m, entry_rules, series, ids, t, n)->Ok_0 == m,
    decreases n,
{
    if n == 0 {
        lemma_trading_refl(m, t);
    } else {
        lemma_enter_trading(m, entry_rules, series, ids, t, (n - 1) as nat);
        let prev = enter_upto(m, entry_rules, series, ids, t, (n - 1) as nat)->Ok_0;
        let s = enter_upto(m, entry_rules, series, ids, t, n)->Ok_0;
        let id: u128 = ids[n - 1];
        if position_index(prev.positions, id) is None && should_enter_spec(entry_rules, series, id, t)
            == Ok::<bool, BacktestError>(true) {
            lemma_buy_trading(prev, id, t, series);
            lemma_trading_step_trans(m, prev, s, t);
        } else {
            assert(s == prev);
        }
    }
}

/// A rule-based trading pass keeps what trading keeps; without entry rules
/// it only sells.
pub proof fn lemma_process_rules_trading(
    m: EngineState,
    entry_rules: Seq<Rule>,
    exit_rules: Seq<Rule>,
    series: Seq<TimeSeries>,
    t: i128,
)
    requires
        process_rules_spec(m, entry_rules, exit_rules, series, t) is Ok,
    ensures
        trading_step(m, process_rules_spec(m, entry_rules, exit_rules, series, t)->Ok_0, t),
        entry_rules.len() == 0 ==> new_trades_are(
            m.trades,
            process_rules_spec(m, entry_rules, exit_rules, series, t)->Ok_0.trades,
            OrderSide::Sell,
        ),
{
    let ids = exit_ids_upto(m.positions, exit_rules, series, t, m.positions.len())->Ok_0;
    lemma_sell_all_trading(m, ids, series, t, ids.len());
    let sold = sell_all_upto(m, ids, series, t, ids.len())->Ok_0;
    lemma_enter_trading(sold, entry_rules, series, asset_order(series), t, asset_order(series).len());
    let s = process_rules_spec(m, entry_rules, exit_rules, series, t)->Ok_0;
    lemma_trading_step_trans(m, sold, s, t);
}

/// Acting on a script's signal keeps what trading keeps.
pub proof fn lemma_signal_trading(m: EngineState, sig: Seq<char>, t: i128, series: Seq<TimeSeries>)
    requires
        signal_spec(m, sig, t, series) is Ok,
    ensures
        trading_step(m, signal_spec(m, sig, t, series)->Ok_0, t),
{
    let s = signal_spec(m, sig, t, series)->Ok_0;
    if s == m {
        lemma_trading_refl(m, t);
    } else {
        let (action, id_text) = crate::script::signal_parts(sig)->0;
        let id: u128 = crate::domain::uuid_parse(id_text)->0;
        if action == seq!['B', 'U', 'Y'] {
            lemma_buy_trading(m, id, t, series);
        } else {
            lemma_sell_trading(m, id, t, series);
        }
    }
}

/// One step records exactly one snapshot, at its timestamp, after the
/// earlier ones; keeps the earlier trades; records new trades only at its
/// timestamp; and never gives an asset a second position.  With a
/// rule-based strategy without entry rules it only sells.
pub proof fn lemma_step(
    m: EngineState,
    t: i128,
    strategy: Strategy,
    series: Seq<TimeSeries>,
    outcome: ScriptOutcome,
)
    requires
        step_spec(m, t, strategy, series, outcome) is Ok,
    ensures
        ({
            let s = step_spec(m, t, strategy, series, outcome)->Ok_0;
            &&& s.history.len() == m.history.len() + 1
            &&& s.history.drop_last() == m.history
            &&& s.history.last().timestamp == t
            &&& trades_kept(m.trades, s.trades)
            &&& new_trades_at(m.trades, s.trades, t)
            &&& positions_distinct(m.positions) ==> positions_distinct(s.positions)
            &&& (strategy.strategy_type matches StrategyType::RuleBased { entry_rules, .. }
                && entry_rules@.len() == 0) ==> new_trades_are(m.trades, s.trades, OrderSide::Sell)
        }),
{
    let snap = snapshot_spec(m, t, series)->Ok_0;
    assert(snap.history.drop_last() =~= m.history);
    let traded = strategy_spec(snap, t, strategy.strategy_type, series, outcome)->Ok_0;
    match strategy.strategy_type {
        StrategyType::RuleBased { entry_rules, exit_rules } => {
            lemma_process_rules_trading(snap, entry_rules@, exit_rules@, series, t);
        },
        StrategyType::Python { .. } => {
            match outcome {
                ScriptOutcome::Signal(sig) => {
                    lemma_signal_trading(snap, sig@, t, series);
                },
                _ => {
                    lemma_trading_refl(snap, t);
                },
            }
        },
    }
    let s = step_spec(m, t, strategy, series, outcome)->Ok_0;
    assert(s == rebalance_spec(traded, t, strategy.rebalance_interval_days));
}

/// The first `n` steps of a run record one snapshot per
/// timestamp of `ts`, in order, after the earlier ones; keep the earlier
/// trades; and never give an asset a second position.  Without entry rules
/// they only sell.
pub proof fn lemma_steps(
    m: EngineState,
    strategy: Strategy,
    series: Seq<TimeSeries>,
    ts: Seq<i128>,
    outcomes: Seq<ScriptOutcome>,
    n: nat,
)
    requires
        n <= ts.len(),
        steps_upto(m, strategy, series, ts, outcomes, n) is Ok,
    ensures
        ({
            let s = steps_upto(m, strategy, series, ts, outcomes, n)->Ok_0;
            &&& s.history.len() == m.history.len() + n
            &&& s.history.subrange(0, m.history.len() as int) == m.history
            &&& forall|k: int| 0 <= k < n ==> #[trigger] s.history[m.history.len() + k].timestamp == ts[k]
            &&& trades_kept(m.trades, s.trades)
            &&& positions_distinct(m.positions) ==> positions_distinct(s.positions)
            &&& (strategy.strategy_type matches StrategyType::RuleBased { entry_rules, .. }
                && entry_rules@.len() == 0) ==> new_trades_are(m.trades, s.trades, OrderSide::Sell)
        }),
    decreases n,
{
    if n == 0 {
        assert(m.history.subrange(0, m.history.len() as int) =~= m.history);
        lemma_trading_refl(m, 0);
    } else {
        lemma_steps(m, strategy, series, ts, outcomes, (n - 1) as nat);
        let prev = steps_upto(m, strategy, series, ts, outcomes, (n - 1) as nat)->Ok_0;
        lemma_step(prev, ts[n - 1], strategy, series, outcomes[n - 1]);
        let s = steps_upto(m, strategy, series, ts, outcomes, n)->Ok_0;
        assert(s.history.subrange(0, m.history.len() as int) =~= prev.history.subrange(
            0,
            m.history.len() as int,
        )) by {
            assert forall|k: int| 0 <= k < m.history.len() implies s.history[k] == prev.history[k] by {
                assert(s.history.drop_last()[k] == prev.history[k]);
            }
        }
        assert forall|k: int| 0 <= k < n implies #[trigger] s.history[m.history.len() + k].timestamp
            == ts[k] by {
            if k < n - 1 {
                assert(s.history.drop_last()[m.history.len() + k] == prev.history[m.history.len() + k]);
            }
        }
        assert(s.trades.subrange(0, m.trades.len() as int) =~= prev.trades.subrange(
            0,
            m.trades.len() as int,
        ));
        if strategy.strategy_type matches StrategyType::RuleBased { entry_rules, .. }
            && entry_rules@.len() == 0 {
            lemma_sides_trans(m.trades, prev.trades, s.trades, OrderSide::Sell);
        }
    }
}

/// A successful run, whatever its script gave, records one valuation per
/// distinct timestamp
/// of the series, in strictly increasing order, after the earlier history;
/// keeps every earlier trade; and never gives an asset a second position.
/// A strategy without entry rules never buys.
pub proof fn lemma_run(
    m: EngineState,
    strategy: Strategy,
    series: Seq<TimeSeries>,
    ts: Seq<i128>,
    outcomes: Seq<ScriptOutcome>,
)
    requires
        is_timeline(ts, series),
        script_run_spec(m, strategy, series, outcomes) is Ok,
    ensures
        ({
            let s = script_run_spec(m, strategy, series, outcomes)->Ok_0;
            &&& s.history.len() == m.history.len() + ts.len()
            &&& s.history.subrange(0, m.history.len() as int) == m.history
            &&& forall|k: int| 0 <= k < ts.len() ==> #[trigger] s.history[m.history.len() + k].timestamp == ts[k]
            &&& forall|a: int, b: int|
                m.history.len() <= a < b < s.history.len() ==> s.history[a].timestamp
                    < s.history[b].timestamp
            &&& trades_kept(m.trades, s.trades)
            &&& positions_distinct(m.positions) ==> positions_distinct(s.positions)
            &&& (strategy.strategy_type matches StrategyType::RuleBased { entry_rules, .. }
                && entry_rules@.len() == 0) ==> new_trades_are(m.trades, s.trades, OrderSide::Sell)
        }),
{
    lemma_timeline_unique(ts, series);
    lemma_steps(m, strategy, series, ts, outcomes, ts.len());
    let s = script_run_spec(m, strategy, series, outcomes)->Ok_0;
    assert forall|a: int, b: int|
        m.history.len() <= a < b < s.history.len() implies s.history[a].timestamp
            < s.history[b].timestamp by {
        let ka: int = a - m.history.len();
        let kb: int = b - m.history.len();
        assert(s.history[m.history.len() + ka].timestamp == ts[ka]);
        assert(s.history[m.history.len() + kb].timestamp == ts[kb]);
    }
}

/// A sale closes the position: afterwards the asset has none (as long as no
/// asset had two).
pub proof fn lemma_sell_closes(m: EngineState, id: u128, t: i128, series: Seq<TimeSeries>)
    requires
        positions_distinct(m.positions),
        sell_spec(m, id, t, series) is Ok,
    ensures
        position_index(sell_spec(m, id, t, series)->Ok_0.positions, id) is None,
{
    let s = sell_spec(m, id, t, series)->Ok_0;
    let keys = m.positions.map_values(|p: Position| p.asset_id);
    lemma_first_index_from(keys, id, 0);
    let skeys = s.positions.map_values(|p: Position| p.asset_id);
    lemma_first_index_from(skeys, id, 0);
    match position_index(m.positions, id) {
        None => {
            assert(s == m);
        },
        Some(i) => {
            m.positions.remove_ensures(i);
            if position_index(s.positions, id) is Some {
                let j: int = position_index(s.positions, id)->0;
                let j0 = if j < i { j } else { j + 1 };
                assert(s.positions[j] == m.positions[j0]);
                assert(m.positions[j0].asset_id == m.positions[i].asset_id);
            }
        },
    }
}

/// A purchase that trades leaves the asset with a position.
pub proof fn lemma_buy_opens(m: EngineState, id: u128, t: i128, series: Seq<TimeSeries>)
    requires
        buy_spec(m, id, t, series) is Ok,
        buy_spec(m, id, t, series)->Ok_0.trades.len() > m.trades.len(),
    ensures
        position_index(buy_spec(m, id, t, series)->Ok_0.positions, id) is Some,
{
    let s = buy_spec(m, id, t, series)->Ok_0;
    let keys = m.positions.map_values(|p: Position| p.asset_id);
    lemma_first_index_from(keys, id, 0);
    let skeys = s.positions.map_values(|p: Position| p.asset_id);
    lemma_first_index_from(skeys, id, 0);
    match position_index(m.positions, id) {
        Some(i) => {
            assert(skeys[i] == id);
        },
        None => {
            assert(skeys[m.positions.len() as int] == id);
        },
    }
}

/// Buying an asset that has no position and then selling it (at the same
/// or a later timestamp) leaves the positions as they were before the
/// purchase.
pub proof fn lemma_buy_then_sell(m: EngineState, id: u128, t1: i128, t2: i128, series: Seq<TimeSeries>)
    requires
        position_index(m.positions, id) is None,
        buy_spec(m, id, t1, series) is Ok,
        sell_spec(buy_spec(m, id, t1, series)->Ok_0, id, t2, series) is Ok,
    ensures
        sell_spec(buy_spec(m, id, t1, series)->Ok_0, id, t2, series)->Ok_0.positions == m.positions,
{
    let b = buy_spec(m, id, t1, series)->Ok_0;
    let s = sell_spec(b, id, t2, series)->Ok_0;
    let keys = m.positions.map_values(|p: Position| p.asset_id);
    lemma_first_index_from(keys, id, 0);
    if b.positions == m.positions {
        assert(s.positions == b.positions);
    } else {
        let n = m.positions.len() as int;
        assert(b.positions.len() == n + 1);
        assert(b.positions.subrange(0, n) =~= m.positions);
        assert(b.positions[n].asset_id == id);
        let bkeys = b.positions.map_values(|p: Position| p.asset_id);
        lemma_first_index_from(bkeys, id, 0);
        assert(bkeys[n] == id);
        assert(forall|j: int| 0 <= j < n ==> bkeys[j] == keys[j]);
        assert(position_index(b.positions, id) == Some(n));
        assert(s.positions =~= m.positions);
    }
}

} // verus!
