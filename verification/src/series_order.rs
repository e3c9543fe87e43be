//! A rule-based backtest depends on the series only through what they hold,
//! not through the order they come in.
use crate::assets::{asset_order, is_asset_order};
use crate::backtest::{
    enter_upto, exit_ids_upto, process_rules_spec, run_spec, script_run_spec, sell_all_upto, snapshot_spec,
    step_spec, steps_upto, strategy_spec,
};
use crate::domain::{series_distinct, uuid_parse, Position, Rule, Strategy, StrategyType, TimeSeries};
use crate::engine::EngineState;
use crate::script::{signal_parts, signal_spec, ScriptOutcome};
use crate::signals::{
    all_rules_from, any_rule_from, lemma_first_index_from, rule_spec, series_index, series_of,
    should_enter_spec,
    should_exit_spec,
};
use crate::timeline::{has_bar_at, is_timeline, timeline};
use crate::trading::{buy_spec, holdings_upto, sell_spec};
use vstd::prelude::*;

verus! {

/// Two lists of series that give every asset the same series and have bars
/// at the same timestamps.
pub open spec fn same_lookups(a: Seq<TimeSeries>, b: Seq<TimeSeries>) -> bool {
    &&& forall|id: u128| #[trigger] series_of(a, id) == series_of(b, id)
    &&& forall|t: i128| #[trigger] has_bar_at(a, t) == has_bar_at(b, t)
}

proof fn lemma_rule_same(rule: Rule, a: Seq<TimeSeries>, b: Seq<TimeSeries>, id: u128, t: i128)
    requires
        same_lookups(a, b),
    ensures
        rule_spec(rule, a, id, t) == rule_spec(rule, b, id, t),
{
    assert(series_of(a, id) == series_of(b, id));
}

proof fn lemma_all_rules_same(
    rules: Seq<Rule>,
    a: Seq<TimeSeries>,
    b: Seq<TimeSeries>,
    id: u128,
    t: i128,
    i: int,
)
    requires
        same_lookups(a, b),
    ensures
        all_rules_from(rules, a, id, t, i) == all_rules_from(rules, b, id, t, i),
        any_rule_from(rules, a, id, t, i) == any_rule_from(rules, b, id, t, i),
    decreases rules.len() - i,
{
    if i < rules.len() {
        lemma_rule_same(rules[i], a, b, id, t);
        lemma_all_rules_same(rules, a, b, id, t, i + 1);
    }
}

proof fn lemma_should_same(rules: Seq<Rule>, a: Seq<TimeSeries>, b: Seq<TimeSeries>, id: u128, t: i128)
    requires
        same_lookups(a, b),
    ensures
        should_enter_spec(rules, a, id, t) == should_enter_spec(rules, b, id, t),
        should_exit_spec(rules, a, id, t) == should_exit_spec(rules, b, id, t),
{
    lemma_all_rules_same(rules, a, b, id, t, 0);
}

proof fn lemma_trade_same(m: EngineState, id: u128, t: i128, a: Seq<TimeSeries>, b: Seq<TimeSeries>)
    requires
        same_lookups(a, b),
    ensures
        buy_spec(m, id, t, a) == buy_spec(m, id, t, b),
        sell_spec(m, id, t, a) == sell_spec(m, id, t, b),
{
    assert(series_of(a, id) == series_of(b, id));
}

proof fn lemma_holdings_same(
    positions: Seq<Position>,
    a: Seq<TimeSeries>,
    b: Seq<TimeSeries>,
    t: i128,
    n: nat,
)
    requires
        same_lookups(a, b),
    ensures
        holdings_upto(positions, a, t, n) == holdings_upto(positions, b, t, n),
    decreases n,
{
    if n > 0 {
        lemma_holdings_same(positions, a, b, t, (n - 1) as nat);
        assert(series_of(a, positions[n - 1].asset_id) == series_of(b, positions[n - 1].asset_id));
    }
}

proof fn lemma_exit_ids_same(
    positions: Seq<Position>,
    rules: Seq<Rule>,
    a: Seq<TimeSeries>,
    b: Seq<TimeSeries>,
    t: i128,
    n: nat,
)
    requires
        same_lookups(a, b),
    ensures
        exit_ids_upto(positions, rules, a, t, n) == exit_ids_upto(positions, rules, b, t, n),
    decreases n,
{
    if n > 0 {
        lemma_exit_ids_same(positions, rules, a, b, t, (n - 1) as nat);
        lemma_should_same(rules, a, b, positions[n - 1].asset_id, t);
    }
}

proof fn lemma_sell_all_same(
    m: EngineState,
    ids: Seq<u128>,
    a: Seq<TimeSeries>,
    b: Seq<TimeSeries>,
    t: i128,
    n: nat,
)
    requires
        same_lookups(a, b),
    ensures
        sell_all_upto(m, ids, a, t, n) == sell_all_upto(m, ids, b, t, n),
    decreases n,
{
    if n > 0 {
        lemma_sell_all_same(m, ids, a, b, t, (n - 1) as nat);
        if let Ok(s) = sell_all_upto(m, ids, a, t, (n - 1) as nat) {
            lemma_trade_same(s, ids[n - 1], t, a, b);
        }
    }
}

proof fn lemma_enter_same(
    m: EngineState,
    rules: Seq<Rule>,
    a: Seq<TimeSeries>,
    b: Seq<TimeSeries>,
    ids: Seq<u128>,
    t: i128,
    n: nat,
)
    requires
        same_lookups(a, b),
    ensures
        enter_upto(m, rules, a, ids, t, n) == enter_upto(m, rules, b, ids, t, n),
    decreases n,
{
    if n > 0 {
        lemma_enter_same(m, rules, a, b, ids, t, (n - 1) as nat);
        if let Ok(s) = enter_upto(m, rules, a, ids, t, (n - 1) as nat) {
            lemma_should_same(rules, a, b, ids[n - 1], t);
            lemma_trade_same(s, ids[n - 1], t, a, b);
        }
    }
}

proof fn lemma_orders_same(a: Seq<TimeSeries>, b: Seq<TimeSeries>)
    requires
        same_lookups(a, b),
    ensures
        asset_order(a) == asset_order(b),
        timeline(a) == timeline(b),
{
    assert forall|ids: Seq<u128>| is_asset_order(ids, a) == is_asset_order(ids, b) by {
        assert forall|id: u128| (series_of(a, id) is Some) == (series_of(b, id) is Some) by {
            assert(series_of(a, id) == series_of(b, id));
        }
    }
    assert((|ids: Seq<u128>| is_asset_order(ids, a)) =~= (|ids: Seq<u128>| is_asset_order(ids, b)));
    assert forall|ts: Seq<i128>| is_timeline(ts, a) == is_timeline(ts, b) by {
        assert forall|t: i128| has_bar_at(a, t) == has_bar_at(b, t) by {}
    }
    assert((|ts: Seq<i128>| is_timeline(ts, a)) =~= (|ts: Seq<i128>| is_timeline(ts, b)));
}

proof fn lemma_step_same(
    m: EngineState,
    t: i128,
    strategy: Strategy,
    a: Seq<TimeSeries>,
    b: Seq<TimeSeries>,
    outcome: ScriptOutcome,
)
    requires
        same_lookups(a, b),
    ensures
        step_spec(m, t, strategy, a, outcome) == step_spec(m, t, strategy, b, outcome),
{
    lemma_holdings_same(m.positions, a, b, t, m.positions.len());
    assert(snapshot_spec(m, t, a) == snapshot_spec(m, t, b));
    if let Ok(s) = snapshot_spec(m, t, a) {
        lemma_orders_same(a, b);
        match strategy.strategy_type {
            StrategyType::RuleBased { entry_rules, exit_rules } => {
                let positions = s.positions;
                lemma_exit_ids_same(positions, exit_rules@, a, b, t, positions.len());
                if let Ok(ids) = exit_ids_upto(positions, exit_rules@, a, t, positions.len()) {
                    lemma_sell_all_same(s, ids, a, b, t, ids.len());
                    if let Ok(sold) = sell_all_upto(s, ids, a, t, ids.len()) {
                        lemma_enter_same(
                            sold,
                            entry_rules@,
                            a,
                            b,
                            asset_order(a),
                            t,
                            asset_order(a).len(),
                        );
                    }
                }
                assert(process_rules_spec(s, entry_rules@, exit_rules@, a, t) == process_rules_spec(
                    s,
                    entry_rules@,
                    exit_rules@,
                    b,
                    t,
                ));
            },
            StrategyType::Python { .. } => {
                if let ScriptOutcome::Signal(text) = outcome {
                    if let Some((_, id_text)) = signal_parts(text@) {
                        if let Some(id) = uuid_parse(id_text) {
                            lemma_trade_same(s, id, t, a, b);
                        }
                    }
                    assert(signal_spec(s, text@, t, a) == signal_spec(s, text@, t, b));
                }
            },
        }
        assert(strategy_spec(s, t, strategy.strategy_type, a, outcome) == strategy_spec(
            s,
            t,
            strategy.strategy_type,
            b,
            outcome,
        ));
    }
}

proof fn lemma_steps_same(
    m: EngineState,
    strategy: Strategy,
    a: Seq<TimeSeries>,
    b: Seq<TimeSeries>,
    ts: Seq<i128>,
    outcomes: Seq<ScriptOutcome>,
    n: nat,
)
    requires
        same_lookups(a, b),
    ensures
        steps_upto(m, strategy, a, ts, outcomes, n) == steps_upto(m, strategy, b, ts, outcomes, n),
    decreases n,
{
    if n > 0 {
        lemma_steps_same(m, strategy, a, b, ts, outcomes, (n - 1) as nat);
        if let Ok(s) = steps_upto(m, strategy, a, ts, outcomes, (n - 1) as nat) {
            lemma_step_same(s, ts[n - 1], strategy, a, b, outcomes[n - 1]);
        }
    }
}

/// In a list holding each asset's series once, the series of an asset is
/// the one that carries its id.
proof fn lemma_series_of_distinct(s: Seq<TimeSeries>, k: int)
    requires
        series_distinct(s),
        0 <= k < s.len(),
    ensures
        series_of(s, s[k].asset_id) == Some(s[k]),
{
    let keys = s.map_values(|x: TimeSeries| x.asset_id);
    lemma_first_index_from(keys, s[k].asset_id, 0);
    assert(keys[k] == s[k].asset_id);
}

/// Where every series of `a` is one of `b`, which holds each asset's series
/// once, an asset with a series in `a` has the same one in `b`.
proof fn lemma_series_of_within(a: Seq<TimeSeries>, b: Seq<TimeSeries>, id: u128)
    requires
        series_distinct(b),
        forall|x: TimeSeries| a.contains(x) ==> b.contains(x),
        series_of(a, id) is Some,
    ensures
        series_of(b, id) == series_of(a, id),
{
    let keys = a.map_values(|x: TimeSeries| x.asset_id);
    lemma_first_index_from(keys, id, 0);
    let k = series_index(a, id)->0;
    let x = a[k];
    assert(a.contains(x));
    assert(b.contains(x));
    let k2 = choose|k2: int| 0 <= k2 < b.len() && b[k2] == x;
    lemma_series_of_distinct(b, k2);
}

/// Lists holding the same series, each asset's once, give every asset the
/// same series and have bars at the same timestamps.
proof fn lemma_same_contents_same_lookups(a: Seq<TimeSeries>, b: Seq<TimeSeries>)
    requires
        series_distinct(a),
        series_distinct(b),
        forall|x: TimeSeries| a.contains(x) <==> b.contains(x),
    ensures
        same_lookups(a, b),
{
    assert forall|id: u128| #[trigger] series_of(a, id) == series_of(b, id) by {
        if series_of(a, id) is Some {
            lemma_series_of_within(a, b, id);
        } else if series_of(b, id) is Some {
            lemma_series_of_within(b, a, id);
        }
    }
    assert forall|t: i128| #[trigger] has_bar_at(a, t) == has_bar_at(b, t) by {
        if has_bar_at(a, t) {
            let (i, j) = choose|i: int, j: int|
                0 <= i < a.len() && 0 <= j < a[i].data@.len() && #[trigger] a[i].data@[j].timestamp == t;
            assert(a.contains(a[i]));
            let i2 = choose|i2: int| 0 <= i2 < b.len() && b[i2] == a[i];
            assert(b[i2].data@[j].timestamp == t);
        }
        if has_bar_at(b, t) {
            let (i, j) = choose|i: int, j: int|
                0 <= i < b.len() && 0 <= j < b[i].data@.len() && #[trigger] b[i].data@[j].timestamp == t;
            assert(b.contains(b[i]));
            let i2 = choose|i2: int| 0 <= i2 < a.len() && a[i2] == b[i];
            assert(a[i2].data@[j].timestamp == t);
        }
    }
}

/// A backtest over the same series in another order gives the same result:
/// two lists that hold the same series, each asset's once, give the same
/// run from the same state, for the same script outcomes (a rule-based run
/// has none).
pub proof fn lemma_run_ignores_series_order(
    m: EngineState,
    strategy: Strategy,
    a: Seq<TimeSeries>,
    b: Seq<TimeSeries>,
    outcomes: Seq<ScriptOutcome>,
)
    requires
        series_distinct(a),
        series_distinct(b),
        forall|x: TimeSeries| a.contains(x) <==> b.contains(x),
    ensures
        script_run_spec(m, strategy, a, outcomes) == script_run_spec(m, strategy, b, outcomes),
        run_spec(m, strategy, a) == run_spec(m, strategy, b),
{
    lemma_same_contents_same_lookups(a, b);
    lemma_orders_same(a, b);
    lemma_steps_same(m, strategy, a, b, timeline(a), outcomes, timeline(a).len());
    lemma_steps_same(m, strategy, a, b, timeline(a), Seq::empty(), timeline(a).len());
}

} // verus!
