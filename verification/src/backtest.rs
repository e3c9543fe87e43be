//! One step of a backtest, and a whole run.
use crate::assets::{asset_ids, asset_order};
use crate::decimal::{dec_add, decimal_add};
use crate::domain::{series_distinct, Position, Rule, Strategy, StrategyType, TimeSeries};
use crate::engine::{gives, lemma_orders_prefix_view, nothing_negative, orders_prefix, single_holding, BacktestEngine, BacktestError, EngineState, PortfolioSnapshot};
use crate::script::{script_turn_spec, ScriptOutcome};
use crate::signals::{find_position, position_index, prices_positive, should_enter_spec, should_exit_spec};
use crate::timeline::{backtest_timestamps, elapsed_whole_days, timeline, trunc_div, NANOS_PER_DAY};
use crate::trading::{buy_spec, holdings_spec, sell_spec};
use vstd::prelude::*;

verus! {

/// The assets, among the first `n` positions, whose exit rules hold, in
/// order.
pub open spec fn exit_ids_upto(
    positions: Seq<Position>,
    exit_rules: Seq<Rule>,
    series: Seq<TimeSeries>,
    t: i128,
    n: nat,
) -> Result<Seq<u128>, BacktestError>
    decreases n,
{
    if n == 0 {
        Ok(Seq::empty())
    } else {
        match exit_ids_upto(positions, exit_rules, series, t, (n - 1) as nat) {
            Err(e) => Err(e),
            Ok(ids) => match should_exit_spec(exit_rules, series, positions[n - 1].asset_id, t) {
                Err(e) => Err(e),
                Ok(true) => Ok(ids.push(positions[n - 1].asset_id)),
                Ok(false) => Ok(ids),
            },
        }
    }
}

/// Selling the first `n` assets of `ids`, one after the other.
pub open spec fn sell_all_upto(
    m: EngineState,
    ids: Seq<u128>,
    series: Seq<TimeSeries>,
    t: i128,
    n: nat,
) -> Result<EngineState, BacktestError>
    decreases n,
{
    if n == 0 {
        Ok(m)
    } else {
        match sell_all_upto(m, ids, series, t, (n - 1) as nat) {
            Err(e) => Err(e),
            Ok(s) => sell_spec(s, ids[n - 1], t, series),
        }
    }
}

/// Going through the first `n` assets of `ids` in order: an asset without
/// a position whose entry rules hold is bought.
pub open spec fn enter_upto(
    m: EngineState,
    entry_rules: Seq<Rule>,
    series: Seq<TimeSeries>,
    ids: Seq<u128>,
    t: i128,
    n: nat,
) -> Result<EngineState, BacktestError>
    decreases n,
{
    if n == 0 {
        Ok(m)
    } else {
        match enter_upto(m, entry_rules, series, ids, t, (n - 1) as nat) {
            Err(e) => Err(e),
            Ok(s) => {
                let id: u128 = ids[n - 1];
                if position_index(s.positions, id) is None {
                    match should_enter_spec(entry_rules, series, id, t) {
                        Err(e) => Err(e),
                        Ok(true) => buy_spec(s, id, t, series),
                        Ok(false) => Ok(s),
                    }
                } else {
                    Ok(s)
                }
            },
        }
    }
}

/// A rule-based step: every held asset whose exit rules hold is sold, then
/// every asset without a position whose entry rules hold is bought, the
/// assets taken by increasing id.
pub open spec fn process_rules_spec(
    m: EngineState,
    entry_rules: Seq<Rule>,
    exit_rules: Seq<Rule>,
    series: Seq<TimeSeries>,
    t: i128,
) -> Result<EngineState, BacktestError> {
    match exit_ids_upto(m.positions, exit_rules, series, t, m.positions.len()) {
        Err(e) => Err(e),
        Ok(ids) => match sell_all_upto(m, ids, series, t, ids.len()) {
            Err(e) => Err(e),
            Ok(s) => enter_upto(s, entry_rules, series, asset_order(series), t, asset_order(series).len()),
        },
    }
}

/// Records the valuation at `t`: cash, holdings, and their sum.
pub open spec fn snapshot_spec(m: EngineState, t: i128, series: Seq<TimeSeries>) -> Result<
    EngineState,
    BacktestError,
> {
    match holdings_spec(m.positions, series, t) {
        None => Err(BacktestError::Arithmetic),
        Some(holdings) => match decimal_add(m.cash, holdings) {
            None => Err(BacktestError::Arithmetic),
            Some(total) => Ok(
                EngineState {
                    history: m.history.push(
                        PortfolioSnapshot {
                            timestamp: t,
                            total_value: total,
                            cash: m.cash,
                            holdings_value: holdings,
                        },
                    ),
                    ..m
                },
            ),
        },
    }
}

/// The trading decisions of a step: by the rules, or by the script's
/// signal (a failed script stops the backtest with its message).
pub open spec fn strategy_spec(
    m: EngineState,
    t: i128,
    strategy_type: StrategyType,
    series: Seq<TimeSeries>,
    outcome: ScriptOutcome,
) -> Result<EngineState, BacktestError> {
    match strategy_type {
        StrategyType::RuleBased { entry_rules, exit_rules } => process_rules_spec(
            m,
            entry_rules@,
            exit_rules@,
            series,
            t,
        ),
        StrategyType::Python { .. } => script_turn_spec(m, t, series, outcome),
    }
}

/// Rebalancing: with an interval, the portfolio is rebalanced (which changes
/// no holding) at the first step and then whenever at least that many whole
/// days have passed since the last rebalancing.
pub open spec fn rebalance_spec(m: EngineState, t: i128, interval: Option<i64>) -> EngineState {
    match interval {
        None => m,
        Some(days) => {
            let due = match m.last_rebalance {
                None => true,
                Some(last) => trunc_div(t - last, NANOS_PER_DAY as int) >= days,
            };
            if due {
                EngineState { last_rebalance: Some(t), ..m }
            } else {
                m
            }
        },
    }
}

/// One step at timestamp `t`: record the valuation, trade, rebalance.
pub open spec fn step_spec(
    m: EngineState,
    t: i128,
    strategy: Strategy,
    series: Seq<TimeSeries>,
    outcome: ScriptOutcome,
) -> Result<EngineState, BacktestError> {
    match snapshot_spec(m, t, series) {
        Err(e) => Err(e),
        Ok(s) => match strategy_spec(s, t, strategy.strategy_type, series, outcome) {
            Err(e) => Err(e),
            Ok(s2) => Ok(rebalance_spec(s2, t, strategy.rebalance_interval_days)),
        },
    }
}

/// The first `n` steps of a backtest over the timestamps `ts`, the script
/// (of a script strategy) giving `outcomes[k]` at step `k`.
pub open spec fn steps_upto(
    m: EngineState,
    strategy: Strategy,
    series: Seq<TimeSeries>,
    ts: Seq<i128>,
    outcomes: Seq<ScriptOutcome>,
    n: nat,
) -> Result<EngineState, BacktestError>
    decreases n,
{
    if n == 0 {
        Ok(m)
    } else {
        match steps_upto(m, strategy, series, ts, outcomes, (n - 1) as nat) {
            Err(e) => Err(e),
            Ok(s) => step_spec(s, ts[n - 1], strategy, series, outcomes[n - 1]),
        }
    }
}

/// A whole backtest: one step per timestamp of the series, in increasing
/// order, the script (of a script strategy) giving `outcomes[k]` at step
/// `k`.
pub open spec fn script_run_spec(
    m: EngineState,
    strategy: Strategy,
    series: Seq<TimeSeries>,
    outcomes: Seq<ScriptOutcome>,
) -> Result<EngineState, BacktestError> {
    steps_upto(m, strategy, series, timeline(series), outcomes, timeline(series).len())
}

/// A whole rule-based backtest, where no script is run.
pub open spec fn run_spec(m: EngineState, strategy: Strategy, series: Seq<TimeSeries>) -> Result<
    EngineState,
    BacktestError,
> {
    script_run_spec(m, strategy, series, Seq::empty())
}

/// A run that returned `r` and left the state `f` did what
/// [`script_run_spec`] says for `outcomes`, and where it stopped with an
/// error, it stopped at the first step that failed, after the steps before
/// it, leaving what [`failed_step`] says.
pub open spec fn run_gives(
    m: EngineState,
    strategy: Strategy,
    series: Seq<TimeSeries>,
    outcomes: Seq<ScriptOutcome>,
    r: Result<(), BacktestError>,
    f: EngineState,
) -> bool {
    &&& gives(script_run_spec(m, strategy, series, outcomes), r, f)
    &&& r is Err ==> exists|k: int|
        0 <= k < timeline(series).len() && #[trigger] steps_upto(m, strategy, series, timeline(series), outcomes, k as nat)
            is Ok && failed_step(
            steps_upto(m, strategy, series, timeline(series), outcomes, k as nat)->Ok_0,
            timeline(series)[k],
            strategy,
            series,
            f,
        )
}

/// The steps depend only on the outcomes of the steps taken.
pub proof fn lemma_steps_prefix(
    m: EngineState,
    strategy: Strategy,
    series: Seq<TimeSeries>,
    ts: Seq<i128>,
    a: Seq<ScriptOutcome>,
    b: Seq<ScriptOutcome>,
    n: nat,
)
    requires
        n <= a.len(),
        n <= b.len(),
        forall|k: int| 0 <= k < n ==> a[k] == b[k],
    ensures
        steps_upto(m, strategy, series, ts, a, n) == steps_upto(m, strategy, series, ts, b, n),
    decreases n,
{
    if n > 0 {
        lemma_steps_prefix(m, strategy, series, ts, a, b, (n - 1) as nat);
    }
}

/// Where no script runs, a step does not depend on script outcomes.
pub proof fn lemma_rule_step(m: EngineState, t: i128, strategy: Strategy, series: Seq<TimeSeries>, o: ScriptOutcome)
    requires
        strategy.strategy_type is RuleBased,
    ensures
        step_spec(m, t, strategy, series, o) == step_spec(m, t, strategy, series, ScriptOutcome::NoSignal),
{
}

/// Where no script runs, the steps do not depend on script outcomes.
pub proof fn lemma_rule_steps(
    m: EngineState,
    strategy: Strategy,
    series: Seq<TimeSeries>,
    ts: Seq<i128>,
    a: Seq<ScriptOutcome>,
    b: Seq<ScriptOutcome>,
    n: nat,
)
    requires
        strategy.strategy_type is RuleBased,
    ensures
        steps_upto(m, strategy, series, ts, a, n) == steps_upto(m, strategy, series, ts, b, n),
    decreases n,
{
    if n > 0 {
        lemma_rule_steps(m, strategy, series, ts, a, b, (n - 1) as nat);
        if let Ok(s) = steps_upto(m, strategy, series, ts, a, (n - 1) as nat) {
            lemma_rule_step(s, ts[n - 1], strategy, series, a[n - 1]);
            lemma_rule_step(s, ts[n - 1], strategy, series, b[n - 1]);
        }
    }
}

/// What a step at `t` that stopped with an error leaves behind, from the
/// state `m` it started in: the rebalancing date as it was and the earlier
/// orders in place; if the valuation failed, nothing changed at all;
/// otherwise the valuation was recorded, and for a script strategy nothing
/// else changed.
pub open spec fn failed_step(
    m: EngineState,
    t: i128,
    strategy: Strategy,
    series: Seq<TimeSeries>,
    f: EngineState,
) -> bool {
    &&& f.last_rebalance == m.last_rebalance
    &&& orders_prefix(m.trades, f.trades)
    &&& match snapshot_spec(m, t, series) {
        Err(_) => f == m,
        Ok(s) => {
            &&& f.history == s.history
            &&& strategy.strategy_type is Python ==> f == s
        },
    }
}

pub proof fn lemma_exit_ids_err(
    positions: Seq<Position>,
    exit_rules: Seq<Rule>,
    series: Seq<TimeSeries>,
    t: i128,
    j: nat,
    k: nat,
)
    requires
        j <= k,
        exit_ids_upto(positions, exit_rules, series, t, j) is Err,
    ensures
        exit_ids_upto(positions, exit_rules, series, t, k) == exit_ids_upto(
            positions,
            exit_rules,
            series,
            t,
            j,
        ),
    decreases k - j,
{
    if j < k {
        lemma_exit_ids_err(positions, exit_rules, series, t, j, (k - 1) as nat);
    }
}

pub proof fn lemma_sell_all_err(
    m: EngineState,
    ids: Seq<u128>,
    series: Seq<TimeSeries>,
    t: i128,
    j: nat,
    k: nat,
)
    requires
        j <= k,
        sell_all_upto(m, ids, series, t, j) is Err,
    ensures
        sell_all_upto(m, ids, series, t, k) == sell_all_upto(m, ids, series, t, j),
    decreases k - j,
{
    if j < k {
        lemma_sell_all_err(m, ids, series, t, j, (k - 1) as nat);
    }
}

pub proof fn lemma_enter_err(
    m: EngineState,
    entry_rules: Seq<Rule>,
    series: Seq<TimeSeries>,
    ids: Seq<u128>,
    t: i128,
    j: nat,
    k: nat,
)
    requires
        j <= k,
        enter_upto(m, entry_rules, series, ids, t, j) is Err,
    ensures
        enter_upto(m, entry_rules, series, ids, t, k) == enter_upto(m, entry_rules, series, ids, t, j),
    decreases k - j,
{
    if j < k {
        lemma_enter_err(m, entry_rules, series, ids, t, j, (k - 1) as nat);
    }
}

pub proof fn lemma_steps_err(
    m: EngineState,
    strategy: Strategy,
    series: Seq<TimeSeries>,
    ts: Seq<i128>,
    outcomes: Seq<ScriptOutcome>,
    j: nat,
    k: nat,
)
    requires
        j <= k,
        steps_upto(m, strategy, series, ts, outcomes, j) is Err,
    ensures
        steps_upto(m, strategy, series, ts, outcomes, k) == steps_upto(m, strategy, series, ts, outcomes, j),
    decreases k - j,
{
    if j < k {
        lemma_steps_err(m, strategy, series, ts, outcomes, j, (k - 1) as nat);
    }
}

impl BacktestEngine {
    /// A rule-based step (see [`process_rules_spec`]).  Earlier orders, the
    /// history and the rebalancing date are kept.
    pub fn process_rule_based(
        &mut self,
        timestamp: i128,
        entry_rules: &Vec<Rule>,
        exit_rules: &Vec<Rule>,
        series: &Vec<TimeSeries>,
    ) -> (r: Result<(), BacktestError>)
        ensures
            r is Ok <==> process_rules_spec(old(self)@, entry_rules@, exit_rules@, series@, timestamp) is Ok,
            r is Ok ==> final(self)@ == process_rules_spec(old(self)@, entry_rules@, exit_rules@, series@, timestamp)->Ok_0,
            r is Err ==> process_rules_spec(old(self)@, entry_rules@, exit_rules@, series@, timestamp) == Err::<EngineState, BacktestError>(r->Err_0),
            orders_prefix(old(self).trades@, final(self).trades@),
            final(self).history@ == old(self).history@,
            final(self).last_rebalance == old(self).last_rebalance,
            single_holding(old(self)@) ==> single_holding(final(self)@),
            old(self).portfolio.well_formed() ==> final(self).portfolio.well_formed(),
            nothing_negative(old(self)@) && prices_positive(series@) ==> nothing_negative(final(self)@),
    {
        let ghost m0 = self@;
        let mut to_sell: Vec<u128> = Vec::new();
        let mut i: usize = 0;
        while i < self.portfolio.positions.len()
            invariant
                0 <= i <= self.portfolio.positions@.len(),
                self@ == m0,
                self.trades@ == old(self).trades@,
                self.history@ == old(self).history@,
                self.last_rebalance == old(self).last_rebalance,
                exit_ids_upto(m0.positions, exit_rules@, series@, timestamp, i as nat) == Ok::<
                    Seq<u128>,
                    BacktestError,
                >(to_sell@),
            decreases self.portfolio.positions.len() - i,
        {
            let id: u128 = self.portfolio.positions[i].asset_id;
            match self.should_exit_rules(id, timestamp, exit_rules, series) {
                Err(e) => {
                    proof {
                        assert(exit_ids_upto(m0.positions, exit_rules@, series@, timestamp, (i + 1) as nat) == Err::<Seq<u128>, BacktestError>(e));
                        lemma_exit_ids_err(
                            m0.positions,
                            exit_rules@,
                            series@,
                            timestamp,
                            (i + 1) as nat,
                            m0.positions.len(),
                        );
                    }
                    return Err(e);
                },
                Ok(true) => {
                    to_sell.push(id);
                },
                Ok(false) => {},
            }
            i = i + 1;
        }
        let mut k: usize = 0;
        while k < to_sell.len()
            invariant
                0 <= k <= to_sell@.len(),
                m0 == old(self)@,
                orders_prefix(old(self).trades@, self.trades@),
                self.history@ == old(self).history@,
                self.last_rebalance == old(self).last_rebalance,
                single_holding(old(self)@) ==> single_holding(self@),
                old(self).portfolio.well_formed() ==> self.portfolio.well_formed(),
                nothing_negative(old(self)@) && prices_positive(series@) ==> nothing_negative(self@),
                exit_ids_upto(m0.positions, exit_rules@, series@, timestamp, m0.positions.len())
                    == Ok::<Seq<u128>, BacktestError>(to_sell@),
                sell_all_upto(m0, to_sell@, series@, timestamp, k as nat) == Ok::<
                    EngineState,
                    BacktestError,
                >(self@),
            decreases to_sell.len() - k,
        {
            match self.execute_sell(to_sell[k], timestamp, series) {
                Err(e) => {
                    proof {
                        lemma_sell_all_err(
                            m0,
                            to_sell@,
                            series@,
                            timestamp,
                            (k + 1) as nat,
                            to_sell@.len(),
                        );
                    }
                    return Err(e);
                },
                Ok(()) => {},
            }
            k = k + 1;
        }
        let ghost m1 = self@;
        let ids = asset_ids(series);
        let mut s: usize = 0;
        while s < ids.len()
            invariant
                0 <= s <= ids@.len(),
                ids@ == asset_order(series@),
                m0 == old(self)@,
                orders_prefix(old(self).trades@, self.trades@),
                self.history@ == old(self).history@,
                self.last_rebalance == old(self).last_rebalance,
                single_holding(old(self)@) ==> single_holding(self@),
                old(self).portfolio.well_formed() ==> self.portfolio.well_formed(),
                nothing_negative(old(self)@) && prices_positive(series@) ==> nothing_negative(self@),
                exit_ids_upto(m0.positions, exit_rules@, series@, timestamp, m0.positions.len())
                    == Ok::<Seq<u128>, BacktestError>(to_sell@),
                sell_all_upto(m0, to_sell@, series@, timestamp, to_sell@.len()) == Ok::<
                    EngineState,
                    BacktestError,
                >(m1),
                enter_upto(m1, entry_rules@, series@, ids@, timestamp, s as nat) == Ok::<
                    EngineState,
                    BacktestError,
                >(self@),
            decreases ids.len() - s,
        {
            let id: u128 = ids[s];
            if find_position(&self.portfolio.positions, id).is_none() {
                match self.should_enter_rules(id, timestamp, entry_rules, series) {
                    Err(e) => {
                        proof {
                            assert(enter_upto(m1, entry_rules@, series@, ids@, timestamp, (s + 1) as nat) == Err::<EngineState, BacktestError>(e));
                            lemma_enter_err(
                                m1,
                                entry_rules@,
                                series@,
                                ids@,
                                timestamp,
                                (s + 1) as nat,
                                ids@.len(),
                            );
                        }
                        return Err(e);
                    },
                    Ok(true) => {
                        match self.execute_buy(id, timestamp, series) {
                            Err(e) => {
                                proof {
                                    lemma_enter_err(
                                        m1,
                                        entry_rules@,
                                        series@,
                                        ids@,
                                        timestamp,
                                        (s + 1) as nat,
                                        ids@.len(),
                                    );
                                }
                                return Err(e);
                            },
                            Ok(()) => {},
                        }
                    },
                    Ok(false) => {},
                }
            }
            s = s + 1;
        }
        Ok(())
    }

    /// Rebalancing, which in this engine changes no holding.
    pub fn rebalance(&mut self, timestamp: i128, series: &Vec<TimeSeries>) -> (r: Result<
        (),
        BacktestError,
    >)
        ensures
            r is Ok,
            final(self)@ == old(self)@,
            final(self).trades@ == old(self).trades@,
    {
        Ok(())
    }

    /// One step at `timestamp` (see [`step_spec`]): the valuation is
    /// recorded, the strategy trades (a script strategy's script is run, see
    /// [`BacktestEngine::process_python`]; it decides the outcome), and the
    /// portfolio is rebalanced when due.  Earlier orders are kept; a step
    /// that stops with an error leaves what [`failed_step`] says (so a failed
    /// script leaves the valuation recorded and nothing else changed).
    pub fn step(&mut self, timestamp: i128, strategy: &Strategy, series: &Vec<TimeSeries>) -> (r:
        Result<(), BacktestError>)
        ensures
            exists|o: ScriptOutcome| #[trigger] gives(step_spec(old(self)@, timestamp, *strategy, series@, o), r, final(self)@),
            strategy.strategy_type is RuleBased ==> gives(
                step_spec(old(self)@, timestamp, *strategy, series@, ScriptOutcome::NoSignal),
                r,
                final(self)@,
            ),
            orders_prefix(old(self).trades@, final(self).trades@),
            r is Err ==> failed_step(old(self)@, timestamp, *strategy, series@, final(self)@),
            r is Err && (strategy.strategy_type is Python || snapshot_spec(old(self)@, timestamp, series@) is Err)
                ==> final(self).trades@ == old(self).trades@,
            single_holding(old(self)@) ==> single_holding(final(self)@),
            old(self).portfolio.well_formed() ==> final(self).portfolio.well_formed(),
            nothing_negative(old(self)@) && prices_positive(series@) ==> nothing_negative(final(self)@),
    {
        let ghost mut o = ScriptOutcome::NoSignal;
        let holdings_value = match self.holdings_value(timestamp, series) {
            None => {
                assert(gives(step_spec(old(self)@, timestamp, *strategy, series@, o), Err(BacktestError::Arithmetic), self@));
                return Err(BacktestError::Arithmetic);
            },
            Some(v) => v,
        };
        let total_value = match dec_add(self.portfolio.cash, holdings_value) {
            None => {
                assert(gives(step_spec(old(self)@, timestamp, *strategy, series@, o), Err(BacktestError::Arithmetic), self@));
                return Err(BacktestError::Arithmetic);
            },
            Some(v) => v,
        };
        self.history.push(
            PortfolioSnapshot { timestamp, total_value, cash: self.portfolio.cash, holdings_value },
        );
        let ghost snap = self@;
        match &strategy.strategy_type {
            StrategyType::RuleBased { entry_rules, exit_rules } => {
                match self.process_rule_based(timestamp, entry_rules, exit_rules, series) {
                    Err(e) => {
                        proof {
                            lemma_orders_prefix_view(old(self).trades@, self.trades@);
                        }
                        assert(gives(step_spec(old(self)@, timestamp, *strategy, series@, o), Err(e), self@));
                        return Err(e);
                    },
                    Ok(()) => {},
                }
            },
            StrategyType::Python { script } => {
                let traded = self.process_python(timestamp, script.as_str(), series);
                proof {
                    o = choose|o: ScriptOutcome| gives(script_turn_spec(snap, timestamp, series@, o), traded, self@);
                }
                match traded {
                    Err(e) => {
                        assert(gives(step_spec(old(self)@, timestamp, *strategy, series@, o), Err(e), self@));
                        return Err(e);
                    },
                    Ok(()) => {},
                }
            },
        }
        match strategy.rebalance_interval_days {
            None => {},
            Some(interval) => {
                let due = match self.last_rebalance {
                    None => true,
                    Some(last) => elapsed_whole_days(timestamp, last) >= interval as i128,
                };
                if due {
                    match self.rebalance(timestamp, series) {
                        Err(e) => return Err(e),
                        Ok(()) => {},
                    }
                    self.last_rebalance = Some(timestamp);
                }
            },
        }
        assert(gives(step_spec(old(self)@, timestamp, *strategy, series@, o), Ok(()), self@));
        Ok(())
    }

    /// Runs a backtest over the series (at most one per asset): one step per
    /// timestamp of the series, in increasing order (see
    /// [`script_run_spec`]; for a script strategy the script decides the
    /// outcome of each step, and for a rule-based one the run is exactly
    /// [`run_spec`]).  Assets are considered for entry by increasing id, so
    /// the order of the series does not matter (see
    /// [`crate::series_order::lemma_run_ignores_series_order`]); new orders
    /// get fresh random ids.  Earlier orders are kept; a run that stops with
    /// an error stops at the first step that fails, after the steps before
    /// it, and leaves what [`failed_step`] says.  Whether it succeeds or not,
    /// a run keeps at most one position, and no cash while it holds one, and
    /// no asset with two positions (where these held before), and, where
    /// every bar closes above zero, never owes cash nor goes short.
    pub fn run(&mut self, strategy: &Strategy, series: &Vec<TimeSeries>) -> (r: Result<
        (),
        BacktestError,
    >)
        requires
            series_distinct(series@),
        ensures
            exists|os: Seq<ScriptOutcome>| #[trigger] run_gives(old(self)@, *strategy, series@, os, r, final(self)@),
            strategy.strategy_type is RuleBased ==> run_gives(
                old(self)@,
                *strategy,
                series@,
                Seq::empty(),
                r,
                final(self)@,
            ),
            orders_prefix(old(self).trades@, final(self).trades@),
            single_holding(old(self)@) ==> single_holding(final(self)@),
            old(self).portfolio.well_formed() ==> final(self).portfolio.well_formed(),
            nothing_negative(old(self)@) && prices_positive(series@) ==> nothing_negative(final(self)@),
    {
        let timestamps = backtest_timestamps(series);
        let ghost m0 = self@;
        let ghost mut os: Seq<ScriptOutcome> = Seq::empty();
        let mut i: usize = 0;
        while i < timestamps.len()
            invariant
                0 <= i <= timestamps@.len(),
                m0 == old(self)@,
                timestamps@ == timeline(series@),
                os.len() == i,
                steps_upto(m0, *strategy, series@, timestamps@, os, i as nat) == Ok::<
                    EngineState,
                    BacktestError,
                >(self@),
                orders_prefix(old(self).trades@, self.trades@),
                single_holding(old(self)@) ==> single_holding(self@),
                old(self).portfolio.well_formed() ==> self.portfolio.well_formed(),
                nothing_negative(old(self)@) && prices_positive(series@) ==> nothing_negative(self@),
            decreases timestamps.len() - i,
        {
            let ghost prev = self@;
            let stepped = self.step(timestamps[i], strategy, series);
            proof {
                let o = choose|o: ScriptOutcome|
                    gives(step_spec(prev, timestamps@[i as int], *strategy, series@, o), stepped, self@);
                lemma_steps_prefix(m0, *strategy, series@, timestamps@, os, os.push(o), i as nat);
                os = os.push(o);
            }
            match stepped {
                Err(e) => {
                    proof {
                        let n = timestamps@.len();
                        assert(steps_upto(m0, *strategy, series@, timestamps@, os, (i + 1) as nat) == Err::<EngineState, BacktestError>(e));
                        lemma_steps_err(m0, *strategy, series@, timestamps@, os, (i + 1) as nat, n);
                        lemma_steps_prefix(m0, *strategy, series@, timestamps@, os.drop_last(), os, i as nat);
                        assert(steps_upto(m0, *strategy, series@, timestamps@, os, i as nat) == Ok::<EngineState, BacktestError>(prev));
                        assert(failed_step(prev, timestamps@[i as int], *strategy, series@, self@));
                        assert(run_gives(m0, *strategy, series@, os, Err(e), self@));
                        if strategy.strategy_type is RuleBased {
                            lemma_rule_steps(m0, *strategy, series@, timestamps@, os, Seq::empty(), n);
                            lemma_rule_steps(m0, *strategy, series@, timestamps@, os, Seq::empty(), i as nat);
                            assert(steps_upto(m0, *strategy, series@, timestamps@, Seq::empty(), i as nat) is Ok);
                            assert(run_gives(m0, *strategy, series@, Seq::empty(), Err(e), self@));
                        }
                    }
                    return Err(e);
                },
                Ok(()) => {},
            }
            i = i + 1;
        }
        proof {
            assert(run_gives(m0, *strategy, series@, os, Ok(()), self@));
            if strategy.strategy_type is RuleBased {
                lemma_rule_steps(m0, *strategy, series@, timestamps@, os, Seq::empty(), timestamps@.len());
            }
        }
        Ok(())
    }
}

} // verus!
