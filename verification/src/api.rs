//! What the service computes for a backtest request.
use crate::backtest::{run_gives, run_spec, script_run_spec};
use crate::script::ScriptOutcome;
use crate::decimal::Dec;
use crate::domain::{series_distinct, Strategy, TimeSeries};
use crate::engine::{BacktestEngine, BacktestError, EngineState};
use crate::metrics::{calculate_metrics, metrics_spec, BacktestMetrics};
use vstd::prelude::*;

verus! {

/// The cash a backtest starts with: 100 000.
pub open spec fn starting_state() -> EngineState {
    EngineState {
        cash: Dec::spec_from_usize(100000),
        positions: Seq::empty(),
        history: Seq::empty(),
        trades: Seq::empty(),
        last_rebalance: None,
    }
}

/// The metrics of a backtest over the series (at most one per asset) that
/// starts with 100 000 in cash: the metrics of the history the run left,
/// or the error it stopped with.  A script strategy's script decides the
/// outcome of each step; a rule-based backtest is exactly [`run_spec`].
pub open spec fn backtest_result(
    strategy: Strategy,
    data: Seq<TimeSeries>,
    outcomes: Seq<ScriptOutcome>,
) -> Result<BacktestMetrics, BacktestError> {
    match script_run_spec(starting_state(), strategy, data, outcomes) {
        Err(e) => Err(e),
        Ok(s) => metrics_spec(s.history),
    }
}

/// The metrics of a backtest (see [`backtest_result`]).
pub fn run_backtest(strategy: &Strategy, data: &Vec<TimeSeries>) -> (r: Result<
    BacktestMetrics,
    BacktestError,
>)
    requires
        series_distinct(data@),
    ensures
        exists|os: Seq<ScriptOutcome>| r == #[trigger] backtest_result(*strategy, data@, os),
        strategy.strategy_type is RuleBased ==> r == backtest_result(*strategy, data@, Seq::empty()),
{
    let mut engine = BacktestEngine::new(Dec::from_usize(100000));
    assert(engine@.positions =~= Seq::<crate::domain::Position>::empty());
    assert(engine@.history =~= Seq::<crate::engine::PortfolioSnapshot>::empty());
    assert(engine@.trades =~= Seq::<crate::domain::Order>::empty());
    assert(engine@ == starting_state());
    let ran = engine.run(strategy, data);
    let ghost os = choose|os: Seq<ScriptOutcome>| run_gives(starting_state(), *strategy, data@, os, ran, engine@);
    let r = match ran {
        Err(e) => Err(e),
        Ok(()) => calculate_metrics(&engine.history),
    };
    assert(r == backtest_result(*strategy, data@, os));
    r
}

} // verus!
