# quantara

A rules-based multi-asset backtesting engine, verified with Verus.

`src/` is the verified library:

- `decimal` — `Dec`, a 96-bit decimal with a scale up to 28; its arithmetic
  and comparisons are computed by `rust_decimal`.
- `domain` — assets, price series, rules, strategies, orders, positions.
  Ids are UUIDs held as `u128`; timestamps are nanoseconds since the epoch.
- `signals` — price lookup, SMA, RSI, rule evaluation.
- `trading` — buying, selling and valuing positions.
- `timeline` — the sorted, distinct timestamps a backtest steps through.
- `assets` — the order in which a step considers assets for entry: by
  increasing id, whatever the order of the series.
- `script` — what a script strategy is shown, and how its signal is acted on.
- `python` — running a strategy's script in the embedded interpreter (pyo3).
- `backtest` — one step and a whole run.
- `metrics` — total return, maximum drawdown, final value.
- `api` — the metrics of a backtest that starts with 100 000 in cash.
- `laws` — properties that span operations and whole runs.
- `series_order` — a run depends on what the series hold, not on their
  order.

Each operation is specified by a function over the engine's state
(`EngineState`); a decimal operation that overflows or divides by zero ends
the operation with `BacktestError::Arithmetic`.

`app/` is the HTTP service (axum): JSON models with serde derives and the
conversions to the library's types.
