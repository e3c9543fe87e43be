//! The backtesting engine: its state, the snapshot it records at every
//! timestamp, and the errors it reports.
use crate::decimal::Dec;
use crate::domain::{Order, Portfolio, Position};
use vstd::prelude::*;

verus! {

/// The valuation of the portfolio at one timestamp.
#[derive(Clone, Copy, Debug)]
pub struct PortfolioSnapshot {
    pub timestamp: i128,
    pub total_value: Dec,
    pub cash: Dec,
    pub holdings_value: Dec,
}

/// Why a backtest stopped.
#[derive(Clone, Debug)]
pub enum BacktestError {
    /// A decimal operation overflowed or divided by zero (or a window length
    /// overflowed `usize`).
    Arithmetic,
    /// The strategy's script failed; the text is its error message.
    Script(String),
}

/// The simulated account and what it recorded.
pub struct BacktestEngine {
    pub portfolio: Portfolio,
    pub history: Vec<PortfolioSnapshot>,
    pub trades: Vec<Order>,
    pub last_rebalance: Option<i128>,
}

/// An order as the model keeps it: everything but its random id.
pub open spec fn without_id(o: Order) -> Order {
    Order { id: 0, ..o }
}

/// `before` is the start of `after` (ids included).
pub open spec fn orders_prefix(before: Seq<Order>, after: Seq<Order>) -> bool {
    &&& before.len() <= after.len()
    &&& forall|i: int| 0 <= i < before.len() ==> #[trigger] after[i] == before[i]
}

/// The orders as the model keeps them.
pub open spec fn order_models(orders: Seq<Order>) -> Seq<Order> {
    orders.map_values(|o: Order| without_id(o))
}

/// Where the orders of `before` start `after`, their models start the
/// model of `after` too.
pub proof fn lemma_orders_prefix_view(before: Seq<Order>, after: Seq<Order>)
    requires
        orders_prefix(before, after),
    ensures
        orders_prefix(order_models(before), order_models(after)),
{
    assert forall|i: int| 0 <= i < before.len() implies #[trigger] order_models(after)[i]
        == order_models(before)[i] by {
        assert(after[i] == before[i]);
    }
}

/// At most one position is held, and while one is held there is no cash:
/// every purchase spends all the cash.
pub open spec fn single_holding(m: EngineState) -> bool {
    &&& m.positions.len() <= 1
    &&& m.positions.len() == 1 ==> m.cash.value() == 0
}

/// A call that returned `r` and left the engine in the state `f` did what
/// `expected` says: its result and state where that is `Ok`, its error
/// otherwise.
pub open spec fn gives(expected: Result<EngineState, BacktestError>, r: Result<(), BacktestError>, f: EngineState) -> bool {
    match expected {
        Ok(s) => r is Ok && f == s,
        Err(e) => r == Err::<(), BacktestError>(e),
    }
}

/// No cash is owed and no position is short.
pub open spec fn nothing_negative(m: EngineState) -> bool {
    &&& m.cash.value() >= 0
    &&& forall|i: int| 0 <= i < m.positions.len() ==> (#[trigger] m.positions[i]).quantity.value() >= 0
}

/// The state of an engine, as the specifications see it.
pub struct EngineState {
    pub cash: Dec,
    pub positions: Seq<Position>,
    pub history: Seq<PortfolioSnapshot>,
    pub trades: Seq<Order>,
    pub last_rebalance: Option<i128>,
}

impl View for BacktestEngine {
    type V = EngineState;

    open spec fn view(&self) -> EngineState {
        EngineState {
            cash: self.portfolio.cash,
            positions: self.portfolio.positions@,
            history: self.history@,
            trades: order_models(self.trades@),
            last_rebalance: self.last_rebalance,
        }
    }
}

impl BacktestEngine {
    /// An engine holding `initial_cash` and nothing else.
    pub fn new(initial_cash: Dec) -> (r: Self)
        ensures
            r.portfolio.cash == initial_cash,
            r.portfolio.positions@.len() == 0,
            r.history@.len() == 0,
            r.trades@.len() == 0,
            r.last_rebalance is None,
            r.portfolio.well_formed(),
    {
        BacktestEngine {
            portfolio: Portfolio { cash: initial_cash, positions: Vec::new() },
            history: Vec::new(),
            trades: Vec::new(),
            last_rebalance: None,
        }
    }
}

} // verus!
