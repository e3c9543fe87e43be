//! Buying, selling and valuing positions.
use crate::decimal::{dec_add, dec_div, dec_lt, dec_mul, dec_sub, decimal_add, decimal_div, decimal_mul, decimal_sub, lemma_zero_fits, max_nat, Dec};
use crate::domain::{fresh_uuid, is_random_uuid, Order, OrderSide, Position, TimeSeries};
use crate::engine::{nothing_negative, order_models, orders_prefix, single_holding, without_id, BacktestEngine, BacktestError, EngineState};
use crate::signals::{find_position, lemma_price_positive, position_index, price_at, prices_positive};
use crate::laws::{lemma_buy_trading, lemma_sell_closes, lemma_sell_trading};
use vstd::prelude::*;

verus! {

/// An empty position in an asset.
pub open spec fn empty_position(id: u128) -> Position {
    Position { asset_id: id, quantity: Dec::spec_zero(), average_price: Dec::spec_zero() }
}

/// A position after buying `quantity` more at `price`: the quantity grows by
/// `quantity` and the average price becomes
/// `(average_price * quantity_before + price * quantity) / quantity_after`.
pub open spec fn bought_position(entry: Position, price: Dec, quantity: Dec) -> Option<Position> {
    match (decimal_mul(entry.average_price, entry.quantity), decimal_mul(price, quantity)) {
        (Some(cost_before), Some(cost_added)) => match decimal_add(cost_before, cost_added) {
            None => None,
            Some(total_cost) => match decimal_add(entry.quantity, quantity) {
                None => None,
                Some(new_quantity) => match decimal_div(total_cost, new_quantity) {
                    None => None,
                    Some(average) => Some(
                        Position {
                            asset_id: entry.asset_id,
                            quantity: new_quantity,
                            average_price: average,
                        },
                    ),
                },
            },
        },
        _ => None,
    }
}

/// Buying an asset at a timestamp: where it has a price and there is cash
/// (more than zero), all the cash buys `cash / price` units, which are added
/// to the asset's position (opened if there is none), and a buy order is
/// recorded.  Otherwise nothing changes.
pub open spec fn buy_spec(m: EngineState, id: u128, t: i128, series: Seq<TimeSeries>) -> Result<
    EngineState,
    BacktestError,
> {
    match price_at(series, id, t) {
        None => Ok(m),
        Some(price) => if m.cash.value() > 0 {
            match (decimal_div(m.cash, price), decimal_sub(m.cash, m.cash)) {
                (Some(quantity), Some(cash)) => {
                    let idx = position_index(m.positions, id);
                    let entry = match idx {
                        Some(i) => m.positions[i],
                        None => empty_position(id),
                    };
                    match bought_position(entry, price, quantity) {
                        None => Err(BacktestError::Arithmetic),
                        Some(p) => Ok(
                            EngineState {
                                cash: cash,
                                positions: match idx {
                                    Some(i) => m.positions.update(i, p),
                                    None => m.positions.push(p),
                                },
                                trades: m.trades.push(
                                    Order {
                                        id: 0,
                                        asset_id: id,
                                        quantity: quantity,
                                        price: price,
                                        timestamp: t,
                                        side: OrderSide::Buy,
                                    },
                                ),
                                ..m
                            },
                        ),
                    }
                },
                _ => Err(BacktestError::Arithmetic),
            }
        } else {
            Ok(m)
        },
    }
}

/// Selling an asset at a timestamp: its position is closed; where the asset
/// has a price, `quantity * price` is added to the cash and a sell order is
/// recorded (without a price the position is dropped unsold).  Without a
/// position nothing changes.
pub open spec fn sell_spec(m: EngineState, id: u128, t: i128, series: Seq<TimeSeries>) -> Result<
    EngineState,
    BacktestError,
> {
    match position_index(m.positions, id) {
        None => Ok(m),
        Some(i) => {
            let pos = m.positions[i];
            let rest = m.positions.remove(i);
            match price_at(series, id, t) {
                None => Ok(EngineState { positions: rest, ..m }),
                Some(price) => match decimal_mul(pos.quantity, price) {
                    None => Err(BacktestError::Arithmetic),
                    Some(proceeds) => match decimal_add(m.cash, proceeds) {
                        None => Err(BacktestError::Arithmetic),
                        Some(cash) => Ok(
                            EngineState {
                                cash: cash,
                                positions: rest,
                                trades: m.trades.push(
                                    Order {
                                        id: 0,
                                        asset_id: id,
                                        quantity: pos.quantity,
                                        price: price,
                                        timestamp: t,
                                        side: OrderSide::Sell,
                                    },
                                ),
                                ..m
                            },
                        ),
                    },
                },
            }
        },
    }
}

/// The value of the first `n` positions at their prices at `t`
/// (`quantity * price`, summed in order; a position without a price counts
/// nothing).  `None` on overflow.
pub open spec fn holdings_upto(positions: Seq<Position>, series: Seq<TimeSeries>, t: i128, n: nat) -> Option<Dec>
    decreases n,
{
    if n == 0 {
        Some(Dec::spec_zero())
    } else {
        match holdings_upto(positions, series, t, (n - 1) as nat) {
            None => None,
            Some(acc) => match price_at(series, positions[n - 1].asset_id, t) {
                None => Some(acc),
                Some(price) => match decimal_mul(positions[n - 1].quantity, price) {
                    None => None,
                    Some(v) => decimal_add(acc, v),
                },
            },
        }
    }
}

/// The value of all positions at `t`.
pub open spec fn holdings_spec(positions: Seq<Position>, series: Seq<TimeSeries>, t: i128) -> Option<Dec> {
    holdings_upto(positions, series, t, positions.len())
}

pub proof fn lemma_holdings_none(positions: Seq<Position>, series: Seq<TimeSeries>, t: i128, j: nat, k: nat)
    requires
        j <= k,
        holdings_upto(positions, series, t, j) is None,
    ensures
        holdings_upto(positions, series, t, k) is None,
    decreases k - j,
{
    if j < k {
        lemma_holdings_none(positions, series, t, j, (k - 1) as nat);
    }
}

/// A position after buying `quantity` more at `price`.
pub fn add_to_position(entry: Position, price: Dec, quantity: Dec) -> (r: Option<Position>)
    ensures
        r == bought_position(entry, price, quantity),
        (entry.quantity.value() >= 0 && quantity.value() >= 0 && r is Some) ==> r->0.quantity.value() >= 0,
{
    let cost_before = match dec_mul(entry.average_price, entry.quantity) {
        None => return None,
        Some(v) => v,
    };
    let cost_added = match dec_mul(price, quantity) {
        None => return None,
        Some(v) => v,
    };
    let total_cost = match dec_add(cost_before, cost_added) {
        None => return None,
        Some(v) => v,
    };
    let new_quantity = match dec_add(entry.quantity, quantity) {
        None => return None,
        Some(v) => v,
    };
    let average = match dec_div(total_cost, new_quantity) {
        None => return None,
        Some(v) => v,
    };
    Some(Position { asset_id: entry.asset_id, quantity: new_quantity, average_price: average })
}

impl BacktestEngine {
    /// The value of all positions at `timestamp`.
    pub fn holdings_value(&self, timestamp: i128, series: &Vec<TimeSeries>) -> (r: Option<Dec>)
        ensures
            r == holdings_spec(self.portfolio.positions@, series@, timestamp),
    {
        let positions = &self.portfolio.positions;
        let mut acc = Dec::zero();
        let mut i: usize = 0;
        while i < positions.len()
            invariant
                0 <= i <= positions@.len(),
                positions@ == self.portfolio.positions@,
                holdings_upto(positions@, series@, timestamp, i as nat) == Some(acc),
            decreases positions.len() - i,
        {
            let pos = positions[i];
            match self.get_price_at(pos.asset_id, timestamp, series) {
                None => {},
                Some(price) => {
                    let next = match dec_mul(pos.quantity, price) {
                        None => None,
                        Some(v) => dec_add(acc, v),
                    };
                    match next {
                        None => {
                            proof {
                                assert(holdings_upto(positions@, series@, timestamp, (i + 1) as nat) is None);
                                lemma_holdings_none(
                                    positions@,
                                    series@,
                                    timestamp,
                                    (i + 1) as nat,
                                    positions@.len(),
                                );
                            }
                            return None;
                        },
                        Some(v) => {
                            acc = v;
                        },
                    }
                },
            }
            i = i + 1;
        }
        Some(acc)
    }

    /// Buys an asset with all the cash (see [`buy_spec`]).  The order gets a
    /// fresh random (version 4) id; earlier orders, the history and the rebalancing date
    /// are kept; on an error nothing changes.
    pub fn execute_buy(&mut self, asset_id: u128, timestamp: i128, series: &Vec<TimeSeries>) -> (r:
        Result<(), BacktestError>)
        ensures
            r is Ok <==> buy_spec(old(self)@, asset_id, timestamp, series@) is Ok,
            r is Ok ==> final(self)@ == buy_spec(old(self)@, asset_id, timestamp, series@)->Ok_0,
            r is Err ==> r == Err::<(), BacktestError>(BacktestError::Arithmetic) && buy_spec(old(self)@, asset_id, timestamp, series@) == Err::<EngineState, BacktestError>(BacktestError::Arithmetic),
            r is Err ==> final(self)@ == old(self)@ && final(self).trades@ == old(self).trades@,
            orders_prefix(old(self).trades@, final(self).trades@),
            final(self).trades@.len() <= old(self).trades@.len() + 1,
            final(self).trades@.len() > old(self).trades@.len() ==> is_random_uuid(final(self).trades@[old(self).trades@.len() as int].id),
            final(self).history@ == old(self).history@,
            final(self).last_rebalance == old(self).last_rebalance,
            r is Ok && final(self).trades@.len() > old(self).trades@.len() ==> final(self).portfolio.cash.value() == 0,
            final(self).trades@.len() > old(self).trades@.len() ==> ({
                let o = final(self).trades@[old(self).trades@.len() as int];
                &&& o.asset_id == asset_id && o.timestamp == timestamp && o.side == OrderSide::Buy
                &&& price_at(series@, asset_id, timestamp) == Some(o.price)
                &&& old(self).portfolio.cash.value() > 0
                &&& decimal_div(old(self).portfolio.cash, o.price) == Some(o.quantity)
                &&& exists|i: int| 0 <= i < final(self).portfolio.positions@.len()
                    && #[trigger] final(self).portfolio.positions@[i].asset_id == asset_id
                    && decimal_add(
                        match position_index(old(self).portfolio.positions@, asset_id) {
                            Some(k) => old(self).portfolio.positions@[k].quantity,
                            None => Dec::spec_zero(),
                        },
                        o.quantity,
                    ) == Some(final(self).portfolio.positions@[i].quantity)
            }),
            (r is Ok && (price_at(series@, asset_id, timestamp) is None || old(self).portfolio.cash.value() <= 0))
                ==> final(self)@ == old(self)@ && final(self).trades@ == old(self).trades@,
            (r is Ok && price_at(series@, asset_id, timestamp) is Some && old(self).portfolio.cash.value() > 0)
                ==> final(self).trades@.len() == old(self).trades@.len() + 1,
            single_holding(old(self)@) ==> single_holding(final(self)@),
            old(self).portfolio.well_formed() ==> final(self).portfolio.well_formed(),
            nothing_negative(old(self)@) && prices_positive(series@) ==> nothing_negative(final(self)@),
    {
        let price = match self.get_price_at(asset_id, timestamp, series) {
            None => return Ok(()),
            Some(p) => p,
        };
        proof {
            if prices_positive(series@) {
                lemma_price_positive(series@, asset_id, timestamp);
            }
        }
        let amount_to_spend = self.portfolio.cash;
        if !dec_lt(Dec::zero(), amount_to_spend) {
            return Ok(());
        }
        let quantity = match dec_div(amount_to_spend, price) {
            None => return Err(BacktestError::Arithmetic),
            Some(q) => q,
        };
        proof {
            lemma_zero_fits(max_nat(amount_to_spend.scl(), amount_to_spend.scl()));
        }
        let cash = match dec_sub(self.portfolio.cash, amount_to_spend) {
            None => return Err(BacktestError::Arithmetic),
            Some(c) => c,
        };
        let idx = find_position(&self.portfolio.positions, asset_id);
        let entry = match idx {
            Some(i) => self.portfolio.positions[i],
            None => Position { asset_id, quantity: Dec::zero(), average_price: Dec::zero() },
        };
        let updated = match add_to_position(entry, price, quantity) {
            None => return Err(BacktestError::Arithmetic),
            Some(p) => p,
        };
        self.portfolio.cash = cash;
        match idx {
            Some(i) => {
                self.portfolio.positions.set(i, updated);
            },
            None => {
                self.portfolio.positions.push(updated);
            },
        }
        let order = Order {
            id: fresh_uuid(),
            asset_id,
            quantity,
            price,
            timestamp,
            side: OrderSide::Buy,
        };
        self.trades.push(order);
        proof {
            assert(order_models(self.trades@) =~= order_models(old(self).trades@).push(without_id(order)));
            assert(buy_spec(old(self)@, asset_id, timestamp, series@) is Ok);
            lemma_buy_trading(old(self)@, asset_id, timestamp, series@);
            let w: int = match idx {
                Some(i) => i as int,
                None => old(self).portfolio.positions@.len() as int,
            };
            assert(self.trades@[old(self).trades@.len() as int] == order);
            assert(self.portfolio.positions@[w] == updated);
            assert(0 <= w < self.portfolio.positions@.len() && self.portfolio.positions@[w].asset_id == asset_id);
        }
        Ok(())
    }

    /// Sells an asset's whole position (see [`sell_spec`]).  The order gets
    /// a fresh random (version 4) id; earlier orders, the history and the rebalancing
    /// date are kept; on an error nothing changes.
    pub fn execute_sell(&mut self, asset_id: u128, timestamp: i128, series: &Vec<TimeSeries>) -> (r:
        Result<(), BacktestError>)
        ensures
            r is Ok <==> sell_spec(old(self)@, asset_id, timestamp, series@) is Ok,
            r is Ok ==> final(self)@ == sell_spec(old(self)@, asset_id, timestamp, series@)->Ok_0,
            r is Err ==> r == Err::<(), BacktestError>(BacktestError::Arithmetic) && sell_spec(old(self)@, asset_id, timestamp, series@) == Err::<EngineState, BacktestError>(BacktestError::Arithmetic),
            r is Err ==> final(self)@ == old(self)@ && final(self).trades@ == old(self).trades@,
            orders_prefix(old(self).trades@, final(self).trades@),
            final(self).trades@.len() <= old(self).trades@.len() + 1,
            final(self).trades@.len() > old(self).trades@.len() ==> is_random_uuid(final(self).trades@[old(self).trades@.len() as int].id),
            final(self).history@ == old(self).history@,
            final(self).last_rebalance == old(self).last_rebalance,
            single_holding(old(self)@) ==> single_holding(final(self)@),
            old(self).portfolio.well_formed() ==> final(self).portfolio.well_formed(),
            nothing_negative(old(self)@) && prices_positive(series@) ==> nothing_negative(final(self)@),
            final(self).trades@.len() > old(self).trades@.len() ==> ({
                let o = final(self).trades@[old(self).trades@.len() as int];
                &&& o.asset_id == asset_id && o.timestamp == timestamp && o.side == OrderSide::Sell
                &&& price_at(series@, asset_id, timestamp) == Some(o.price)
                &&& position_index(old(self).portfolio.positions@, asset_id) matches Some(k)
                    && o.quantity == old(self).portfolio.positions@[k].quantity
                &&& decimal_mul(o.quantity, o.price) matches Some(proceeds)
                    && decimal_add(old(self).portfolio.cash, proceeds) == Some(final(self).portfolio.cash)
            }),
            (r is Ok && position_index(old(self).portfolio.positions@, asset_id) is None)
                ==> final(self)@ == old(self)@ && final(self).trades@ == old(self).trades@,
            (r is Ok && position_index(old(self).portfolio.positions@, asset_id) is Some && price_at(series@, asset_id, timestamp) is Some)
                ==> final(self).trades@.len() == old(self).trades@.len() + 1,
            (r is Ok && old(self).portfolio.well_formed()) ==> position_index(final(self).portfolio.positions@, asset_id) is None,
            (r is Ok && price_at(series@, asset_id, timestamp) is None) ==> final(self).portfolio.cash == old(self).portfolio.cash
                && final(self).trades@ == old(self).trades@,
    {
        let i: usize = match find_position(&self.portfolio.positions, asset_id) {
            None => return Ok(()),
            Some(i) => i,
        };
        let quantity = self.portfolio.positions[i].quantity;
        let price = match self.get_price_at(asset_id, timestamp, series) {
            None => {
                self.portfolio.positions.remove(i);
                proof {
                    lemma_sell_trading(old(self)@, asset_id, timestamp, series@);
                    if old(self).portfolio.well_formed() {
                        lemma_sell_closes(old(self)@, asset_id, timestamp, series@);
                    }
                }
                return Ok(());
            },
            Some(p) => p,
        };
        proof {
            if prices_positive(series@) {
                lemma_price_positive(series@, asset_id, timestamp);
            }
        }
        let proceeds = match dec_mul(quantity, price) {
            None => return Err(BacktestError::Arithmetic),
            Some(v) => v,
        };
        let cash = match dec_add(self.portfolio.cash, proceeds) {
            None => return Err(BacktestError::Arithmetic),
            Some(c) => c,
        };
        self.portfolio.positions.remove(i);
        self.portfolio.cash = cash;
        let order = Order {
            id: fresh_uuid(),
            asset_id,
            quantity,
            price,
            timestamp,
            side: OrderSide::Sell,
        };
        self.trades.push(order);
        proof {
            assert(order_models(self.trades@) =~= order_models(old(self).trades@).push(without_id(order)));
            assert(sell_spec(old(self)@, asset_id, timestamp, series@) is Ok);
            lemma_sell_trading(old(self)@, asset_id, timestamp, series@);
            if old(self).portfolio.well_formed() {
                lemma_sell_closes(old(self)@, asset_id, timestamp, series@);
            }
            assert(self.trades@[old(self).trades@.len() as int] == order);
        }
        Ok(())
    }
}

} // verus!
