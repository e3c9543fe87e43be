//! Script strategies: what a script is shown, running it, and how its
//! signal is acted on.
//!
//! The engine prepares the script's inputs
//! ([`BacktestEngine::script_inputs`]), runs it in the embedded interpreter
//! ([`crate::python::run_script`]), and acts on the signal it set
//! ([`BacktestEngine::handle_python_signal`]).  What the script gives is its
//! own; everything else is specified.
use crate::decimal::Dec;
use crate::domain::{parse_uuid, series_distinct, uuid_parse, Position, PricePoint, TimeSeries};
use crate::engine::{gives, nothing_negative, orders_prefix, single_holding, BacktestEngine, BacktestError, EngineState};
use crate::signals::{find_point, find_position, first_bar_at, lemma_first_index_from, point_index, position_index, price_at, prices_positive};
use crate::python::run_script;
use crate::trading::{buy_spec, sell_spec};
use vstd::prelude::*;

verus! {

/// What a run of a strategy's script gave.
#[derive(Clone, Debug)]
pub enum ScriptOutcome {
    /// The script set no `signal`.
    NoSignal,
    /// The script set `signal` to this text.
    Signal(String),
    /// The script failed with this message.
    Failed(String),
}

/// The bar of one asset at the current timestamp, as shown to a script.
#[derive(Clone, Copy, Debug)]
pub struct MarketQuote {
    pub asset_id: u128,
    pub price: Dec,
    pub volume: Option<Dec>,
}

/// Everything a script is shown at one timestamp.
#[derive(Clone, Debug)]
pub struct ScriptInputs {
    pub cash: Dec,
    pub positions: Vec<Position>,
    pub market: Vec<MarketQuote>,
    pub timestamp: i128,
}

/// The quotes at `t` of the first `n` series, in order: each series with a
/// bar at `t` gives its first such bar's close and volume.
pub open spec fn quotes_upto(series: Seq<TimeSeries>, t: i128, n: nat) -> Seq<MarketQuote>
    decreases n,
{
    if n == 0 {
        Seq::empty()
    } else {
        let rest = quotes_upto(series, t, (n - 1) as nat);
        match point_index(series[n - 1].data@, t) {
            None => rest,
            Some(j) => rest.push(
                MarketQuote {
                    asset_id: series[n - 1].asset_id,
                    price: series[n - 1].data@[j].close,
                    volume: series[n - 1].data@[j].volume,
                },
            ),
        }
    }
}

/// The index of the first `:` at or after `i` (the length if there is none).
pub open spec fn colon_from(s: Seq<char>, i: int) -> int
    decreases s.len() - i,
{
    if i >= s.len() {
        s.len() as int
    } else if s[i] == ':' {
        i
    } else {
        colon_from(s, i + 1)
    }
}

pub proof fn lemma_colon_from(s: Seq<char>, i: int)
    requires
        0 <= i <= s.len(),
    ensures
        i <= colon_from(s, i) <= s.len(),
        colon_from(s, i) < s.len() ==> s[colon_from(s, i)] == ':',
    decreases s.len() - i,
{
    if i < s.len() && s[i] != ':' {
        lemma_colon_from(s, i + 1);
    }
}

/// The first two `:`-separated parts of a signal, `"ACTION:ID[:...]"`;
/// `None` where it has no `:`.
pub open spec fn signal_parts(s: Seq<char>) -> Option<(Seq<char>, Seq<char>)> {
    let p: int = colon_from(s, 0);
    if p >= s.len() {
        None
    } else {
        Some((s.subrange(0, p), s.subrange(p + 1, colon_from(s, p + 1))))
    }
}

/// Acting on a signal: `BUY:<uuid>` buys the asset where it has no
/// position, `SELL:<uuid>` sells it where it has one; anything else changes
/// nothing.
pub open spec fn signal_spec(m: EngineState, s: Seq<char>, t: i128, series: Seq<TimeSeries>) -> Result<
    EngineState,
    BacktestError,
> {
    match signal_parts(s) {
        None => Ok(m),
        Some((action, id_text)) => match uuid_parse(id_text) {
            None => Ok(m),
            Some(id) => if action == seq!['B', 'U', 'Y'] {
                if position_index(m.positions, id) is None {
                    buy_spec(m, id, t, series)
                } else {
                    Ok(m)
                }
            } else if action == seq!['S', 'E', 'L', 'L'] {
                if position_index(m.positions, id) is Some {
                    sell_spec(m, id, t, series)
                } else {
                    Ok(m)
                }
            } else {
                Ok(m)
            },
        },
    }
}

/// A script strategy's trading at one timestamp, for what its script gave:
/// nothing without a signal, the signal acted on, or a failed script's
/// message as the error.
pub open spec fn script_turn_spec(m: EngineState, t: i128, series: Seq<TimeSeries>, outcome: ScriptOutcome) -> Result<
    EngineState,
    BacktestError,
> {
    match outcome {
        ScriptOutcome::NoSignal => Ok(m),
        ScriptOutcome::Signal(s) => signal_spec(m, s@, t, series),
        ScriptOutcome::Failed(message) => Err(BacktestError::Script(message)),
    }
}

/// `q` quotes bar `j` of series `k`, the first bar of that series at `t`:
/// the series' asset, with that bar's close as the price and its volume.
pub open spec fn quotes_bar(q: MarketQuote, series: Seq<TimeSeries>, t: i128, k: int, j: int) -> bool {
    &&& 0 <= k < series.len()
    &&& first_bar_at(series[k].data@, t, j)
    &&& q.asset_id == series[k].asset_id
    &&& q.price == series[k].data@[j].close
    &&& q.volume == series[k].data@[j].volume
}

/// `q` quotes the first bar at `t` of some series: its asset, with that
/// bar's close as the price and its volume.
pub open spec fn quotes_a_close(q: MarketQuote, series: Seq<TimeSeries>, t: i128) -> bool {
    exists|k: int, j: int| #[trigger] quotes_bar(q, series, t, k, j)
}

/// What a script is shown of the market is the closes at `t`: every quote
/// among the first `n` series is the asset, close and volume of the first bar
/// at `t` of one of them, and every one of them with a bar at `t` is quoted.
pub proof fn lemma_quotes_are_closes(series: Seq<TimeSeries>, t: i128, n: nat)
    requires
        n <= series.len(),
    ensures
        forall|i: int| #![trigger quotes_upto(series, t, n)[i]] 0 <= i < quotes_upto(series, t, n).len() ==> quotes_a_close(quotes_upto(series, t, n)[i], series, t),
        forall|k: int, j: int| 0 <= k < n && 0 <= j < series[k].data@.len() && #[trigger] series[k].data@[j].timestamp == t
            ==> exists|i: int| 0 <= i < quotes_upto(series, t, n).len() && #[trigger] quotes_upto(series, t, n)[i].asset_id
                == series[k].asset_id,
    decreases n,
{
    if n > 0 {
        lemma_quotes_are_closes(series, t, (n - 1) as nat);
        lemma_quotes_step(series, t, n);
    }
}

proof fn lemma_quotes_step(series: Seq<TimeSeries>, t: i128, n: nat)
    requires
        0 < n <= series.len(),
        forall|i: int| #![trigger quotes_upto(series, t, (n - 1) as nat)[i]] 0 <= i < quotes_upto(series, t, (n - 1) as nat).len() ==> quotes_a_close(quotes_upto(series, t, (n - 1) as nat)[i], series, t),
        forall|k: int, j: int| 0 <= k < n - 1 && 0 <= j < series[k].data@.len() && #[trigger] series[k].data@[j].timestamp == t
            ==> exists|i: int| 0 <= i < quotes_upto(series, t, (n - 1) as nat).len() && #[trigger] quotes_upto(series, t, (n - 1) as nat)[i].asset_id
                == series[k].asset_id,
    ensures
        forall|i: int| #![trigger quotes_upto(series, t, n)[i]] 0 <= i < quotes_upto(series, t, n).len() ==> quotes_a_close(quotes_upto(series, t, n)[i], series, t),
        forall|k: int, j: int| 0 <= k < n && 0 <= j < series[k].data@.len() && #[trigger] series[k].data@[j].timestamp == t
            ==> exists|i: int| 0 <= i < quotes_upto(series, t, n).len() && #[trigger] quotes_upto(series, t, n)[i].asset_id
                == series[k].asset_id,
{
    let rest = quotes_upto(series, t, (n - 1) as nat);
    let q = quotes_upto(series, t, n);
    let data = series[n - 1].data@;
    let stamps = data.map_values(|p: PricePoint| p.timestamp);
    lemma_first_index_from(stamps, t, 0);
    assert forall|i: int| #![trigger q[i]] 0 <= i < rest.len() implies q[i] == rest[i] by {}
    assert forall|i: int| #![trigger q[i]] 0 <= i < q.len() implies quotes_a_close(q[i], series, t) by {
        if i < rest.len() {
            assert(quotes_a_close(rest[i], series, t));
            assert(q[i] == rest[i]);
        } else {
            let j = point_index(data, t)->0;
            assert forall|m: int| 0 <= m < j implies #[trigger] data[m].timestamp != t by {
                assert(stamps[m] != t);
            }
            assert(quotes_bar(q[i], series, t, n - 1, j));
            assert(quotes_a_close(q[i], series, t));
        }
    }
    assert forall|k: int, jj: int| 0 <= k < n && 0 <= jj < series[k].data@.len() && #[trigger] series[k].data@[jj].timestamp == t
        implies exists|i: int| 0 <= i < q.len() && #[trigger] q[i].asset_id == series[k].asset_id by {
        if k == n - 1 {
            assert(stamps[jj] == t);
            assert(q[rest.len() as int].asset_id == series[k].asset_id);
        } else {
            let i = choose|i: int| 0 <= i < rest.len() && #[trigger] rest[i].asset_id == series[k].asset_id;
            assert(q[i] == rest[i]);
        }
    }
}

/// Where each asset has one series, a quote's price is the asset's price at
/// `t` (see [`price_at`]).
pub proof fn lemma_quote_is_price(q: MarketQuote, series: Seq<TimeSeries>, t: i128, k: int, j: int)
    requires
        series_distinct(series),
        quotes_bar(q, series, t, k, j),
    ensures
        price_at(series, q.asset_id, t) == Some(q.price),
{
    let keys = series.map_values(|x: TimeSeries| x.asset_id);
    lemma_first_index_from(keys, q.asset_id, 0);
    assert(keys[k] == q.asset_id);
    let stamps = series[k].data@.map_values(|p: PricePoint| p.timestamp);
    lemma_first_index_from(stamps, t, 0);
    assert(stamps[j] == t);
    if let Some(j2) = point_index(series[k].data@, t) {
        if j2 < j {
            assert(series[k].data@[j2].timestamp != t);
        }
    }
}

/// The index of the first `:` at or after `from`.
fn find_colon(s: &str, from: usize, len: usize) -> (r: usize)
    requires
        len == s@.len(),
        from <= len,
    ensures
        r == colon_from(s@, from as int),
{
    let mut i: usize = from;
    while i < len
        invariant
            from <= i <= len,
            len == s@.len(),
            colon_from(s@, from as int) == colon_from(s@, i as int),
        decreases len - i,
    {
        if s.get_char(i) == ':' {
            return i;
        }
        i = i + 1;
    }
    i
}

impl BacktestEngine {
    /// What a script is shown at `timestamp`: the cash, the positions, and
    /// the quote of every series that has a bar then: its asset and the close
    /// and volume of its first bar at `timestamp` (so, with one series per
    /// asset, the asset's price then).
    pub fn script_inputs(&self, timestamp: i128, series: &Vec<TimeSeries>) -> (r: ScriptInputs)
        ensures
            r.cash == self.portfolio.cash,
            r.positions@ == self.portfolio.positions@,
            r.market@ == quotes_upto(series@, timestamp, series@.len()),
            r.timestamp == timestamp,
            forall|i: int| #![trigger r.market@[i]] 0 <= i < r.market@.len() ==> quotes_a_close(r.market@[i], series@, timestamp),
            forall|k: int, j: int| 0 <= k < series@.len() && 0 <= j < series@[k].data@.len() && #[trigger] series@[k].data@[j].timestamp == timestamp
                ==> exists|i: int| 0 <= i < r.market@.len() && #[trigger] r.market@[i].asset_id == series@[k].asset_id,
            series_distinct(series@) ==> forall|i: int| 0 <= i < r.market@.len()
                ==> price_at(series@, #[trigger] r.market@[i].asset_id, timestamp) == Some(r.market@[i].price),
    {

        let mut positions: Vec<Position> = Vec::new();
        let mut i: usize = 0;
        while i < self.portfolio.positions.len()
            invariant
                0 <= i <= self.portfolio.positions@.len(),
                positions@ == self.portfolio.positions@.take(i as int),
            decreases self.portfolio.positions.len() - i,
        {
            positions.push(self.portfolio.positions[i]);
            proof {
                assert(self.portfolio.positions@.take(i + 1) =~= self.portfolio.positions@.take(
                    i as int,
                ).push(self.portfolio.positions@[i as int]));
            }
            i = i + 1;
        }
        proof {
            assert(self.portfolio.positions@.take(i as int) =~= self.portfolio.positions@);
        }
        let mut market: Vec<MarketQuote> = Vec::new();
        let mut k: usize = 0;
        while k < series.len()
            invariant
                0 <= k <= series@.len(),
                market@ == quotes_upto(series@, timestamp, k as nat),
            decreases series.len() - k,
        {
            match find_point(&series[k].data, timestamp) {
                None => {},
                Some(j) => {
                    let p: PricePoint = series[k].data[j];
                    market.push(
                        MarketQuote { asset_id: series[k].asset_id, price: p.close, volume: p.volume },
                    );
                },
            }
            k = k + 1;
        }
        proof {
            lemma_quotes_are_closes(series@, timestamp, series@.len());
            let m = market@;
            if series_distinct(series@) {
                assert forall|i: int| 0 <= i < m.len() implies price_at(series@, #[trigger] m[i].asset_id, timestamp) == Some(m[i].price) by {
                    assert(quotes_a_close(m[i], series@, timestamp));
                    let (k, j) = choose|k: int, j: int| #[trigger] quotes_bar(m[i], series@, timestamp, k, j);
                    lemma_quote_is_price(m[i], series@, timestamp, k, j);
                }
            }
        }
        ScriptInputs { cash: self.portfolio.cash, positions, market, timestamp }
    }

    /// Runs a script strategy's script on what it is shown at `timestamp`
    /// (see [`BacktestEngine::script_inputs`]) and acts on what it gave (see
    /// [`script_turn_spec`]; the script decides which outcome that is).
    /// Earlier orders, the history and the rebalancing date are kept; on an
    /// error nothing changes.
    pub fn process_python(&mut self, timestamp: i128, script: &str, series: &Vec<TimeSeries>) -> (r:
        Result<(), BacktestError>)
        ensures
            exists|o: ScriptOutcome| #[trigger] gives(script_turn_spec(old(self)@, timestamp, series@, o), r, final(self)@),
            r is Err ==> final(self)@ == old(self)@ && final(self).trades@ == old(self).trades@,
            orders_prefix(old(self).trades@, final(self).trades@),
            final(self).history@ == old(self).history@,
            final(self).last_rebalance == old(self).last_rebalance,
            single_holding(old(self)@) ==> single_holding(final(self)@),
            old(self).portfolio.well_formed() ==> final(self).portfolio.well_formed(),
            nothing_negative(old(self)@) && prices_positive(series@) ==> nothing_negative(final(self)@),
    {
        let inputs = self.script_inputs(timestamp, series);
        let outcome = run_script(script, &inputs);
        let ghost o = outcome;
        match outcome {
            ScriptOutcome::NoSignal => {
                assert(gives(script_turn_spec(old(self)@, timestamp, series@, o), Ok(()), self@));
                Ok(())
            },
            ScriptOutcome::Signal(signal) => {
                let r = self.handle_python_signal(signal.as_str(), timestamp, series);
                assert(gives(script_turn_spec(old(self)@, timestamp, series@, o), r, self@));
                r
            },
            ScriptOutcome::Failed(message) => {
                let r = Err(BacktestError::Script(message));
                assert(gives(script_turn_spec(old(self)@, timestamp, series@, o), r, self@));
                r
            },
        }
    }

    /// Acts on a script's signal (see [`signal_spec`]).  Earlier orders,
    /// the history and the rebalancing date are kept; on an error nothing
    /// changes.
    pub fn handle_python_signal(&mut self, signal: &str, timestamp: i128, series: &Vec<TimeSeries>) -> (r:
        Result<(), BacktestError>)
        ensures
            r is Ok <==> signal_spec(old(self)@, signal@, timestamp, series@) is Ok,
            r is Ok ==> final(self)@ == signal_spec(old(self)@, signal@, timestamp, series@)->Ok_0,
            r is Err ==> r == Err::<(), BacktestError>(BacktestError::Arithmetic) && signal_spec(old(self)@, signal@, timestamp, series@) == Err::<EngineState, BacktestError>(BacktestError::Arithmetic),
            r is Err ==> final(self)@ == old(self)@ && final(self).trades@ == old(self).trades@,
            orders_prefix(old(self).trades@, final(self).trades@),
            final(self).history@ == old(self).history@,
            final(self).last_rebalance == old(self).last_rebalance,
            single_holding(old(self)@) ==> single_holding(final(self)@),
            old(self).portfolio.well_formed() ==> final(self).portfolio.well_formed(),
            nothing_negative(old(self)@) && prices_positive(series@) ==> nothing_negative(final(self)@),
    {
        let len: usize = signal.unicode_len();
        let p: usize = find_colon(signal, 0, len);
        proof {
            lemma_colon_from(signal@, 0);
        }
        if p >= len {
            return Ok(());
        }
        let q: usize = find_colon(signal, p + 1, len);
        proof {
            lemma_colon_from(signal@, p + 1);
        }
        let id_text = signal.substring_char(p + 1, q);
        let asset_id = match parse_uuid(id_text) {
            None => return Ok(()),
            Some(id) => id,
        };
        let is_buy = p == 3 && signal.get_char(0) == 'B' && signal.get_char(1) == 'U'
            && signal.get_char(2) == 'Y';
        let is_sell = p == 4 && signal.get_char(0) == 'S' && signal.get_char(1) == 'E'
            && signal.get_char(2) == 'L' && signal.get_char(3) == 'L';
        let ghost action = signal@.subrange(0, p as int);
        proof {
            if is_buy {
                assert(action =~= seq!['B', 'U', 'Y']);
            }
            if action == seq!['B', 'U', 'Y'] {
                assert(action.len() == 3);
                assert(action[0] == 'B' && action[1] == 'U' && action[2] == 'Y');
            }
            if is_sell {
                assert(action =~= seq!['S', 'E', 'L', 'L']);
            }
            if action == seq!['S', 'E', 'L', 'L'] {
                assert(action.len() == 4);
                assert(action[0] == 'S' && action[1] == 'E' && action[2] == 'L' && action[3] == 'L');
            }
        }
        if is_buy {
            if find_position(&self.portfolio.positions, asset_id).is_none() {
                return self.execute_buy(asset_id, timestamp, series);
            }
        } else if is_sell {
            if find_position(&self.portfolio.positions, asset_id).is_some() {
                return self.execute_sell(asset_id, timestamp, series);
            }
        }
        Ok(())
    }
}

} // verus!
