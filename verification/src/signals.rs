//! Price lookups, indicators (SMA, RSI) and rule evaluation.
use crate::decimal::{dec_add, dec_div, dec_eq, dec_lt, dec_sub, decimal_add, decimal_div, decimal_sub, fits_at_scale, lemma_fits_smaller_scale, lemma_zero_fits, max_nat, pow10, Dec};
use crate::domain::{Indicator, Position, PricePoint, Rule, RuleOperator, TimeSeries};
use crate::engine::{BacktestEngine, BacktestError};
use vstd::prelude::*;

verus! {

/// The first index at or after `i` whose key is `key`.
pub open spec fn first_index_from<K>(keys: Seq<K>, key: K, i: int) -> Option<int>
    decreases keys.len() - i,
{
    if i >= keys.len() {
        None
    } else if keys[i] == key {
        Some(i)
    } else {
        first_index_from(keys, key, i + 1)
    }
}

/// The first index whose key is `key`.
pub open spec fn first_index<K>(keys: Seq<K>, key: K) -> Option<int> {
    first_index_from(keys, key, 0)
}

pub proof fn lemma_first_index_from<K>(keys: Seq<K>, key: K, i: int)
    requires
        0 <= i,
    ensures
        first_index_from(keys, key, i) matches Some(k) ==> i <= k < keys.len() && keys[k] == key
            && forall|j: int| i <= j < k ==> keys[j] != key,
        first_index_from(keys, key, i) is None ==> forall|j: int|
            i <= j < keys.len() ==> keys[j] != key,
    decreases keys.len() - i,
{
    if i < keys.len() && keys[i] != key {
        lemma_first_index_from(keys, key, i + 1);
    }
}

/// The first index of the series of an asset.
pub open spec fn series_index(series: Seq<TimeSeries>, id: u128) -> Option<int> {
    first_index(series.map_values(|s: TimeSeries| s.asset_id), id)
}

/// The series of an asset: its first one, if it has one.
pub open spec fn series_of(series: Seq<TimeSeries>, id: u128) -> Option<TimeSeries> {
    match series_index(series, id) {
        None => None,
        Some(k) => Some(series[k]),
    }
}

/// The first index of a bar at a timestamp.
pub open spec fn point_index(data: Seq<PricePoint>, t: i128) -> Option<int> {
    first_index(data.map_values(|p: PricePoint| p.timestamp), t)
}

/// The first index of the position in an asset.
pub open spec fn position_index(positions: Seq<Position>, id: u128) -> Option<int> {
    first_index(positions.map_values(|p: Position| p.asset_id), id)
}

/// Every bar closes above zero.
pub open spec fn prices_positive(series: Seq<TimeSeries>) -> bool {
    forall|k: int, j: int|
        0 <= k < series.len() && 0 <= j < series[k].data@.len()
            ==> (#[trigger] series[k].data@[j]).close.value() > 0
}

/// Where every bar closes above zero, so does every price looked up.
pub proof fn lemma_price_positive(series: Seq<TimeSeries>, id: u128, t: i128)
    requires
        prices_positive(series),
    ensures
        price_at(series, id, t) matches Some(p) ==> p.value() > 0,
{
    lemma_first_index_from(series.map_values(|s: TimeSeries| s.asset_id), id, 0);
    match series_index(series, id) {
        None => {},
        Some(k) => {
            lemma_first_index_from(series[k].data@.map_values(|p: PricePoint| p.timestamp), t, 0);
            match point_index(series[k].data@, t) {
                None => {},
                Some(j) => {
                    assert(series[k].data@[j].close.value() > 0);
                },
            }
        },
    }
}

/// `j` is the first bar of `data` at timestamp `t`.
pub open spec fn first_bar_at(data: Seq<PricePoint>, t: i128, j: int) -> bool {
    &&& 0 <= j < data.len()
    &&& data[j].timestamp == t
    &&& forall|m: int| 0 <= m < j ==> #[trigger] data[m].timestamp != t
}

/// `k` is the first series of the asset `id`.
pub open spec fn first_series_of(series: Seq<TimeSeries>, id: u128, k: int) -> bool {
    &&& 0 <= k < series.len()
    &&& series[k].asset_id == id
    &&& forall|m: int| 0 <= m < k ==> #[trigger] series[m].asset_id != id
}

/// The price of an asset at `t` is the close of the first bar at `t` of its
/// first series; it has none where that series has no bar at `t` (or the
/// asset has no series).
pub proof fn lemma_price_is_close(series: Seq<TimeSeries>, id: u128, t: i128)
    ensures
        price_at(series, id, t) matches Some(p) ==> exists|k: int, j: int|
            #[trigger] first_series_of(series, id, k) && #[trigger] first_bar_at(series[k].data@, t, j) && p == series[k].data@[j].close,
        price_at(series, id, t) is None ==> forall|k: int, j: int|
            #[trigger] first_series_of(series, id, k) && 0 <= j < series[k].data@.len() ==> #[trigger] series[k].data@[j].timestamp != t,
{
    let keys = series.map_values(|s: TimeSeries| s.asset_id);
    lemma_first_index_from(keys, id, 0);
    match series_index(series, id) {
        None => {
            assert forall|k: int, j: int|
                #[trigger] first_series_of(series, id, k) && 0 <= j < series[k].data@.len() implies #[trigger] series[k].data@[j].timestamp != t by {
                assert(keys[k] == id);
            }
        },
        Some(k) => {
            assert forall|m: int| 0 <= m < k implies #[trigger] series[m].asset_id != id by {
                assert(keys[m] != id);
            }
            assert(first_series_of(series, id, k));
            let stamps = series[k].data@.map_values(|p: PricePoint| p.timestamp);
            lemma_first_index_from(stamps, t, 0);
            match point_index(series[k].data@, t) {
                None => {
                    assert forall|k2: int, j: int|
                        #[trigger] first_series_of(series, id, k2) && 0 <= j < series[k2].data@.len() implies #[trigger] series[k2].data@[j].timestamp != t by {
                        if k2 < k {
                        } else if k < k2 {
                            assert(series[k].asset_id == id);
                        }
                        assert(k2 == k);
                        assert(stamps[j] != t);
                    }
                },
                Some(j) => {
                    assert forall|m: int| 0 <= m < j implies #[trigger] series[k].data@[m].timestamp != t by {
                        assert(stamps[m] != t);
                    }
                    assert(first_bar_at(series[k].data@, t, j));
                },
            }
        },
    }
}

/// The closing price of an asset at a timestamp: from its first series, the
/// first bar at that timestamp.
pub open spec fn price_at(series: Seq<TimeSeries>, id: u128, t: i128) -> Option<Dec> {
    match series_of(series, id) {
        None => None,
        Some(s) => match point_index(s.data@, t) {
            None => None,
            Some(j) => Some(s.data@[j].close),
        },
    }
}

/// The bars at or before `t` of the series of an asset (none without one).
pub open spec fn bars_of(series: Seq<TimeSeries>, id: u128, t: i128) -> Seq<PricePoint> {
    match series_of(series, id) {
        None => Seq::empty(),
        Some(s) => points_upto(s.data@, t),
    }
}

/// In the last `period` moves of `f`, no close is above the one before it.
pub open spec fn window_never_rises(f: Seq<PricePoint>, period: nat) -> bool {
    forall|k: int| f.len() - period <= k < f.len() && 1 <= k ==> #[trigger] f[k].close.value() <= f[k - 1].close.value()
}

/// In the last `period` moves of `f`, no close is below the one before it.
pub open spec fn window_never_falls(f: Seq<PricePoint>, period: nat) -> bool {
    forall|k: int| f.len() - period <= k < f.len() && 1 <= k ==> #[trigger] f[k].close.value() >= f[k - 1].close.value()
}

/// In the last `period` moves of `f`, some close is below the one before it.
pub open spec fn window_has_fall(f: Seq<PricePoint>, period: nat) -> bool {
    exists|k: int| f.len() - period <= k < f.len() && 1 <= k && #[trigger] f[k].close.value() < f[k - 1].close.value()
}

/// The bars at or before `t`, in their order.
pub open spec fn points_upto(data: Seq<PricePoint>, t: i128) -> Seq<PricePoint>
    decreases data.len(),
{
    if data.len() == 0 {
        Seq::empty()
    } else {
        let rest = points_upto(data.drop_last(), t);
        if data.last().timestamp <= t {
            rest.push(data.last())
        } else {
            rest
        }
    }
}

/// The sum of the closes of the last `k` bars of `f`, added from the newest
/// back (each addition by `Decimal`); `None` on overflow.
pub open spec fn recent_close_sum(f: Seq<PricePoint>, k: nat) -> Option<Dec>
    decreases k,
{
    if k == 0 {
        Some(Dec::spec_zero())
    } else {
        match recent_close_sum(f, (k - 1) as nat) {
            None => None,
            Some(acc) => decimal_add(acc, f[f.len() - k].close),
        }
    }
}

/// The simple moving average of the last `period` closes at or before `t`:
/// `Ok(None)` where the asset has no series or fewer bars than `period`.
pub open spec fn sma_spec(series: Seq<TimeSeries>, id: u128, t: i128, period: usize) -> Result<
    Option<Dec>,
    BacktestError,
> {
    match series_of(series, id) {
        None => Ok(None),
        Some(s) => {
            let f = points_upto(s.data@, t);
            if f.len() < period {
                Ok(None)
            } else {
                match recent_close_sum(f, period as nat) {
                    None => Err(BacktestError::Arithmetic),
                    Some(sum) => match decimal_div(sum, Dec::spec_from_usize(period)) {
                        None => Err(BacktestError::Arithmetic),
                        Some(avg) => Ok(Some(avg)),
                    },
                }
            }
        },
    }
}

/// One move of the RSI window, from the close `older` to `newer`: a rise
/// is added to the gains, a fall (or no move) is subtracted from the losses
/// (each operation by `Decimal`); `None` on overflow.
pub open spec fn rsi_move_spec(gains: Dec, losses: Dec, older: Dec, newer: Dec) -> Option<(Dec, Dec)> {
    match decimal_sub(newer, older) {
        None => None,
        Some(diff) => if diff.value() > 0 {
            match decimal_add(gains, diff) {
                None => None,
                Some(g) => Some((g, losses)),
            }
        } else {
            match decimal_sub(losses, diff) {
                None => None,
                Some(l) => Some((gains, l)),
            }
        },
    }
}

/// Gains and losses over the first `n` of the last `period` moves of `f`,
/// oldest move first; `None` on overflow.
pub open spec fn rsi_moves(f: Seq<PricePoint>, period: nat, n: nat) -> Option<(Dec, Dec)>
    decreases n,
{
    if n == 0 {
        Some((Dec::spec_zero(), Dec::spec_zero()))
    } else {
        match rsi_moves(f, period, (n - 1) as nat) {
            None => None,
            Some((gains, losses)) => rsi_move_spec(
                gains,
                losses,
                f[f.len() - period + n - 2].close,
                f[f.len() - period + n - 1].close,
            ),
        }
    }
}

/// How much the close rose from `older` to `newer` (zero where it did not).
pub open spec fn rise(older: Dec, newer: Dec) -> int {
    if newer.value() > older.value() {
        newer.value() - older.value()
    } else {
        0
    }
}

/// How much the close fell from `older` to `newer` (zero where it did not).
pub open spec fn fall(older: Dec, newer: Dec) -> int {
    if newer.value() < older.value() {
        older.value() - newer.value()
    } else {
        0
    }
}

/// The sum of the rises over the first `n` of the last `period` moves of
/// `f` (a number times `10^28`).
pub open spec fn window_gain(f: Seq<PricePoint>, period: nat, n: nat) -> int
    decreases n,
{
    if n == 0 {
        0
    } else {
        window_gain(f, period, (n - 1) as nat) + rise(
            f[f.len() - period + n - 2].close,
            f[f.len() - period + n - 1].close,
        )
    }
}

/// The sum of the falls over the first `n` of the last `period` moves of
/// `f` (a number times `10^28`).
pub open spec fn window_loss(f: Seq<PricePoint>, period: nat, n: nat) -> int
    decreases n,
{
    if n == 0 {
        0
    } else {
        window_loss(f, period, (n - 1) as nat) + fall(
            f[f.len() - period + n - 2].close,
            f[f.len() - period + n - 1].close,
        )
    }
}

/// The bars at or before `t` are the bars of `data` that are not after `t`:
/// each of them is a bar of `data` at or before `t`, and every such bar is
/// among them.
pub proof fn lemma_points_upto_are_the_bars(data: Seq<PricePoint>, t: i128)
    ensures
        forall|i: int| 0 <= i < points_upto(data, t).len() ==> (#[trigger] points_upto(data, t)[i]).timestamp <= t
            && data.contains(points_upto(data, t)[i]),
        forall|j: int| 0 <= j < data.len() && (#[trigger] data[j]).timestamp <= t ==> points_upto(data, t).contains(data[j]),
        points_upto(data, t).len() <= data.len(),
    decreases data.len(),
{
    if data.len() > 0 {
        let init = data.drop_last();
        lemma_points_upto_are_the_bars(init, t);
        let rest = points_upto(init, t);
        let pu = points_upto(data, t);
        assert forall|i: int| 0 <= i < pu.len() implies (#[trigger] pu[i]).timestamp <= t && data.contains(pu[i]) by {
            if i < rest.len() {
                assert(pu[i] == rest[i]);
                let j = choose|j: int| 0 <= j < init.len() && init[j] == rest[i];
                assert(data[j] == init[j]);
            } else {
                assert(pu[i] == data.last());
                assert(data[data.len() - 1] == data.last());
            }
        }
        assert forall|j: int| 0 <= j < data.len() && (#[trigger] data[j]).timestamp <= t implies pu.contains(data[j]) by {
            if j < data.len() - 1 {
                assert(init[j] == data[j]);
                assert(rest.contains(init[j]));
                let i = choose|i: int| 0 <= i < rest.len() && rest[i] == init[j];
                assert(pu[i] == rest[i]);
            } else {
                assert(pu[pu.len() - 1] == data.last());
            }
        }
    }
}

/// The sum of the closes of the last `n` bars of `f` (a number times
/// `10^28`).
pub open spec fn close_sum(f: Seq<PricePoint>, n: nat) -> int
    decreases n,
{
    if n == 0 {
        0
    } else {
        close_sum(f, (n - 1) as nat) + f[f.len() - n].close.value()
    }
}

/// The sum of the sizes of the closes of the last `n` bars of `f`.
pub open spec fn close_size_sum(f: Seq<PricePoint>, n: nat) -> int
    decreases n,
{
    if n == 0 {
        0
    } else {
        let c = f[f.len() - n].close.value();
        close_size_sum(f, (n - 1) as nat) + if c >= 0 { c } else { -c }
    }
}

pub proof fn lemma_close_sums(f: Seq<PricePoint>, j: nat, k: nat)
    requires
        j <= k,
    ensures
        -close_size_sum(f, j) <= close_sum(f, j) <= close_size_sum(f, j),
        0 <= close_size_sum(f, j) <= close_size_sum(f, k),
    decreases k,
{
    if k > 0 {
        if j < k {
            lemma_close_sums(f, j, (k - 1) as nat);
        } else {
            lemma_close_sums(f, (k - 1) as nat, (k - 1) as nat);
        }
    }
}

/// Nothing in the SMA window of `f` can round: with `s` the largest scale
/// among the closes of the last `period` bars, the sum of their sizes fits
/// at scale `s`.
pub open spec fn sma_window_exact(f: Seq<PricePoint>, period: nat) -> bool {
    let s = closes_scale(f, f.len() - period, period);
    &&& s <= 28
    &&& fits_at_scale(close_size_sum(f, period), s)
}

/// Nothing in the RSI window of `f` can round: with `s` the largest scale
/// among the closes of the last `period + 1` bars, the total of the rises
/// and falls fits at scale `s`.
pub open spec fn rsi_window_exact(f: Seq<PricePoint>, period: nat) -> bool {
    let s = closes_scale(f, f.len() - period - 1, period + 1);
    &&& s <= 28
    &&& fits_at_scale(window_gain(f, period, period) + window_loss(f, period, period), s)
}

/// The largest scale among the closes of the `n` bars of `f` from `lo` on.
pub open spec fn closes_scale(f: Seq<PricePoint>, lo: int, n: nat) -> nat
    decreases n,
{
    if n == 0 {
        0
    } else {
        max_nat(closes_scale(f, lo, (n - 1) as nat), f[lo + n - 1].close.scl())
    }
}

pub proof fn lemma_closes_scale(f: Seq<PricePoint>, lo: int, n: nat, k: int)
    requires
        lo <= k < lo + n,
    ensures
        f[k].close.scl() <= closes_scale(f, lo, n),
    decreases n,
{
    if k < lo + n - 1 {
        lemma_closes_scale(f, lo, (n - 1) as nat, k);
    }
}

pub proof fn lemma_window_sums_grow(f: Seq<PricePoint>, period: nat, j: nat, k: nat)
    requires
        j <= k,
    ensures
        0 <= window_gain(f, period, j) <= window_gain(f, period, k),
        0 <= window_loss(f, period, j) <= window_loss(f, period, k),
    decreases k,
{
    if k > 0 {
        if j < k {
            lemma_window_sums_grow(f, period, j, (k - 1) as nat);
        } else {
            lemma_window_sums_grow(f, period, 0, (k - 1) as nat);
        }
    }
}

/// `100 - 100 / (1 + (gains / period) / (losses / period))`, each operation
/// by `Decimal`.
pub open spec fn rsi_from_moves(gains: Dec, losses: Dec, period: usize) -> Option<Dec> {
    let p = Dec::spec_from_usize(period);
    match (decimal_div(gains, p), decimal_div(losses, p)) {
        (Some(avg_gain), Some(avg_loss)) => match decimal_div(avg_gain, avg_loss) {
            None => None,
            Some(rs) => match decimal_add(Dec::spec_one(), rs) {
                None => None,
                Some(denominator) => match decimal_div(Dec::spec_one_hundred(), denominator) {
                    None => None,
                    Some(q) => decimal_sub(Dec::spec_one_hundred(), q),
                },
            },
        },
        _ => None,
    }
}

/// The relative strength index over the last `period` moves at or before
/// `t`: `Ok(None)` where the asset has no series or fewer than `period + 1`
/// bars; `100` where nothing was lost.
pub open spec fn rsi_spec(series: Seq<TimeSeries>, id: u128, t: i128, period: usize) -> Result<
    Option<Dec>,
    BacktestError,
> {
    match series_of(series, id) {
        None => Ok(None),
        Some(s) => if period + 1 > usize::MAX {
            Err(BacktestError::Arithmetic)
        } else {
            let f = points_upto(s.data@, t);
            if f.len() < period + 1 {
                Ok(None)
            } else {
                match rsi_moves(f, period as nat, period as nat) {
                    None => Err(BacktestError::Arithmetic),
                    Some((gains, losses)) => if losses.value() == 0 {
                        Ok(Some(Dec::spec_one_hundred()))
                    } else {
                        match rsi_from_moves(gains, losses, period) {
                            None => Err(BacktestError::Arithmetic),
                            Some(rsi) => Ok(Some(rsi)),
                        }
                    },
                }
            }
        },
    }
}

/// The value of an indicator for an asset at a timestamp.  An EMA is
/// computed as the SMA of the same period.
pub open spec fn indicator_spec(
    indicator: Indicator,
    series: Seq<TimeSeries>,
    id: u128,
    t: i128,
) -> Result<Option<Dec>, BacktestError> {
    match indicator {
        Indicator::Price => Ok(price_at(series, id, t)),
        Indicator::SMA(period) => sma_spec(series, id, t, period),
        Indicator::EMA(period) => sma_spec(series, id, t, period),
        Indicator::RSI(period) => rsi_spec(series, id, t, period),
        Indicator::Value(v) => Ok(Some(v)),
    }
}

/// Each indicator is what its name says: the price, the SMA (also for an
/// EMA), the RSI of its period, or the constant.
pub proof fn lemma_indicator_kinds(indicator: Indicator, series: Seq<TimeSeries>, id: u128, t: i128)
    ensures
        indicator matches Indicator::Price ==> indicator_spec(indicator, series, id, t) == Ok::<Option<Dec>, BacktestError>(price_at(series, id, t)),
        indicator matches Indicator::SMA(n) ==> indicator_spec(indicator, series, id, t) == sma_spec(series, id, t, n),
        indicator matches Indicator::EMA(n) ==> indicator_spec(indicator, series, id, t) == sma_spec(series, id, t, n),
        indicator matches Indicator::RSI(n) ==> indicator_spec(indicator, series, id, t) == rsi_spec(series, id, t, n),
        indicator matches Indicator::Value(v) ==> indicator_spec(indicator, series, id, t) == Ok::<Option<Dec>, BacktestError>(Some(v)),
{
}

/// Whether two indicator values satisfy an operator.  A crossing holds of
/// any two values; a missing value satisfies nothing.
pub open spec fn compare_spec(left: Option<Dec>, op: RuleOperator, right: Option<Dec>) -> bool {
    match (left, right) {
        (Some(l), Some(r)) => match op {
            RuleOperator::GreaterThan => l.value() > r.value(),
            RuleOperator::LessThan => l.value() < r.value(),
            RuleOperator::Equal => l.value() == r.value(),
            RuleOperator::CrossesOver => true,
            RuleOperator::CrossesUnder => true,
        },
        _ => false,
    }
}

/// Whether a rule holds for an asset at a timestamp.
pub open spec fn rule_spec(rule: Rule, series: Seq<TimeSeries>, id: u128, t: i128) -> Result<
    bool,
    BacktestError,
> {
    match indicator_spec(rule.left, series, id, t) {
        Err(e) => Err(e),
        Ok(left) => match indicator_spec(rule.right, series, id, t) {
            Err(e) => Err(e),
            Ok(right) => Ok(compare_spec(left, rule.operator, right)),
        },
    }
}

/// Whether every rule from index `i` on holds, evaluated in order and
/// stopping at the first that does not.
pub open spec fn all_rules_from(
    rules: Seq<Rule>,
    series: Seq<TimeSeries>,
    id: u128,
    t: i128,
    i: int,
) -> Result<bool, BacktestError>
    decreases rules.len() - i,
{
    if i >= rules.len() {
        Ok(true)
    } else {
        match rule_spec(rules[i], series, id, t) {
            Err(e) => Err(e),
            Ok(false) => Ok(false),
            Ok(true) => all_rules_from(rules, series, id, t, i + 1),
        }
    }
}

/// Whether some rule from index `i` on holds, evaluated in order and
/// stopping at the first that does.
pub open spec fn any_rule_from(
    rules: Seq<Rule>,
    series: Seq<TimeSeries>,
    id: u128,
    t: i128,
    i: int,
) -> Result<bool, BacktestError>
    decreases rules.len() - i,
{
    if i >= rules.len() {
        Ok(false)
    } else {
        match rule_spec(rules[i], series, id, t) {
            Err(e) => Err(e),
            Ok(true) => Ok(true),
            Ok(false) => any_rule_from(rules, series, id, t, i + 1),
        }
    }
}

/// Entry: there are entry rules and all of them hold.
pub open spec fn should_enter_spec(
    rules: Seq<Rule>,
    series: Seq<TimeSeries>,
    id: u128,
    t: i128,
) -> Result<bool, BacktestError> {
    if rules.len() == 0 {
        Ok(false)
    } else {
        all_rules_from(rules, series, id, t, 0)
    }
}

/// Exit: some exit rule holds.
pub open spec fn should_exit_spec(
    rules: Seq<Rule>,
    series: Seq<TimeSeries>,
    id: u128,
    t: i128,
) -> Result<bool, BacktestError> {
    if rules.len() == 0 {
        Ok(false)
    } else {
        any_rule_from(rules, series, id, t, 0)
    }
}

/// The index of the first series of an asset.
pub fn find_series(series: &Vec<TimeSeries>, id: u128) -> (r: Option<usize>)
    ensures
        r matches Some(k) ==> series_index(series@, id) == Some(k as int),
        r is None ==> series_index(series@, id) is None,
        r matches Some(k) ==> k < series@.len() && series@[k as int].asset_id == id,
{
    let ghost keys = series@.map_values(|s: TimeSeries| s.asset_id);
    let mut i: usize = 0;
    while i < series.len()
        invariant
            0 <= i <= series.len(),
            keys == series@.map_values(|s: TimeSeries| s.asset_id),
            first_index(keys, id) == first_index_from(keys, id, i as int),
        decreases series.len() - i,
    {
        if series[i].asset_id == id {
            proof {
                lemma_first_index_from(keys, id, i as int);
            }
            return Some(i);
        }
        i = i + 1;
    }
    None
}

/// The index of the first bar at a timestamp.
pub fn find_point(data: &Vec<PricePoint>, t: i128) -> (r: Option<usize>)
    ensures
        r matches Some(k) ==> point_index(data@, t) == Some(k as int),
        r is None ==> point_index(data@, t) is None,
        r matches Some(k) ==> k < data@.len() && data@[k as int].timestamp == t,
{
    let ghost keys = data@.map_values(|p: PricePoint| p.timestamp);
    let mut i: usize = 0;
    while i < data.len()
        invariant
            0 <= i <= data.len(),
            keys == data@.map_values(|p: PricePoint| p.timestamp),
            first_index(keys, t) == first_index_from(keys, t, i as int),
        decreases data.len() - i,
    {
        if data[i].timestamp == t {
            proof {
                lemma_first_index_from(keys, t, i as int);
            }
            return Some(i);
        }
        i = i + 1;
    }
    None
}

/// The index of the position in an asset.
pub fn find_position(positions: &Vec<Position>, id: u128) -> (r: Option<usize>)
    ensures
        r matches Some(k) ==> position_index(positions@, id) == Some(k as int),
        r is None ==> position_index(positions@, id) is None,
        r matches Some(k) ==> k < positions@.len() && positions@[k as int].asset_id == id,
{
    let ghost keys = positions@.map_values(|p: Position| p.asset_id);
    let mut i: usize = 0;
    while i < positions.len()
        invariant
            0 <= i <= positions.len(),
            keys == positions@.map_values(|p: Position| p.asset_id),
            first_index(keys, id) == first_index_from(keys, id, i as int),
        decreases positions.len() - i,
    {
        if positions[i].asset_id == id {
            proof {
                lemma_first_index_from(keys, id, i as int);
            }
            return Some(i);
        }
        i = i + 1;
    }
    None
}

/// The bars at or before `t`, in their order.
pub fn bars_upto(data: &Vec<PricePoint>, t: i128) -> (r: Vec<PricePoint>)
    ensures
        r@ == points_upto(data@, t),
        forall|i: int| 0 <= i < r@.len() ==> (#[trigger] r@[i]).timestamp <= t && data@.contains(r@[i]),
        forall|j: int| 0 <= j < data@.len() && (#[trigger] data@[j]).timestamp <= t ==> r@.contains(data@[j]),
{
    proof {
        lemma_points_upto_are_the_bars(data@, t);
    }
    let mut out: Vec<PricePoint> = Vec::new();
    let mut i: usize = 0;
    while i < data.len()
        invariant
            0 <= i <= data.len(),
            out@ == points_upto(data@.take(i as int), t),
        decreases data.len() - i,
    {
        proof {
            assert(data@.take(i + 1).drop_last() =~= data@.take(i as int));
        }
        if data[i].timestamp <= t {
            out.push(data[i]);
        }
        i = i + 1;
    }
    proof {
        assert(data@.take(data@.len() as int) =~= data@);
    }
    out
}

impl BacktestEngine {
    /// The closing price of an asset at a timestamp.
    pub fn get_price_at(&self, asset_id: u128, timestamp: i128, series: &Vec<TimeSeries>) -> (r:
        Option<Dec>)
        ensures
            r == price_at(series@, asset_id, timestamp),
            r matches Some(p) ==> exists|k: int, j: int|
                #[trigger] first_series_of(series@, asset_id, k) && #[trigger] first_bar_at(series@[k].data@, timestamp, j)
                    && p == series@[k].data@[j].close,
            r is None ==> forall|k: int, j: int|
                #[trigger] first_series_of(series@, asset_id, k) && 0 <= j < series@[k].data@.len()
                    ==> #[trigger] series@[k].data@[j].timestamp != timestamp,
    {
        proof {
            lemma_price_is_close(series@, asset_id, timestamp);
        }
        match find_series(series, asset_id) {
            None => None,
            Some(k) => match find_point(&series[k].data, timestamp) {
                None => None,
                Some(j) => Some(series[k].data[j].close),
            },
        }
    }
}


/// Once the sum overflows it stays overflowed.
pub proof fn lemma_recent_close_sum_none(f: Seq<PricePoint>, j: nat, k: nat)
    requires
        j <= k,
        recent_close_sum(f, j) is None,
    ensures
        recent_close_sum(f, k) is None,
    decreases k - j,
{
    if j < k {
        lemma_recent_close_sum_none(f, j, (k - 1) as nat);
    }
}

/// Once the running gains and losses overflow they stay overflowed.
pub proof fn lemma_rsi_moves_none(f: Seq<PricePoint>, period: nat, j: nat, k: nat)
    requires
        j <= k,
        rsi_moves(f, period, j) is None,
    ensures
        rsi_moves(f, period, k) is None,
    decreases k - j,
{
    if j < k {
        lemma_rsi_moves_none(f, period, j, (k - 1) as nat);
    }
}

/// One move of the RSI window (see [`rsi_move_spec`]).  From non-negative
/// gains and losses: the gains stay unless the close rose, the losses keep
/// their value unless it fell, a fall leaves positive losses; and where all
/// scales are at most `s` and the gains, the losses and the move fit at
/// scale `s`, nothing rounds: the rise is added to the gains and the fall
/// to the losses exactly, at scales at most `s`.
fn rsi_move(gains: Dec, losses: Dec, older: Dec, newer: Dec, Ghost(s): Ghost<nat>) -> (r: Option<(Dec, Dec)>)
    requires
        gains.value() >= 0,
        losses.value() >= 0,
    ensures
        r == rsi_move_spec(gains, losses, older, newer),
        r matches Some((g, l)) ==> {
            &&& g.value() >= 0
            &&& l.value() >= 0
            &&& newer.value() <= older.value() ==> g == gains
            &&& newer.value() >= older.value() ==> l.value() == losses.value()
            &&& newer.value() < older.value() ==> l.value() > 0
        },
        (s <= 28 && gains.scl() <= s && losses.scl() <= s && older.scl() <= s && newer.scl() <= s
            && fits_at_scale(gains.value() + losses.value() + rise(older, newer) + fall(older, newer), s))
            ==> (r matches Some((g, l)) && g.value() == gains.value() + rise(older, newer)
                && l.value() == losses.value() + fall(older, newer) && g.scl() <= s && l.scl() <= s),
{
    let ghost exact: bool = s <= 28 && gains.scl() <= s && losses.scl() <= s && older.scl() <= s
        && newer.scl() <= s && fits_at_scale(gains.value() + losses.value() + rise(older, newer) + fall(older, newer), s);
    proof {
        if exact {
            lemma_fits_smaller_scale(newer.value() - older.value(), s, max_nat(newer.scl(), older.scl()));
        }
    }
    let diff = match dec_sub(newer, older) {
        None => return None,
        Some(d) => d,
    };
    proof {
        if exact {
            assert(diff.value() == newer.value() - older.value());
            assert(diff.scl() <= s);
        }
    }
    if dec_lt(Dec::zero(), diff) {
        proof {
            if exact {
                lemma_fits_smaller_scale(gains.value() + diff.value(), s, max_nat(gains.scl(), diff.scl()));
            }
        }
        match dec_add(gains, diff) {
            None => None,
            Some(g) => Some((g, losses)),
        }
    } else {
        proof {
            if exact {
                lemma_fits_smaller_scale(losses.value() - diff.value(), s, max_nat(losses.scl(), diff.scl()));
            }
            if diff.value() == 0 && losses.value() == 0 {
                lemma_zero_fits(max_nat(losses.scl(), diff.scl()));
            }
        }
        match dec_sub(losses, diff) {
            None => None,
            Some(l) => Some((gains, l)),
        }
    }
}

/// `100 - 100 / (1 + (gains / period) / (losses / period))`.
pub fn rsi_from_sums(gains: Dec, losses: Dec, period: usize) -> (r: Option<Dec>)
    ensures
        r == rsi_from_moves(gains, losses, period),
        (gains.value() == 0 && r is Some) ==> r->0.value() == 0,
{
    let p = Dec::from_usize(period);
    let avg_gain = match dec_div(gains, p) {
        None => return None,
        Some(v) => v,
    };
    let avg_loss = match dec_div(losses, p) {
        None => return None,
        Some(v) => v,
    };
    let rs = match dec_div(avg_gain, avg_loss) {
        None => return None,
        Some(v) => v,
    };
    let denominator = match dec_add(Dec::one(), rs) {
        None => return None,
        Some(v) => v,
    };
    let q = match dec_div(Dec::one_hundred(), denominator) {
        None => return None,
        Some(v) => v,
    };
    proof {
        if gains.value() == 0 {
            assert(Dec::spec_one_hundred().value() != 0) by {
                Dec::lemma_constants();
            }
            assert(q == Dec::spec_one_hundred());
            lemma_zero_fits(max_nat(q.scl(), q.scl()));
        }
    }
    dec_sub(Dec::one_hundred(), q)
}

/// Whether two indicator values satisfy an operator.
pub fn compare_values(left: Option<Dec>, op: RuleOperator, right: Option<Dec>) -> (r: bool)
    ensures
        r == compare_spec(left, op, right),
{
    match (left, right) {
        (Some(l), Some(r)) => match op {
            RuleOperator::GreaterThan => dec_lt(r, l),
            RuleOperator::LessThan => dec_lt(l, r),
            RuleOperator::Equal => dec_eq(l, r),
            RuleOperator::CrossesOver => true,
            RuleOperator::CrossesUnder => true,
        },
        _ => false,
    }
}

impl BacktestEngine {
    /// The simple moving average of the last `period` closes at or before
    /// `timestamp`: their sum divided by `period`.  Where nothing in the
    /// window can round, the sum is exact.
    pub fn calculate_sma(
        &self,
        asset_id: u128,
        timestamp: i128,
        period: usize,
        series: &Vec<TimeSeries>,
    ) -> (r: Result<Option<Dec>, BacktestError>)
        ensures
            r == sma_spec(series@, asset_id, timestamp, period),
            ({
                let f = bars_of(series@, asset_id, timestamp);
                (series_of(series@, asset_id) is Some && f.len() >= period && sma_window_exact(f, period as nat)) ==> exists|sum: Dec|
                    sum.value() == close_sum(f, period as nat) && r == (match #[trigger] decimal_div(sum, Dec::spec_from_usize(period)) {
                        Some(v) => Ok::<Option<Dec>, BacktestError>(Some(v)),
                        None => Err(BacktestError::Arithmetic),
                    })
            }),
    {
        let k: usize = match find_series(series, asset_id) {
            None => return Ok(None),
            Some(k) => k,
        };
        let f = bars_upto(&series[k].data, timestamp);
        if f.len() < period {
            return Ok(None);
        }
        let ghost sc: nat = closes_scale(f@, f@.len() - period, period as nat);
        let ghost exact: bool = sc <= 28 && fits_at_scale(close_size_sum(f@, period as nat), sc);
        assert(f@ == bars_of(series@, asset_id, timestamp));
        let mut sum = Dec::zero();
        let mut j: usize = 0;
        while j < period
            invariant
                0 <= j <= period <= f@.len(),
                k < series@.len(),
                series_index(series@, asset_id) == Some(k as int),
                f@ == points_upto(series@[k as int].data@, timestamp),
                recent_close_sum(f@, j as nat) == Some(sum),
                sc == closes_scale(f@, f@.len() - period, period as nat),
                exact == (sc <= 28 && fits_at_scale(close_size_sum(f@, period as nat), sc)),
                exact ==> sum.value() == close_sum(f@, j as nat) && sum.scl() <= sc,
            decreases period - j,
        {
            proof {
                if exact {
                    let c = f@[f@.len() - 1 - j].close;
                    lemma_closes_scale(f@, f@.len() - period, period as nat, f@.len() - 1 - j);
                    lemma_close_sums(f@, (j + 1) as nat, period as nat);
                    assert(close_sum(f@, (j + 1) as nat) == sum.value() + c.value());
                    assert(fits_at_scale(sum.value() + c.value(), sc));
                    lemma_fits_smaller_scale(sum.value() + c.value(), sc, max_nat(sum.scl(), c.scl()));
                }
            }
            match dec_add(sum, f[f.len() - 1 - j].close) {
                None => {
                    proof {
                        assert(recent_close_sum(f@, (j + 1) as nat) is None);
                        lemma_recent_close_sum_none(f@, (j + 1) as nat, period as nat);
                    }
                    return Err(BacktestError::Arithmetic);
                },
                Some(s) => {
                    sum = s;
                },
            }
            j = j + 1;
        }
        match dec_div(sum, Dec::from_usize(period)) {
            None => Err(BacktestError::Arithmetic),
            Some(avg) => Ok(Some(avg)),
        }
    }

    /// The relative strength index over the last `period` moves at or
    /// before `timestamp`: `100 - 100 / (1 + (G / period) / (L / period))`
    /// with `G` the sum of the rises and `L` the sum of the falls of the
    /// closes over the window (100 where nothing fell).  Where nothing in the
    /// window can round, `G` and `L` are exact.
    #[verifier::rlimit(40)]
    pub fn calculate_rsi(
        &self,
        asset_id: u128,
        timestamp: i128,
        period: usize,
        series: &Vec<TimeSeries>,
    ) -> (r: Result<Option<Dec>, BacktestError>)
        ensures
            r == rsi_spec(series@, asset_id, timestamp, period),
            ({
                let f = bars_of(series@, asset_id, timestamp);
                let gain = window_gain(f, period as nat, period as nat);
                let loss = window_loss(f, period as nat, period as nat);
                (f.len() >= period + 1 && rsi_window_exact(f, period as nat)) ==> {
                    &&& loss == 0 ==> r == Ok::<Option<Dec>, BacktestError>(Some(Dec::spec_one_hundred()))
                    &&& loss != 0 ==> exists|g: Dec, l: Dec|
                        g.value() == gain && l.value() == loss && r == (match #[trigger] rsi_from_moves(g, l, period) {
                            Some(v) => Ok::<Option<Dec>, BacktestError>(Some(v)),
                            None => Err(BacktestError::Arithmetic),
                        })
                }
            }),
            r matches Ok(Some(v)) ==> (window_never_falls(bars_of(series@, asset_id, timestamp), period as nat)
                ==> v.value() == 100 * pow10(28)),
            r matches Ok(Some(v)) ==> (window_never_rises(bars_of(series@, asset_id, timestamp), period as nat)
                && window_has_fall(bars_of(series@, asset_id, timestamp), period as nat) ==> v.value() == 0),
    {
        let k: usize = match find_series(series, asset_id) {
            None => return Ok(None),
            Some(k) => k,
        };
        let f = bars_upto(&series[k].data, timestamp);
        let bars: usize = f.len();
        let needed: usize = match period.checked_add(1) {
            None => {
                proof {
                    assert(f@ == bars_of(series@, asset_id, timestamp));
                    assert(f@.len() == bars);
                    assert(f@.len() < period + 1);
                }
                return Err(BacktestError::Arithmetic);
            },
            Some(n) => n,
        };
        if f.len() < needed {
            return Ok(None);
        }
        let base: usize = f.len() - period;
        assert(f@ == bars_of(series@, asset_id, timestamp));
        let ghost sc: nat = closes_scale(f@, base - 1, (period + 1) as nat);
        let ghost exact: bool = sc <= 28 && fits_at_scale(
            window_gain(f@, period as nat, period as nat) + window_loss(f@, period as nat, period as nat),
            sc,
        );
        let mut gains = Dec::zero();
        let mut losses = Dec::zero();
        let mut j: usize = 0;
        while j < period
            invariant
                0 <= j <= period,
                period + 1 <= f@.len(),
                base == f@.len() - period,
                f@.len() <= usize::MAX,
                k < series@.len(),
                series_index(series@, asset_id) == Some(k as int),
                f@ == points_upto(series@[k as int].data@, timestamp),
                rsi_moves(f@, period as nat, j as nat) == Some((gains, losses)),
                f@ == bars_of(series@, asset_id, timestamp),
                sc == closes_scale(f@, base - 1, (period + 1) as nat),
                exact == (sc <= 28 && fits_at_scale(
                    window_gain(f@, period as nat, period as nat) + window_loss(f@, period as nat, period as nat),
                    sc,
                )),
                gains.value() >= 0,
                losses.value() >= 0,
                exact ==> gains.value() == window_gain(f@, period as nat, j as nat)
                    && losses.value() == window_loss(f@, period as nat, j as nat) && gains.scl() <= sc
                    && losses.scl() <= sc,
                window_never_falls(f@, period as nat) ==> losses.value() == 0,
                window_never_rises(f@, period as nat) ==> gains.value() == 0,
                (exists|m: int| base <= m < base + j && #[trigger] f@[m].close.value() < f@[m - 1].close.value())
                    ==> losses.value() > 0,
            decreases period - j,
        {
            let newer = f[base + j].close;
            let older = f[base + j - 1].close;
            let ghost m_now: int = base + j;
            proof {
                if exact {
                    lemma_closes_scale(f@, base - 1, (period + 1) as nat, m_now);
                    lemma_closes_scale(f@, base - 1, (period + 1) as nat, m_now - 1);
                    lemma_window_sums_grow(f@, period as nat, (j + 1) as nat, period as nat);
                    let total = window_gain(f@, period as nat, period as nat) + window_loss(f@, period as nat, period as nat);
                    let part = gains.value() + losses.value() + rise(older, newer) + fall(older, newer);
                    assert(0 <= part <= total);
                    assert(fits_at_scale(part, sc));
                }
            }
            match rsi_move(gains, losses, older, newer, Ghost(sc)) {
                None => {
                    proof {
                        assert(rsi_moves(f@, period as nat, (j + 1) as nat) is None);
                        lemma_rsi_moves_none(f@, period as nat, (j + 1) as nat, period as nat);
                    }
                    return Err(BacktestError::Arithmetic);
                },
                Some((g, l)) => {
                    gains = g;
                    losses = l;
                },
            }
            proof {
                assert forall|m: int| base <= m < base + j + 1 && #[trigger] f@[m].close.value() < f@[m - 1].close.value()
                    implies losses.value() > 0 by {
                    if m < base + j {
                    }
                }
                if window_never_falls(f@, period as nat) {
                    assert(f@[m_now].close.value() >= f@[m_now - 1].close.value());
                }
                if window_never_rises(f@, period as nat) {
                    assert(f@[m_now].close.value() <= f@[m_now - 1].close.value());
                }
            }
            j = j + 1;
        }
        proof {
            if window_has_fall(f@, period as nat) {
                let m = choose|m: int| f@.len() - period <= m < f@.len() && 1 <= m && #[trigger] f@[m].close.value() < f@[m - 1].close.value();
                assert(base <= m < base + j);
            }
        }
        if dec_eq(losses, Dec::zero()) {
            return Ok(Some(Dec::one_hundred()));
        }
        match rsi_from_sums(gains, losses, period) {
            None => Err(BacktestError::Arithmetic),
            Some(rsi) => Ok(Some(rsi)),
        }
    }

    /// The value of an indicator for an asset at a timestamp.
    pub fn calculate_indicator(
        &self,
        indicator: &Indicator,
        asset_id: u128,
        timestamp: i128,
        series: &Vec<TimeSeries>,
    ) -> (r: Result<Option<Dec>, BacktestError>)
        ensures
            r == indicator_spec(*indicator, series@, asset_id, timestamp),
            *indicator matches Indicator::Price ==> r == Ok::<Option<Dec>, BacktestError>(price_at(series@, asset_id, timestamp)),
            *indicator matches Indicator::SMA(n) ==> r == sma_spec(series@, asset_id, timestamp, n),
            *indicator matches Indicator::EMA(n) ==> r == sma_spec(series@, asset_id, timestamp, n),
            *indicator matches Indicator::RSI(n) ==> r == rsi_spec(series@, asset_id, timestamp, n),
            *indicator matches Indicator::Value(v) ==> r == Ok::<Option<Dec>, BacktestError>(Some(v)),
    {
        match indicator {
            Indicator::Price => Ok(self.get_price_at(asset_id, timestamp, series)),
            Indicator::SMA(period) => self.calculate_sma(asset_id, timestamp, *period, series),
            Indicator::RSI(period) => self.calculate_rsi(asset_id, timestamp, *period, series),
            Indicator::Value(v) => Ok(Some(*v)),
            Indicator::EMA(period) => self.calculate_sma(asset_id, timestamp, *period, series),
        }
    }

    /// Whether a rule holds for an asset at a timestamp.
    pub fn evaluate_rule(
        &self,
        rule: &Rule,
        asset_id: u128,
        timestamp: i128,
        series: &Vec<TimeSeries>,
    ) -> (r: Result<bool, BacktestError>)
        ensures
            r == rule_spec(*rule, series@, asset_id, timestamp),
    {
        let left = match self.calculate_indicator(&rule.left, asset_id, timestamp, series) {
            Err(e) => return Err(e),
            Ok(v) => v,
        };
        let right = match self.calculate_indicator(&rule.right, asset_id, timestamp, series) {
            Err(e) => return Err(e),
            Ok(v) => v,
        };
        Ok(compare_values(left, rule.operator, right))
    }

    /// Entry: there are entry rules and all of them hold (evaluated in
    /// order, stopping at the first that does not).
    pub fn should_enter_rules(
        &self,
        asset_id: u128,
        timestamp: i128,
        entry_rules: &Vec<Rule>,
        series: &Vec<TimeSeries>,
    ) -> (r: Result<bool, BacktestError>)
        ensures
            r == should_enter_spec(entry_rules@, series@, asset_id, timestamp),
    {
        if entry_rules.len() == 0 {
            return Ok(false);
        }
        let mut i: usize = 0;
        while i < entry_rules.len()
            invariant
                0 <= i <= entry_rules@.len(),
                all_rules_from(entry_rules@, series@, asset_id, timestamp, 0) == all_rules_from(
                    entry_rules@,
                    series@,
                    asset_id,
                    timestamp,
                    i as int,
                ),
            decreases entry_rules.len() - i,
        {
            match self.evaluate_rule(&entry_rules[i], asset_id, timestamp, series) {
                Err(e) => return Err(e),
                Ok(false) => return Ok(false),
                Ok(true) => {},
            }
            i = i + 1;
        }
        Ok(true)
    }

    /// Exit: some exit rule holds (evaluated in order, stopping at the first
    /// that does).
    pub fn should_exit_rules(
        &self,
        asset_id: u128,
        timestamp: i128,
        exit_rules: &Vec<Rule>,
        series: &Vec<TimeSeries>,
    ) -> (r: Result<bool, BacktestError>)
        ensures
            r == should_exit_spec(exit_rules@, series@, asset_id, timestamp),
    {
        if exit_rules.len() == 0 {
            return Ok(false);
        }
        let mut i: usize = 0;
        while i < exit_rules.len()
            invariant
                0 <= i <= exit_rules@.len(),
                any_rule_from(exit_rules@, series@, asset_id, timestamp, 0) == any_rule_from(
                    exit_rules@,
                    series@,
                    asset_id,
                    timestamp,
                    i as int,
                ),
            decreases exit_rules.len() - i,
        {
            match self.evaluate_rule(&exit_rules[i], asset_id, timestamp, series) {
                Err(e) => return Err(e),
                Ok(true) => return Ok(true),
                Ok(false) => {},
            }
            i = i + 1;
        }
        Ok(false)
    }
}

} // verus!
