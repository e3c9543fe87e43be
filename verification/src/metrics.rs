//! Performance figures of a finished backtest.
use crate::decimal::{dec_div, dec_lt, dec_sub, decimal_div, decimal_sub, lemma_zero_fits, max_nat, Dec};
use crate::engine::{BacktestError, PortfolioSnapshot};
use vstd::prelude::*;

verus! {

/// What a backtest achieved.  The annual return and the volatility are not
/// computed and are always zero.
#[derive(Clone, Copy, Debug)]
pub struct BacktestMetrics {
    pub total_return: Dec,
    pub annual_return: Dec,
    pub max_drawdown: Dec,
    pub volatility: Dec,
    pub final_value: Dec,
}

/// `(final - initial) / initial` where the initial value is positive, zero
/// otherwise.
pub open spec fn total_return_spec(initial: Dec, last: Dec) -> Option<Dec> {
    if initial.value() > 0 {
        match decimal_sub(last, initial) {
            None => None,
            Some(gain) => decimal_div(gain, initial),
        }
    } else {
        Some(Dec::spec_zero())
    }
}

/// The running peak and the largest drawdown `(peak - value) / peak` after
/// the first `n` snapshots; the peak starts at the first value and the
/// largest drawdown at zero.
pub open spec fn drawdown_upto(h: Seq<PortfolioSnapshot>, n: nat) -> Option<(Dec, Dec)>
    decreases n,
{
    if n == 0 {
        Some((h[0].total_value, Dec::spec_zero()))
    } else {
        match drawdown_upto(h, (n - 1) as nat) {
            None => None,
            Some((peak, max_dd)) => {
                let v = h[n - 1].total_value;
                let new_peak = if v.value() > peak.value() {
                    v
                } else {
                    peak
                };
                match decimal_sub(new_peak, v) {
                    None => None,
                    Some(fall) => match decimal_div(fall, new_peak) {
                        None => None,
                        Some(dd) => Some(
                            (
                                new_peak,
                                if dd.value() > max_dd.value() {
                                    dd
                                } else {
                                    max_dd
                                },
                            ),
                        ),
                    },
                }
            },
        }
    }
}

/// The metrics of a history: all zero for an empty one; otherwise the total
/// return from the first to the last value, the largest drawdown, and the
/// last value.
pub open spec fn metrics_spec(h: Seq<PortfolioSnapshot>) -> Result<BacktestMetrics, BacktestError> {
    if h.len() == 0 {
        Ok(
            BacktestMetrics {
                total_return: Dec::spec_zero(),
                annual_return: Dec::spec_zero(),
                max_drawdown: Dec::spec_zero(),
                volatility: Dec::spec_zero(),
                final_value: Dec::spec_zero(),
            },
        )
    } else {
        match (total_return_spec(h[0].total_value, h.last().total_value), drawdown_upto(h, h.len())) {
            (Some(total_return), Some((_, max_drawdown))) => Ok(
                BacktestMetrics {
                    total_return,
                    annual_return: Dec::spec_zero(),
                    max_drawdown,
                    volatility: Dec::spec_zero(),
                    final_value: h.last().total_value,
                },
            ),
            _ => Err(BacktestError::Arithmetic),
        }
    }
}

/// The value of the portfolio never fell between consecutive snapshots.
pub open spec fn never_falls(h: Seq<PortfolioSnapshot>) -> bool {
    forall|i: int| 0 < i < h.len() ==> h[i - 1].total_value.value() <= #[trigger] h[i].total_value.value()
}

/// The highest of the first `i + 1` values of a history (the earliest of
/// equal ones).
pub open spec fn highest_upto(h: Seq<PortfolioSnapshot>, i: int) -> Dec
    decreases i,
{
    if i <= 0 {
        h[0].total_value
    } else {
        let before = highest_upto(h, i - 1);
        if h[i].total_value.value() > before.value() {
            h[i].total_value
        } else {
            before
        }
    }
}

/// The drawdown at snapshot `i`: how far its value is below the highest
/// value so far, as a fraction of that highest value (each operation by
/// `Decimal`).
pub open spec fn drawdown_at(h: Seq<PortfolioSnapshot>, i: int) -> Option<Dec> {
    match decimal_sub(highest_upto(h, i), h[i].total_value) {
        None => None,
        Some(fall) => decimal_div(fall, highest_upto(h, i)),
    }
}

/// Where the value never fell, no value is below the first.
pub proof fn lemma_never_below_first(h: Seq<PortfolioSnapshot>, i: int)
    requires
        never_falls(h),
        0 <= i < h.len(),
    ensures
        h[0].total_value.value() <= h[i].total_value.value(),
    decreases i,
{
    if i > 0 {
        lemma_never_below_first(h, i - 1);
        assert(h[i - 1].total_value.value() <= h[i].total_value.value());
    }
}

pub proof fn lemma_drawdown_none(h: Seq<PortfolioSnapshot>, j: nat, k: nat)
    requires
        j <= k,
        drawdown_upto(h, j) is None,
    ensures
        drawdown_upto(h, k) is None,
    decreases k - j,
{
    if j < k {
        lemma_drawdown_none(h, j, (k - 1) as nat);
    }
}

/// The metrics of a history (see [`metrics_spec`]).  The total return is
/// `(last - first) / first` (each operation by `Decimal`) where the first
/// value is positive, and zero otherwise; the final value is the last one.
/// The largest drawdown is the largest of the drawdowns at the snapshots
/// (see [`drawdown_at`]), or zero; it is never negative; where the value
/// never fell, it is zero and the total return is not negative.
pub fn calculate_metrics(history: &Vec<PortfolioSnapshot>) -> (r: Result<BacktestMetrics, BacktestError>)
    ensures
        r == metrics_spec(history@),
        r is Ok ==> r->Ok_0.max_drawdown.value() >= 0,
        r is Ok && never_falls(history@) ==> r->Ok_0.max_drawdown.value() == 0,
        r is Ok && never_falls(history@) ==> r->Ok_0.total_return.value() >= 0,
        (r is Ok && history@.len() > 0) ==> r->Ok_0.final_value == history@.last().total_value,
        (r is Ok && history@.len() > 0 && history@[0].total_value.value() > 0) ==> ({
            let first = history@[0].total_value;
            let last = history@.last().total_value;
            &&& decimal_sub(last, first) is Some
            &&& decimal_div(decimal_sub(last, first)->0, first) == Some(r->Ok_0.total_return)
            &&& last.value() >= first.value() ==> r->Ok_0.total_return.value() >= 0
        }),
        (r is Ok && history@.len() > 0 && history@[0].total_value.value() <= 0) ==> r->Ok_0.total_return.value() == 0,
        r is Ok ==> forall|i: int| 0 <= i < history@.len() ==> (#[trigger] drawdown_at(history@, i) matches Some(d)
            && d.value() <= r->Ok_0.max_drawdown.value()),
        r is Ok ==> (r->Ok_0.max_drawdown == Dec::spec_zero() || exists|i: int|
            0 <= i < history@.len() && #[trigger] drawdown_at(history@, i) == Some(r->Ok_0.max_drawdown)),
{
    if history.len() == 0 {
        return Ok(
            BacktestMetrics {
                total_return: Dec::zero(),
                annual_return: Dec::zero(),
                max_drawdown: Dec::zero(),
                volatility: Dec::zero(),
                final_value: Dec::zero(),
            },
        );
    }
    let initial_value = history[0].total_value;
    let final_value = history[history.len() - 1].total_value;
    proof {
        if never_falls(history@) {
            lemma_never_below_first(history@, history@.len() - 1);
        }
    }
    let total_return = if dec_lt(Dec::zero(), initial_value) {
        let gain = match dec_sub(final_value, initial_value) {
            None => return Err(BacktestError::Arithmetic),
            Some(g) => g,
        };
        match dec_div(gain, initial_value) {
            None => return Err(BacktestError::Arithmetic),
            Some(t) => t,
        }
    } else {
        Dec::zero()
    };
    let mut max_drawdown = Dec::zero();
    let mut peak = initial_value;
    let mut i: usize = 0;
    while i < history.len()
        invariant
            0 <= i <= history@.len(),
            history@.len() > 0,
            total_return_spec(history@[0].total_value, history@.last().total_value) == Some(
                total_return,
            ),
            never_falls(history@) ==> total_return.value() >= 0,
            drawdown_upto(history@, i as nat) == Some((peak, max_drawdown)),
            max_drawdown.value() >= 0,
            never_falls(history@) ==> max_drawdown.value() == 0,
            never_falls(history@) && i > 0 ==> peak.value() == history@[i - 1].total_value.value(),
            never_falls(history@) && i == 0 ==> peak.value() == history@[0].total_value.value(),
            i > 0 ==> peak == highest_upto(history@, i - 1),
            i == 0 ==> peak == history@[0].total_value,
            forall|m: int| 0 <= m < i ==> (#[trigger] drawdown_at(history@, m) matches Some(d)
                && d.value() <= max_drawdown.value()),
            max_drawdown == Dec::spec_zero() || exists|m: int|
                0 <= m < i && #[trigger] drawdown_at(history@, m) == Some(max_drawdown),
        decreases history.len() - i,
    {
        let v = history[i].total_value;
        if dec_lt(peak, v) {
            peak = v;
        }
        let fall = match dec_sub(peak, v) {
            None => {
                proof {
                    lemma_drawdown_none(history@, (i + 1) as nat, history@.len());
                }
                return Err(BacktestError::Arithmetic);
            },
            Some(f) => f,
        };
        let dd = match dec_div(fall, peak) {
            None => {
                proof {
                    lemma_drawdown_none(history@, (i + 1) as nat, history@.len());
                }
                return Err(BacktestError::Arithmetic);
            },
            Some(d) => d,
        };
        proof {
            if never_falls(history@) {
                if i > 0 {
                    assert(history@[i - 1].total_value.value() <= history@[i as int].total_value.value());
                }
                assert(peak.value() == v.value());
                lemma_zero_fits(max_nat(peak.scl(), v.scl()));
                assert(fall.value() == 0);
                assert(dd.value() == 0);
            }
        }
        assert(peak == highest_upto(history@, i as int));
        assert(drawdown_at(history@, i as int) == Some(dd));
        let ghost before = max_drawdown;
        if dec_lt(max_drawdown, dd) {
            max_drawdown = dd;
        }
        proof {
            assert forall|m: int| 0 <= m < i + 1 implies (#[trigger] drawdown_at(history@, m) matches Some(d)
                && d.value() <= max_drawdown.value()) by {
                if m < i {
                    assert(drawdown_at(history@, m) matches Some(d) && d.value() <= before.value());
                }
            }
            if max_drawdown != Dec::spec_zero() {
                if max_drawdown == dd {
                    assert(drawdown_at(history@, i as int) == Some(max_drawdown));
                } else {
                    let m = choose|m: int| 0 <= m < i && #[trigger] drawdown_at(history@, m) == Some(before);
                    assert(drawdown_at(history@, m) == Some(max_drawdown));
                }
            }
        }
        i = i + 1;
    }
    Ok(
        BacktestMetrics {
            total_return,
            annual_return: Dec::zero(),
            max_drawdown,
            volatility: Dec::zero(),
            final_value,
        },
    )
}

} // verus!
