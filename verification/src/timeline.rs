//! The timeline of a backtest: the timestamps it steps through, and whole
//! days between two timestamps.
use crate::domain::TimeSeries;
use vstd::prelude::*;

verus! {

/// Nanoseconds in a day.
pub const NANOS_PER_DAY: i128 = 86_400_000_000_000;

/// Some series has a bar at `t`.
pub open spec fn has_bar_at(series: Seq<TimeSeries>, t: i128) -> bool {
    exists|i: int, j: int|
        0 <= i < series.len() && 0 <= j < series[i].data@.len() && #[trigger] series[i].data@[j].timestamp == t
}

/// Strictly increasing.
pub open spec fn strictly_increasing(ts: Seq<i128>) -> bool {
    forall|i: int, j: int| 0 <= i < j < ts.len() ==> ts[i] < ts[j]
}

/// `ts` lists every timestamp of the series once, in increasing order.
pub open spec fn is_timeline(ts: Seq<i128>, series: Seq<TimeSeries>) -> bool {
    &&& strictly_increasing(ts)
    &&& forall|t: i128| ts.contains(t) <==> has_bar_at(series, t)
}

/// The timeline of the series (there is exactly one, see
/// [`lemma_timeline_unique`]).
pub open spec fn timeline(series: Seq<TimeSeries>) -> Seq<i128> {
    some_timestamps(|ts: Seq<i128>| is_timeline(ts, series))
}

/// Some list of timestamps that `p` holds of (where there is one).
pub open spec fn some_timestamps(p: spec_fn(Seq<i128>) -> bool) -> Seq<i128> {
    choose|ts: Seq<i128>| #[trigger] p(ts)
}

/// Two strictly increasing sequences with the same elements are equal.
pub proof fn lemma_sorted_unique(a: Seq<i128>, b: Seq<i128>)
    requires
        strictly_increasing(a),
        strictly_increasing(b),
        forall|t: i128| a.contains(t) <==> b.contains(t),
    ensures
        a == b,
    decreases a.len(),
{
    if a.len() == 0 {
        if b.len() > 0 {
            assert(b.contains(b[0]));
        }
        assert(a =~= b);
    } else {
        assert(a.contains(a[0]));
        assert(b.contains(a[0]));
        assert(b.len() > 0);
        assert(b.contains(b[0]));
        assert(a.contains(b[0]));
        let ka = choose|k: int| 0 <= k < a.len() && a[k] == b[0];
        let kb = choose|k: int| 0 <= k < b.len() && b[k] == a[0];
        assert(a[0] <= a[ka]);
        assert(b[0] <= b[kb]);
        assert(a[0] == b[0]);
        let a1 = a.drop_first();
        let b1 = b.drop_first();
        assert forall|t: i128| a1.contains(t) implies b1.contains(t) by {
            let k = choose|k: int| 0 <= k < a1.len() && a1[k] == t;
            assert(a[k + 1] == t);
            assert(a.contains(t));
            assert(b.contains(t));
            let m = choose|m: int| 0 <= m < b.len() && b[m] == t;
            assert(t != a[0]);
            assert(m != 0);
            assert(b1[m - 1] == t);
        }
        assert forall|t: i128| b1.contains(t) implies a1.contains(t) by {
            let k = choose|k: int| 0 <= k < b1.len() && b1[k] == t;
            assert(b[k + 1] == t);
            assert(b.contains(t));
            assert(a.contains(t));
            let m = choose|m: int| 0 <= m < a.len() && a[m] == t;
            assert(t != b[0]);
            assert(m != 0);
            assert(a1[m - 1] == t);
        }
        lemma_sorted_unique(a1, b1);
        assert(a =~= b) by {
            assert forall|i: int| 0 <= i < a.len() implies a[i] == b[i] by {
                if i > 0 {
                    assert(a[i] == a1[i - 1]);
                    assert(b[i] == b1[i - 1]);
                }
            }
        }
    }
}

/// The timeline of a set of series is unique.
pub proof fn lemma_timeline_unique(ts: Seq<i128>, series: Seq<TimeSeries>)
    requires
        is_timeline(ts, series),
    ensures
        timeline(series) == ts,
{
    let p = |x: Seq<i128>| is_timeline(x, series);
    assert(p(ts));
    let c = timeline(series);
    assert(c == some_timestamps(p));
    assert(p(c));
    lemma_sorted_unique(c, ts);
}

/// Some series before index `i`, or series `i` before bar `j`, has a bar at
/// `t`.
pub open spec fn has_bar_before(series: Seq<TimeSeries>, i: int, j: int, t: i128) -> bool {
    ||| exists|a: int, b: int|
        0 <= a < i && a < series.len() && 0 <= b < series[a].data@.len()
            && #[trigger] series[a].data@[b].timestamp == t
    ||| (0 <= i < series.len() && exists|b: int|
        0 <= b < j && b < series[i].data@.len() && #[trigger] series[i].data@[b].timestamp == t)
}

/// Inserts `t` into a strictly increasing vector, unless it is there.
fn insert_sorted(v: &mut Vec<i128>, t: i128)
    requires
        strictly_increasing(old(v)@),
    ensures
        strictly_increasing(final(v)@),
        forall|x: i128| final(v)@.contains(x) <==> (old(v)@.contains(x) || x == t),
{
    let mut k: usize = 0;
    while k < v.len() && v[k] < t
        invariant
            0 <= k <= v@.len(),
            v@ == old(v)@,
            forall|i: int| 0 <= i < k ==> v@[i] < t,
        decreases v.len() - k,
    {
        k = k + 1;
    }
    if k < v.len() && v[k] == t {
        assert(v@.contains(t));
        return;
    }
    let ghost before = v@;
    v.insert(k, t);
    proof {
        before.insert_ensures(k as int, t);
        assert(forall|i: int| k <= i < before.len() ==> t < before[i]) by {
            assert forall|i: int| k <= i < before.len() implies t < before[i] by {
                if i > k {
                    assert(before[k as int] < before[i]);
                }
            }
        }
        assert forall|i: int, j: int| 0 <= i < j < v@.len() implies v@[i] < v@[j] by {
            if j < k {
            } else if j == k {
            } else if i < k {
                assert(v@[j] == before[j - 1]);
            } else if i == k {
                assert(v@[j] == before[j - 1]);
            } else {
                assert(v@[j] == before[j - 1]);
                assert(v@[i] == before[i - 1]);
            }
        }
        assert forall|x: i128| v@.contains(x) <==> (before.contains(x) || x == t) by {
            if v@.contains(x) {
                let m = choose|m: int| 0 <= m < v@.len() && v@[m] == x;
                if m < k {
                    assert(before[m] == x);
                } else if m > k {
                    assert(before[m - 1] == x);
                }
            }
            if before.contains(x) {
                let m = choose|m: int| 0 <= m < before.len() && before[m] == x;
                if m < k {
                    assert(v@[m] == x);
                } else {
                    assert(v@[m + 1] == x);
                }
            }
            if x == t {
                assert(v@[k as int] == t);
            }
        }
    }
}

/// Every timestamp of the series once, in increasing order: the steps of a
/// backtest.
pub fn backtest_timestamps(series: &Vec<TimeSeries>) -> (r: Vec<i128>)
    ensures
        is_timeline(r@, series@),
        r@ == timeline(series@),
{
    let mut out: Vec<i128> = Vec::new();
    let mut i: usize = 0;
    while i < series.len()
        invariant
            0 <= i <= series@.len(),
            strictly_increasing(out@),
            forall|t: i128| out@.contains(t) <==> has_bar_before(series@, i as int, 0, t),
        decreases series.len() - i,
    {
        let data = &series[i].data;
        let mut j: usize = 0;
        while j < data.len()
            invariant
                0 <= i < series@.len(),
                0 <= j <= data@.len(),
                data@ == series@[i as int].data@,
                strictly_increasing(out@),
                forall|t: i128| out@.contains(t) <==> has_bar_before(series@, i as int, j as int, t),
            decreases data.len() - j,
        {
            let t: i128 = data[j].timestamp;
            let ghost prev = out@;
            insert_sorted(&mut out, t);
            proof {
                assert forall|x: i128| out@.contains(x) <==> has_bar_before(series@, i as int, j + 1, x) by {
                    if x == t {
                        assert(series@[i as int].data@[j as int].timestamp == x);
                    }
                    if has_bar_before(series@, i as int, j + 1, x) && !has_bar_before(series@, i as int, j as int, x) {
                        let b = choose|b: int|
                            0 <= b < j + 1 && b < series@[i as int].data@.len()
                                && #[trigger] series@[i as int].data@[b].timestamp == x;
                        assert(b == j);
                    }
                }
            }
            j = j + 1;
        }
        proof {
            assert forall|x: i128| out@.contains(x) <==> has_bar_before(series@, i + 1, 0, x) by {
                if has_bar_before(series@, i as int, j as int, x) && !has_bar_before(series@, i as int, 0, x) {
                    let b = choose|b: int|
                        0 <= b < j && b < series@[i as int].data@.len()
                            && #[trigger] series@[i as int].data@[b].timestamp == x;
                    assert(series@[i as int].data@[b].timestamp == x);
                }
                if has_bar_before(series@, i + 1, 0, x) && !has_bar_before(series@, i as int, j as int, x) {
                    let (a, b) = choose|a: int, b: int|
                        0 <= a < i + 1 && a < series@.len() && 0 <= b < series@[a].data@.len()
                            && #[trigger] series@[a].data@[b].timestamp == x;
                    assert(a == i);
                }
            }
        }
        i = i + 1;
    }
    proof {
        assert forall|x: i128| out@.contains(x) <==> has_bar_at(series@, x) by {
            if has_bar_at(series@, x) {
                let (a, b) = choose|a: int, b: int|
                    0 <= a < series@.len() && 0 <= b < series@[a].data@.len()
                        && #[trigger] series@[a].data@[b].timestamp == x;
                assert(has_bar_before(series@, i as int, 0, x));
            }
        }
        lemma_timeline_unique(out@, series@);
    }
    out
}

/// Truncating division (toward zero), as Rust's `/` on integers.
pub open spec fn trunc_div(d: int, n: int) -> int {
    if d >= 0 {
        d / n
    } else {
        -((-d) / n)
    }
}

/// Shifts an `i128` into `u128` while keeping its order: `x + 2^127`.
fn biased(x: i128) -> (r: u128)
    ensures
        r == x + 0x8000_0000_0000_0000_0000_0000_0000_0000int,
{
    if x >= 0 {
        x as u128 + 0x8000_0000_0000_0000_0000_0000_0000_0000u128
    } else {
        (x + 0x7fff_ffff_ffff_ffff_ffff_ffff_ffff_ffffi128 + 1) as u128
    }
}

/// Whole days from `earlier` to `later` (negative when `later` comes first),
/// truncated toward zero, as `(later - earlier).num_days()` in chrono.
pub fn elapsed_whole_days(later: i128, earlier: i128) -> (r: i128)
    ensures
        r == trunc_div(later - earlier, NANOS_PER_DAY as int),
{
    let a: u128 = biased(later);
    let b: u128 = biased(earlier);
    let n: u128 = 86_400_000_000_000;
    if a >= b {
        let d: u128 = a - b;
        let q: u128 = d / n;
        assert(q * 2 <= d) by (nonlinear_arith)
            requires
                q == d / n,
                n == 86_400_000_000_000u128,
        ;
        q as i128
    } else {
        let d: u128 = b - a;
        let q: u128 = d / n;
        assert(q * 2 <= d) by (nonlinear_arith)
            requires
                q == d / n,
                n == 86_400_000_000_000u128,
        ;
        -(q as i128)
    }
}

} // verus!
