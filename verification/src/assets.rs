//! The order in which a step considers the assets for entry: every asset
//! that has a series, once, by increasing id, whatever the order of the
//! series.
use crate::domain::TimeSeries;
use crate::signals::{lemma_first_index_from, series_of};
use vstd::prelude::*;

verus! {

/// Strictly increasing ids.
pub open spec fn ids_increasing(ids: Seq<u128>) -> bool {
    forall|i: int, j: int| 0 <= i < j < ids.len() ==> ids[i] < ids[j]
}

/// `ids` lists every asset that has a series once, by increasing id.
pub open spec fn is_asset_order(ids: Seq<u128>, series: Seq<TimeSeries>) -> bool {
    &&& ids_increasing(ids)
    &&& forall|id: u128| ids.contains(id) <==> series_of(series, id) is Some
}

/// The assets of the series by increasing id (there is exactly one such
/// list, see [`lemma_asset_order_unique`]).
pub open spec fn asset_order(series: Seq<TimeSeries>) -> Seq<u128> {
    some_ids(|ids: Seq<u128>| is_asset_order(ids, series))
}

/// Some list of ids that `p` holds of (where there is one).
pub open spec fn some_ids(p: spec_fn(Seq<u128>) -> bool) -> Seq<u128> {
    choose|ids: Seq<u128>| #[trigger] p(ids)
}

/// Two strictly increasing lists of ids with the same elements are equal.
pub proof fn lemma_ids_unique(a: Seq<u128>, b: Seq<u128>)
    requires
        ids_increasing(a),
        ids_increasing(b),
        forall|x: u128| a.contains(x) <==> b.contains(x),
    ensures
        a == b,
    decreases a.len(),
{
    if a.len() == 0 {
        if b.len() > 0 {
            assert(b.contains(b[0]));
        }
        assert(a =~= b);
    } else {
        assert(a.contains(a[0]));
        assert(b.contains(a[0]));
        assert(b.contains(b[0]));
        assert(a.contains(b[0]));
        let ka = choose|k: int| 0 <= k < a.len() && a[k] == b[0];
        let kb = choose|k: int| 0 <= k < b.len() && b[k] == a[0];
        assert(a[0] <= a[ka]);
        assert(b[0] <= b[kb]);
        let a1 = a.drop_first();
        let b1 = b.drop_first();
        assert forall|x: u128| a1.contains(x) implies b1.contains(x) by {
            let k = choose|k: int| 0 <= k < a1.len() && a1[k] == x;
            assert(a[k + 1] == x);
            assert(a.contains(x));
            let m = choose|m: int| 0 <= m < b.len() && b[m] == x;
            assert(m != 0);
            assert(b1[m - 1] == x);
        }
        assert forall|x: u128| b1.contains(x) implies a1.contains(x) by {
            let k = choose|k: int| 0 <= k < b1.len() && b1[k] == x;
            assert(b[k + 1] == x);
            assert(b.contains(x));
            let m = choose|m: int| 0 <= m < a.len() && a[m] == x;
            assert(m != 0);
            assert(a1[m - 1] == x);
        }
        lemma_ids_unique(a1, b1);
        assert forall|i: int| 0 <= i < a.len() implies a[i] == b[i] by {
            if i > 0 {
                assert(a[i] == a1[i - 1]);
                assert(b[i] == b1[i - 1]);
            }
        }
        assert(a =~= b);
    }
}

/// The asset order of the series is unique.
pub proof fn lemma_asset_order_unique(ids: Seq<u128>, series: Seq<TimeSeries>)
    requires
        is_asset_order(ids, series),
    ensures
        asset_order(series) == ids,
{
    let p = |x: Seq<u128>| is_asset_order(x, series);
    assert(p(ids));
    let c = asset_order(series);
    assert(c == some_ids(p));
    assert(p(c));
    lemma_ids_unique(c, ids);
}

/// An asset has a series exactly where some series carries its id.
pub proof fn lemma_series_of_some(series: Seq<TimeSeries>, id: u128)
    ensures
        series_of(series, id) is Some <==> exists|k: int| 0 <= k < series.len() && #[trigger] series[k].asset_id == id,
{
    let keys = series.map_values(|s: TimeSeries| s.asset_id);
    lemma_first_index_from(keys, id, 0);
    if exists|k: int| 0 <= k < series.len() && #[trigger] series[k].asset_id == id {
        let k = choose|k: int| 0 <= k < series.len() && #[trigger] series[k].asset_id == id;
        assert(keys[k] == id);
    }
}

/// Inserts `x` into a strictly increasing vector, unless it is there.
fn insert_id(v: &mut Vec<u128>, x: u128)
    requires
        ids_increasing(old(v)@),
    ensures
        ids_increasing(final(v)@),
        forall|y: u128| final(v)@.contains(y) <==> (old(v)@.contains(y) || y == x),
{
    let mut k: usize = 0;
    while k < v.len() && v[k] < x
        invariant
            0 <= k <= v@.len(),
            v@ == old(v)@,
            forall|i: int| 0 <= i < k ==> v@[i] < x,
        decreases v.len() - k,
    {
        k = k + 1;
    }
    if k < v.len() && v[k] == x {
        assert(v@.contains(x));
        return;
    }
    let ghost before = v@;
    v.insert(k, x);
    proof {
        before.insert_ensures(k as int, x);
        assert forall|i: int| k <= i < before.len() implies x < before[i] by {
            if i > k {
                assert(before[k as int] < before[i]);
            }
        }
        assert forall|i: int, j: int| 0 <= i < j < v@.len() implies v@[i] < v@[j] by {
            if j < k {
            } else if j == k {
            } else if i < k {
                assert(v@[j] == before[j - 1]);
            } else if i == k {
                assert(v@[j] == before[j - 1]);
            } else {
                assert(v@[j] == before[j - 1]);
                assert(v@[i] == before[i - 1]);
            }
        }
        assert forall|y: u128| v@.contains(y) <==> (before.contains(y) || y == x) by {
            if v@.contains(y) {
                let m = choose|m: int| 0 <= m < v@.len() && v@[m] == y;
                if m < k {
                    assert(before[m] == y);
                } else if m > k {
                    assert(before[m - 1] == y);
                }
            }
            if before.contains(y) {
                let m = choose|m: int| 0 <= m < before.len() && before[m] == y;
                if m < k {
                    assert(v@[m] == y);
                } else {
                    assert(v@[m + 1] == y);
                }
            }
            if y == x {
                assert(v@[k as int] == x);
            }
        }
    }
}

/// The assets of the series by increasing id.
pub fn asset_ids(series: &Vec<TimeSeries>) -> (r: Vec<u128>)
    ensures
        r@ == asset_order(series@),
{
    let mut out: Vec<u128> = Vec::new();
    let mut i: usize = 0;
    while i < series.len()
        invariant
            0 <= i <= series@.len(),
            ids_increasing(out@),
            forall|id: u128|
                out@.contains(id) <==> exists|k: int| 0 <= k < i && #[trigger] series@[k].asset_id == id,
        decreases series.len() - i,
    {
        let id: u128 = series[i].asset_id;
        insert_id(&mut out, id);
        proof {
            assert forall|y: u128|
                out@.contains(y) <==> exists|k: int| 0 <= k < i + 1 && #[trigger] series@[k].asset_id == y by {
                if y == id {
                    assert(series@[i as int].asset_id == y);
                }
            }
        }
        i = i + 1;
    }
    proof {
        assert forall|id: u128| out@.contains(id) <==> series_of(series@, id) is Some by {
            lemma_series_of_some(series@, id);
        }
        lemma_asset_order_unique(out@, series@);
    }
    out
}

} // verus!
