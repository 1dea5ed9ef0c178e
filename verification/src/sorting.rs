//! Stable sorting by an integer key.

use vstd::prelude::*;

verus! {

/// `a` may come before `b` in the requested order.
pub open spec fn key_le(a: i64, b: i64, desc: bool) -> bool {
    if desc { a >= b } else { a <= b }
}

/// `out` (with keys `okeys`) is `inp` (with keys `ikeys`) rearranged by `idx`:
/// ordered by key, and items with equal keys keep their relative order.
pub open spec fn stable_arrangement<T>(
    inp: Seq<T>,
    ikeys: Seq<i64>,
    out: Seq<T>,
    okeys: Seq<i64>,
    desc: bool,
    idx: Seq<int>,
) -> bool {
    &&& idx.len() == out.len() && out.len() == inp.len() && okeys.len() == out.len()
    &&& forall|i: int| 0 <= i < idx.len() ==> 0 <= #[trigger] idx[i] < inp.len() && out[i] == inp[idx[i]] && okeys[i] == ikeys[idx[i]]
    &&& forall|i: int, j: int| #![trigger idx[i], idx[j]] 0 <= i < j < idx.len() ==> idx[i] != idx[j]
    &&& forall|i: int, j: int| #![trigger okeys[i], okeys[j]] 0 <= i < j < okeys.len() ==> key_le(okeys[i], okeys[j], desc)
    &&& forall|i: int, j: int| #![trigger idx[i], idx[j]] 0 <= i < j < idx.len() && okeys[i] == okeys[j] ==> idx[i] < idx[j]
}

/// `out` is the stable sort of `inp` by `ikeys`.
pub open spec fn is_stable_sort<T>(inp: Seq<T>, ikeys: Seq<i64>, out: Seq<T>, okeys: Seq<i64>, desc: bool) -> bool {
    exists|idx: Seq<int>| stable_arrangement(inp, ikeys, out, okeys, desc, idx)
}

fn in_order(a: i64, b: i64, desc: bool) -> (out: bool)
    ensures
        out == key_le(a, b, desc),
{
    if desc { a >= b } else { a <= b }
}

/// Stable insertion sort of `items` by `keys` (ascending, or descending when
/// `desc`), as `slice::sort_by` does.
pub fn stable_sort_by_key<T>(items: Vec<T>, keys: Vec<i64>, desc: bool) -> (out: (Vec<T>, Vec<i64>))
    requires
        items@.len() == keys@.len(),
    ensures
        is_stable_sort(items@, keys@, out.0@, out.1@, desc),
{
    let ghost inp = items@;
    let ghost ik = keys@;
    let len = items.len();
    let mut items = items;
    let mut keys = keys;
    let mut out: Vec<T> = Vec::new();
    let mut ok: Vec<i64> = Vec::new();
    let ghost mut idx: Seq<int> = Seq::empty();
    let mut n: usize = 0;
    while items.len() > 0
        invariant
            items@.len() == keys@.len(),
            n + items@.len() == inp.len(),
            inp.len() == ik.len(),
            inp.len() == len,
            forall|k: int| 0 <= k < items@.len() ==> #[trigger] items@[k] == inp[n + k],
            forall|k: int| 0 <= k < keys@.len() ==> #[trigger] keys@[k] == ik[n + k],
            idx.len() == out@.len() && out@.len() == n && ok@.len() == n,
            forall|i: int| 0 <= i < idx.len() ==> 0 <= #[trigger] idx[i] < n && out@[i] == inp[idx[i]] && ok@[i] == ik[idx[i]],
            forall|i: int, j: int| #![trigger idx[i], idx[j]] 0 <= i < j < idx.len() ==> idx[i] != idx[j],
            forall|i: int, j: int| #![trigger ok@[i], ok@[j]] 0 <= i < j < ok@.len() ==> key_le(ok@[i], ok@[j], desc),
            forall|i: int, j: int| #![trigger idx[i], idx[j]] 0 <= i < j < idx.len() && ok@[i] == ok@[j] ==> idx[i] < idx[j],
        decreases items@.len(),
    {
        let ghost items_before = items@;
        let ghost keys_before = keys@;
        let x = items.remove(0);
        let k = keys.remove(0);
        let mut p: usize = ok.len();
        while p > 0 && !in_order(ok[p - 1], k, desc)
            invariant
                p <= ok@.len(),
                forall|m: int| p <= m < ok@.len() ==> !key_le(#[trigger] ok@[m], k, desc),
            decreases p,
        {
            p = p - 1;
        }
        proof {
            items_before.remove_ensures(0);
            keys_before.remove_ensures(0);
            assert(x == inp[n as int]);
            assert(k == ik[n as int]);
            assert forall|m: int| 0 <= m < items@.len() implies #[trigger] items@[m] == inp[n + 1 + m] by {
                assert(items@[m] == items_before[m + 1]);
            }
            assert forall|m: int| 0 <= m < keys@.len() implies #[trigger] keys@[m] == ik[n + 1 + m] by {
                assert(keys@[m] == keys_before[m + 1]);
            }
        }
        let ghost out_before = out@;
        let ghost ok_before = ok@;
        let ghost idx_before = idx;
        out.insert(p, x);
        ok.insert(p, k);
        proof {
            idx = idx_before.insert(p as int, n as int);
            idx_before.insert_ensures(p as int, n as int);
            out_before.insert_ensures(p as int, x);
            ok_before.insert_ensures(p as int, k);
            assert forall|i: int| 0 <= i < idx.len() implies 0 <= #[trigger] idx[i] < n + 1 && out@[i] == inp[idx[i]] && ok@[i] == ik[idx[i]] by {
                if i < p {
                    assert(idx[i] == idx_before[i]);
                } else if i > p {
                    assert(idx[i] == idx_before[i - 1]);
                }
            }
            assert forall|i: int, j: int| #![trigger idx[i], idx[j]] 0 <= i < j < idx.len() implies idx[i] != idx[j] by {
                if i < p && j < p {
                    assert(idx_before[i] != idx_before[j]);
                } else if i < p && j > p {
                    assert(idx_before[i] != idx_before[j - 1]);
                } else if i > p && j > p {
                    assert(idx_before[i - 1] != idx_before[j - 1]);
                } else if i == p {
                    assert(idx[j] == idx_before[j - 1]);
                } else {
                    assert(idx[i] == idx_before[i]);
                }
            }
            assert forall|i: int, j: int| #![trigger ok@[i], ok@[j]] 0 <= i < j < ok@.len() implies key_le(ok@[i], ok@[j], desc) by {
                if j < p {
                    assert(key_le(ok_before[i], ok_before[j], desc));
                } else if j == p {
                    if i < p {
                        assert(key_le(ok_before[i], ok_before[p - 1], desc));
                    }
                } else if i < p {
                    assert(ok@[j] == ok_before[j - 1]);
                    assert(key_le(ok_before[i], ok_before[j - 1], desc));
                } else if i == p {
                    assert(ok@[j] == ok_before[j - 1]);
                    assert(!key_le(ok_before[j - 1], k, desc));
                } else {
                    assert(key_le(ok_before[i - 1], ok_before[j - 1], desc));
                }
            }
            assert forall|i: int, j: int| #![trigger idx[i], idx[j]] 0 <= i < j < idx.len() && ok@[i] == ok@[j] implies idx[i] < idx[j] by {
                if i < p && j < p {
                    assert(idx_before[i] < idx_before[j]);
                } else if i < p && j > p {
                    assert(ok@[j] == ok_before[j - 1]);
                    assert(idx_before[i] < idx_before[j - 1]);
                } else if i > p && j > p {
                    assert(idx_before[i - 1] < idx_before[j - 1]);
                } else if i == p {
                    assert(ok@[j] == ok_before[j - 1]);
                    assert(!key_le(ok_before[j - 1], k, desc));
                } else {
                    assert(idx[i] == idx_before[i]);
                }
            }
        }
        n = n + 1;
    }
    proof {
        assert(stable_arrangement(inp, ik, out@, ok@, desc, idx));
    }
    (out, ok)
}

} // verus!
