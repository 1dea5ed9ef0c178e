//! Half-open time intervals and the presence ledger arithmetic.

use vstd::prelude::*;

verus! {

broadcast use vstd::seq_lib::group_to_multiset_ensures;

/// Half-open interval `[start, end)` in unix epoch seconds.
pub type Iv = (i64, i64);

/// `x` lies inside the half-open interval `iv`.
pub open spec fn in_iv(iv: Iv, x: int) -> bool {
    iv.0 <= x && x < iv.1
}

/// Some interval of `v` contains the instant `x`.
pub open spec fn covers(v: Seq<Iv>, x: int) -> bool {
    exists|i: int| 0 <= i < v.len() && #[trigger] in_iv(v[i], x)
}

/// Every interval is non-empty and each one ends strictly before the next starts.
pub open spec fn sorted_disjoint(v: Seq<Iv>) -> bool {
    &&& forall|i: int| 0 <= i < v.len() ==> #[trigger] v[i].0 < v[i].1
    &&& forall|i: int, j: int| #![trigger v[i], v[j]] 0 <= i < j < v.len() ==> v[i].1 < v[j].0
}

pub open spec fn sorted_by_start(v: Seq<Iv>) -> bool {
    forall|i: int, j: int| #![trigger v[i], v[j]] 0 <= i < j < v.len() ==> v[i].0 <= v[j].0
}

proof fn lemma_covers_of_contains(a: Seq<Iv>, b: Seq<Iv>, x: int)
    requires
        forall|iv: Iv| a.contains(iv) ==> b.contains(iv),
        covers(a, x),
    ensures
        covers(b, x),
{
    let i = choose|i: int| 0 <= i < a.len() && #[trigger] in_iv(a[i], x);
    assert(a.contains(a[i]));
    let j = choose|j: int| 0 <= j < b.len() && b[j] == a[i];
    assert(in_iv(b[j], x));
}

/// Stable insertion sort by start instant.
fn sort_by_start(v: Vec<Iv>) -> (out: Vec<Iv>)
    ensures
        sorted_by_start(out@),
        out@.to_multiset() == v@.to_multiset(),
{
    let mut out: Vec<Iv> = Vec::new();
    let mut i: usize = 0;
    while i < v.len()
        invariant
            i <= v.len(),
            sorted_by_start(out@),
            out@.to_multiset() == v@.take(i as int).to_multiset(),
        decreases v.len() - i,
    {
        let x = v[i];
        let mut p: usize = out.len();
        while p > 0 && out[p - 1].0 > x.0
            invariant
                p <= out.len(),
                sorted_by_start(out@),
                forall|k: int| p <= k < out.len() ==> #[trigger] out@[k].0 > x.0,
            decreases p,
        {
            p = p - 1;
        }
        proof {
            assert(p > 0 ==> out@[p - 1].0 <= x.0);
        }
        let ghost before = out@;
        out.insert(p, x);
        proof {
            before.insert_ensures(p as int, x);
            assert forall|a: int, b: int| #![trigger out@[a], out@[b]]
                0 <= a < b < out@.len() implies out@[a].0 <= out@[b].0 by {
                if b < p {
                } else if b == p {
                    if a < p {
                        assert(before[a].0 <= before[p - 1].0);
                    }
                } else if a < p {
                    assert(out@[b] == before[b - 1]);
                    if (b - 1) > a {
                    }
                } else if a == p {
                    assert(out@[b] == before[b - 1]);
                } else {
                    assert(out@[a] == before[a - 1]);
                    assert(out@[b] == before[b - 1]);
                }
            }
            assert(v@.take(i + 1) =~= v@.take(i as int).push(x));
        }
        i = i + 1;
    }
    proof {
        assert(v@.take(v.len() as int) =~= v@);
    }
    out
}


proof fn lemma_multiset_contains(a: Seq<Iv>, b: Seq<Iv>, iv: Iv)
    requires
        a.to_multiset() == b.to_multiset(),
        a.contains(iv),
    ensures
        b.contains(iv),
{
    vstd::seq_lib::to_multiset_contains(a, iv);
    vstd::seq_lib::to_multiset_contains(b, iv);
}

/// Keep only the non-empty intervals, in order.
fn retain_nonempty(v: Vec<Iv>) -> (out: Vec<Iv>)
    ensures
        forall|k: int| 0 <= k < out@.len() ==> #[trigger] out@[k].0 < out@[k].1,
        forall|x: int| #[trigger] covers(out@, x) <==> covers(v@, x),
        forall|iv: Iv| out@.contains(iv) ==> v@.contains(iv),
{
    let mut out: Vec<Iv> = Vec::new();
    let mut i: usize = 0;
    while i < v.len()
        invariant
            i <= v.len(),
            forall|k: int| 0 <= k < out@.len() ==> #[trigger] out@[k].0 < out@[k].1,
            forall|x: int| #[trigger] covers(out@, x) <==> covers(v@.take(i as int), x),
            forall|iv: Iv| out@.contains(iv) ==> v@.take(i as int).contains(iv),
        decreases v.len() - i,
    {
        let x = v[i];
        let ghost before = out@;
        let ghost pre = v@.take(i as int);
        if x.1 > x.0 {
            out.push(x);
        }
        proof {
            let post = v@.take(i + 1);
            assert(post =~= pre.push(x));
            assert forall|y: int| covers(out@, y) <==> covers(post, y) by {
                if covers(out@, y) {
                    let k = choose|k: int| 0 <= k < out@.len() && #[trigger] in_iv(out@[k], y);
                    if k < before.len() {
                        assert(in_iv(before[k], y));
                        assert(covers(before, y));
                        assert(covers(pre, y));
                        let j = choose|j: int| 0 <= j < pre.len() && #[trigger] in_iv(pre[j], y);
                        assert(in_iv(post[j], y));
                    } else {
                        assert(in_iv(post[i as int], y));
                    }
                }
                if covers(post, y) {
                    let j = choose|j: int| 0 <= j < post.len() && #[trigger] in_iv(post[j], y);
                    if j < i {
                        assert(in_iv(pre[j], y));
                        assert(covers(pre, y));
                        assert(covers(before, y));
                        let k = choose|k: int| 0 <= k < before.len() && #[trigger] in_iv(before[k], y);
                        assert(in_iv(out@[k], y));
                    } else {
                        assert(in_iv(out@[out@.len() - 1], y));
                    }
                }
            }
            assert forall|iv: Iv| out@.contains(iv) implies post.contains(iv) by {
                let k = choose|k: int| 0 <= k < out@.len() && out@[k] == iv;
                if k < before.len() {
                    assert(before.contains(iv));
                    let j = choose|j: int| 0 <= j < pre.len() && pre[j] == iv;
                    assert(post[j] == iv);
                } else {
                    assert(post[i as int] == iv);
                }
            }
        }
        i = i + 1;
    }
    proof {
        assert(v@.take(v.len() as int) =~= v@);
    }
    out
}

/// The instants covered by the tail of a sorted, disjoint list are those of the
/// whole list at or after the end of its first interval.
proof fn lemma_covers_drop_first(v: Seq<Iv>, x: int)
    requires
        sorted_disjoint(v),
        v.len() > 0,
    ensures
        covers(v.drop_first(), x) <==> (covers(v, x) && x >= v[0].1),
{
    let t = v.drop_first();
    if covers(t, x) {
        let i = choose|i: int| 0 <= i < t.len() && #[trigger] in_iv(t[i], x);
        assert(t[i] == v[i + 1]);
        assert(in_iv(v[i + 1], x));
        assert(v[0].1 < v[i + 1].0);
    }
    if covers(v, x) && x >= v[0].1 {
        let i = choose|i: int| 0 <= i < v.len() && #[trigger] in_iv(v[i], x);
        assert(i != 0);
        assert(t[i - 1] == v[i]);
        assert(in_iv(t[i - 1], x));
    }
}

/// A set of instants has one sorted, disjoint form: two sorted, disjoint lists
/// (no two intervals touching) that cover the same instants are equal.
pub proof fn law_sorted_disjoint_form_is_unique(v: Seq<Iv>, w: Seq<Iv>)
    requires
        sorted_disjoint(v),
        sorted_disjoint(w),
        forall|x: int| #[trigger] covers(v, x) <==> covers(w, x),
    ensures
        v == w,
    decreases v.len(),
{
    if v.len() == 0 {
        if w.len() > 0 {
            assert(in_iv(w[0], w[0].0 as int));
            assert(covers(w, w[0].0 as int));
            assert(!covers(v, w[0].0 as int));
        }
        assert(v =~= w);
    } else if w.len() == 0 {
        assert(in_iv(v[0], v[0].0 as int));
        assert(covers(v, v[0].0 as int));
    } else {
        let a = v[0].0 as int;
        let b = v[0].1 as int;
        let a2 = w[0].0 as int;
        let b2 = w[0].1 as int;
        // the first instants agree
        assert(in_iv(v[0], a));
        assert(covers(v, a));
        let j = choose|j: int| 0 <= j < w.len() && #[trigger] in_iv(w[j], a);
        if j > 0 {
            assert(w[0].1 < w[j].0);
        }
        assert(in_iv(w[0], a2));
        assert(covers(w, a2));
        assert(covers(v, a2));
        let i = choose|i: int| 0 <= i < v.len() && #[trigger] in_iv(v[i], a2);
        if i > 0 {
            assert(v[0].1 < v[i].0);
        }
        assert(a == a2);
        // so do the ends of the first intervals
        if b2 < b {
            assert(in_iv(v[0], b2));
            assert(covers(v, b2));
            let m = choose|m: int| 0 <= m < w.len() && #[trigger] in_iv(w[m], b2);
            if m > 0 {
                assert(w[0].1 < w[m].0);
            }
        }
        if b < b2 {
            assert(in_iv(w[0], b));
            assert(covers(w, b));
            assert(covers(v, b));
            let m = choose|m: int| 0 <= m < v.len() && #[trigger] in_iv(v[m], b);
            if m > 0 {
                assert(v[0].1 < v[m].0);
            }
        }
        assert(b == b2);
        assert(v[0] == w[0]);
        let vt = v.drop_first();
        let wt = w.drop_first();
        assert forall|x: int| #[trigger] covers(vt, x) <==> covers(wt, x) by {
            lemma_covers_drop_first(v, x);
            lemma_covers_drop_first(w, x);
        }
        assert(sorted_disjoint(vt)) by {
            assert forall|p: int, q: int| #![trigger vt[p], vt[q]] 0 <= p < q < vt.len() implies vt[p].1 < vt[q].0 by {
                assert(vt[p] == v[p + 1] && vt[q] == v[q + 1]);
            }
            assert forall|p: int| 0 <= p < vt.len() implies #[trigger] vt[p].0 < vt[p].1 by {
                assert(vt[p] == v[p + 1]);
            }
        }
        assert(sorted_disjoint(wt)) by {
            assert forall|p: int, q: int| #![trigger wt[p], wt[q]] 0 <= p < q < wt.len() implies wt[p].1 < wt[q].0 by {
                assert(wt[p] == w[p + 1] && wt[q] == w[q + 1]);
            }
            assert forall|p: int| 0 <= p < wt.len() implies #[trigger] wt[p].0 < wt[p].1 by {
                assert(wt[p] == w[p + 1]);
            }
        }
        law_sorted_disjoint_form_is_unique(vt, wt);
        assert(v =~= seq![v[0]] + vt);
        assert(w =~= seq![w[0]] + wt);
    }
}

/// Merging a merged list gives it back: the result of a merge is the one
/// sorted, disjoint form of the instants it covers.
pub proof fn law_merge_is_idempotent(v: Seq<Iv>, out: Seq<Iv>)
    requires
        sorted_disjoint(v),
        sorted_disjoint(out),
        forall|x: int| #[trigger] covers(out, x) <==> covers(v, x),
    ensures
        out == v,
{
    law_sorted_disjoint_form_is_unique(out, v);
}

/// Merge overlapping or adjacent intervals into a disjoint, sorted set that
/// covers exactly the same instants. A list already in that form comes back
/// unchanged.
pub fn merge_iv(v: Vec<Iv>) -> (out: Vec<Iv>)
    ensures
        sorted_disjoint(out@),
        forall|x: int| #[trigger] covers(out@, x) <==> covers(v@, x),
        sorted_disjoint(v@) ==> out@ == v@,
{
    let ghost input = v@;
    let kept = retain_nonempty(v);
    let s = sort_by_start(kept);
    proof {
        assert forall|x: int| covers(s@, x) <==> covers(kept@, x) by {
            assert forall|iv: Iv| s@.contains(iv) implies kept@.contains(iv) by {
                lemma_multiset_contains(s@, kept@, iv);
            }
            assert forall|iv: Iv| kept@.contains(iv) implies s@.contains(iv) by {
                lemma_multiset_contains(kept@, s@, iv);
            }
            if covers(s@, x) {
                lemma_covers_of_contains(s@, kept@, x);
            }
            if covers(kept@, x) {
                lemma_covers_of_contains(kept@, s@, x);
            }
        }
        assert forall|k: int| 0 <= k < s@.len() implies #[trigger] s@[k].0 < s@[k].1 by {
            assert(s@.contains(s@[k]));
            lemma_multiset_contains(s@, kept@, s@[k]);
            let j = choose|j: int| 0 <= j < kept@.len() && kept@[j] == s@[k];
            assert(kept@[j].0 < kept@[j].1);
        }
    }
    let mut out: Vec<Iv> = Vec::new();
    let mut i: usize = 0;
    while i < s.len()
        invariant
            i <= s.len(),
            sorted_by_start(s@),
            forall|k: int| 0 <= k < s@.len() ==> #[trigger] s@[k].0 < s@[k].1,
            sorted_disjoint(out@),
            out@.len() == 0 <==> i == 0,
            i > 0 ==> out@[out@.len() - 1].0 <= s@[i - 1].0,
            forall|x: int| #[trigger] covers(out@, x) <==> covers(s@.take(i as int), x),
        decreases s.len() - i,
    {
        let (a, b) = s[i];
        let ghost before = out@;
        let ghost pre = s@.take(i as int);
        let ghost post = s@.take(i + 1);
        proof {
            assert(post =~= pre.push((a, b)));
        }
        let n = out.len();
        if n > 0 && a <= out[n - 1].1 {
            let (l0, l1) = out[n - 1];
            let hi = if l1 >= b { l1 } else { b };
            out.set(n - 1, (l0, hi));
            proof {
                assert(s@[i - 1].0 <= s@[i as int].0);
                assert forall|p: int, q: int| #![trigger out@[p], out@[q]]
                    0 <= p < q < out@.len() implies out@[p].1 < out@[q].0 by {
                    assert(before[p].1 < before[q].0);
                }
                assert forall|y: int| covers(out@, y) <==> covers(post, y) by {
                    if covers(out@, y) {
                        let k = choose|k: int| 0 <= k < out@.len() && #[trigger] in_iv(out@[k], y);
                        if k < n - 1 {
                            assert(in_iv(before[k], y));
                        } else if y < l1 {
                            assert(in_iv(before[n - 1], y));
                        } else {
                            assert(in_iv(post[i as int], y));
                        }
                        if k < n - 1 || y < l1 {
                            assert(covers(before, y));
                            assert(covers(pre, y));
                            let j = choose|j: int| 0 <= j < pre.len() && #[trigger] in_iv(pre[j], y);
                            assert(in_iv(post[j], y));
                        }
                    }
                    if covers(post, y) {
                        let j = choose|j: int| 0 <= j < post.len() && #[trigger] in_iv(post[j], y);
                        if j < i {
                            assert(in_iv(pre[j], y));
                            assert(covers(pre, y));
                            assert(covers(before, y));
                            let k = choose|k: int| 0 <= k < before.len() && #[trigger] in_iv(before[k], y);
                            if k < n - 1 {
                                assert(in_iv(out@[k], y));
                            } else {
                                assert(in_iv(out@[n - 1], y));
                            }
                        } else {
                            assert(in_iv(out@[n - 1], y));
                        }
                    }
                }
            }
        } else {
            out.push((a, b));
            proof {
                if n > 0 {
                    assert(s@[i - 1].0 <= s@[i as int].0);
                }
                assert forall|p: int, q: int| #![trigger out@[p], out@[q]]
                    0 <= p < q < out@.len() implies out@[p].1 < out@[q].0 by {
                    if q < n {
                        assert(before[p].1 < before[q].0);
                    } else if p < n - 1 {
                        assert(before[p].1 < before[n - 1].0);
                    }
                }
                assert forall|y: int| covers(out@, y) <==> covers(post, y) by {
                    if covers(out@, y) {
                        let k = choose|k: int| 0 <= k < out@.len() && #[trigger] in_iv(out@[k], y);
                        if k < n {
                            assert(in_iv(before[k], y));
                            assert(covers(before, y));
                            assert(covers(pre, y));
                            let j = choose|j: int| 0 <= j < pre.len() && #[trigger] in_iv(pre[j], y);
                            assert(in_iv(post[j], y));
                        } else {
                            assert(in_iv(post[i as int], y));
                        }
                    }
                    if covers(post, y) {
                        let j = choose|j: int| 0 <= j < post.len() && #[trigger] in_iv(post[j], y);
                        if j < i {
                            assert(in_iv(pre[j], y));
                            assert(covers(pre, y));
                            assert(covers(before, y));
                            let k = choose|k: int| 0 <= k < before.len() && #[trigger] in_iv(before[k], y);
                            assert(in_iv(out@[k], y));
                        } else {
                            assert(in_iv(out@[n as int], y));
                        }
                    }
                }
            }
        }
        i = i + 1;
    }
    proof {
        assert(s@.take(s.len() as int) =~= s@);
    }
    proof {
        if sorted_disjoint(input) {
            law_merge_is_idempotent(input, out@);
        }
    }
    out
}


proof fn lemma_covers_push(v: Seq<Iv>, iv: Iv, x: int)
    ensures
        covers(v.push(iv), x) <==> (covers(v, x) || in_iv(iv, x)),
{
    let w = v.push(iv);
    if covers(w, x) {
        let k = choose|k: int| 0 <= k < w.len() && #[trigger] in_iv(w[k], x);
        if k < v.len() {
            assert(in_iv(v[k], x));
        }
    }
    if covers(v, x) {
        let k = choose|k: int| 0 <= k < v.len() && #[trigger] in_iv(v[k], x);
        assert(in_iv(w[k], x));
    }
    if in_iv(iv, x) {
        assert(in_iv(w[v.len() as int], x));
    }
}

proof fn lemma_covers_take_step(v: Seq<Iv>, i: int, x: int)
    requires
        0 <= i < v.len(),
    ensures
        covers(v.take(i + 1), x) <==> (covers(v.take(i), x) || in_iv(v[i], x)),
{
    assert(v.take(i + 1) =~= v.take(i).push(v[i]));
    lemma_covers_push(v.take(i), v[i], x);
}

/// `whole` minus every interval in `holes`: exactly the instants covered by
/// `whole` and by no hole, as a disjoint, sorted set.
pub fn subtract_iv(whole: Vec<Iv>, holes: &[Iv]) -> (out: Vec<Iv>)
    ensures
        sorted_disjoint(out@),
        forall|x: int| #[trigger] covers(out@, x) <==> (covers(whole@, x) && !covers(holes@, x)),
{
    let hv = vstd::slice::slice_to_vec(holes);
    let h = merge_iv(hv);
    let w = merge_iv(whole);
    let mut out: Vec<Iv> = Vec::new();
    let mut wi: usize = 0;
    while wi < w.len()
        invariant
            wi <= w.len(),
            sorted_disjoint(w@),
            sorted_disjoint(h@),
            sorted_disjoint(out@),
            out@.len() > 0 ==> wi > 0 && out@[out@.len() - 1].1 <= w@[wi - 1].1,
            forall|x: int| #[trigger] covers(out@, x) <==> (covers(w@.take(wi as int), x) && !covers(h@, x)),
        decreases w.len() - wi,
    {
        let (s0, e) = w[wi];
        let mut s = s0;
        let mut j: usize = 0;
        let ghost base = out@;
        proof {
            if wi > 0 {
                assert(w@[wi - 1].1 < w@[wi as int].0);
            }
        }
        while j < h.len() && s < e
            invariant
                j <= h.len(),
                wi < w.len(),
                w@[wi as int] == (s0, e),
                s0 <= s,
                sorted_disjoint(w@),
                sorted_disjoint(h@),
                sorted_disjoint(out@),
                out@.len() >= base.len(),
                out@.len() > 0 ==> out@[out@.len() - 1].1 < s && out@[out@.len() - 1].1 <= e,
                forall|k: int| 0 <= k < j ==> (#[trigger] h@[k]).1 <= s || h@[k].0 >= e,
                forall|x: int| #[trigger] covers(out@, x) <==> (covers(base, x) || (s0 <= x < s && x < e && !covers(h@, x))),
                forall|x: int| #[trigger] covers(base, x) <==> (covers(w@.take(wi as int), x) && !covers(h@, x)),
            decreases h.len() - j, e - s,
        {
            let (hs, he) = h[j];
            if he <= s || hs >= e {
                j = j + 1;
            } else {
                let ghost before = out@;
                let ghost s_old = s;
                if hs > s {
                    out.push((s, hs));
                }
                s = if s >= he { s } else { he };
                proof {
                    assert(he > s_old);
                    assert(s == he);
                    assert forall|p: int, q: int| #![trigger out@[p], out@[q]]
                        0 <= p < q < out@.len() implies out@[p].1 < out@[q].0 by {
                        if q < before.len() {
                            assert(before[p].1 < before[q].0);
                        } else if p < before.len() - 1 {
                            assert(before[p].1 < before[before.len() - 1].0);
                        }
                    }
                    assert forall|x: int| #[trigger] covers(out@, x) <==> (covers(base, x) || (s0 <= x < s && x < e && !covers(h@, x))) by {
                        assert(covers(before, x) <==> (covers(base, x) || (s0 <= x < s_old && x < e && !covers(h@, x))));
                        if hs > s_old {
                            lemma_covers_push(before, (s_old, hs), x);
                            assert(covers(out@, x) <==> (covers(before, x) || in_iv((s_old, hs), x)));
                        } else {
                            assert(out@ == before);
                        }
                        if s_old <= x < s && x < e {
                            if x < hs {
                                if covers(h@, x) {
                                    let k = choose|k: int| 0 <= k < h@.len() && #[trigger] in_iv(h@[k], x);
                                    if k < j {
                                        assert(h@[k].1 <= s_old || h@[k].0 >= e);
                                    } else if k > j {
                                        assert(h@[j as int].1 < h@[k].0);
                                    }
                                    assert(false);
                                }
                                assert(in_iv((s_old, hs), x));
                            } else {
                                assert(in_iv(h@[j as int], x));
                                assert(covers(h@, x));
                            }
                        }
                    }
                    assert forall|k: int| 0 <= k < j + 1 implies (#[trigger] h@[k]).1 <= s || h@[k].0 >= e by {
                        if k < j {
                            if h@[k].0 < e {
                                assert(h@[k].1 <= s_old);
                            }
                        }
                    }
                }
                j = j + 1;
            }
        }
        if s < e {
            let ghost before = out@;
            out.push((s, e));
            proof {
                assert(j == h.len());
                assert forall|p: int, q: int| #![trigger out@[p], out@[q]]
                    0 <= p < q < out@.len() implies out@[p].1 < out@[q].0 by {
                    if q < before.len() {
                        assert(before[p].1 < before[q].0);
                    } else if p < before.len() - 1 {
                        assert(before[p].1 < before[before.len() - 1].0);
                    }
                }
                assert forall|x: int| #[trigger] covers(out@, x) <==> (covers(base, x) || (s0 <= x < e && !covers(h@, x))) by {
                    lemma_covers_push(before, (s, e), x);
                    if s <= x < e && covers(h@, x) {
                        let k = choose|k: int| 0 <= k < h@.len() && #[trigger] in_iv(h@[k], x);
                        assert(h@[k].1 <= s || h@[k].0 >= e);
                    }
                }
            }
        }
        proof {
            assert forall|x: int| #[trigger] covers(out@, x) <==> (covers(w@.take(wi + 1), x) && !covers(h@, x)) by {
                lemma_covers_take_step(w@, wi as int, x);
                assert(covers(out@, x) <==> (covers(base, x) || (s0 <= x < e && !covers(h@, x))));
            }
        }
        wi = wi + 1;
    }
    proof {
        assert(w@.take(w.len() as int) =~= w@);
    }
    out
}


/// An instant of the window `[w0, w1)` at which nobody was present.
pub open spec fn free_at(w0: int, w1: int, present: Seq<Iv>, x: int) -> bool {
    w0 <= x && x < w1 && !covers(present, x)
}

/// `x` lies in a maximal run of free instants that is shorter than `min` seconds.
pub open spec fn in_short_gap(w0: int, w1: int, present: Seq<Iv>, min: int, x: int) -> bool {
    exists|a: int, b: int|
        #![trigger free_at(w0, w1, present, a - 1), free_at(w0, w1, present, b)]
        a <= x < b && b - a < min && !free_at(w0, w1, present, a - 1)
            && !free_at(w0, w1, present, b)
            && (forall|y: int| a <= y < b ==> #[trigger] free_at(w0, w1, present, y))
}

/// The shortest away span that is worth recording: sub-minute blips between
/// focus switches are ignored.
pub const MIN_AWAY_SECS: i64 = 60;

/// The away rows of the window `[w0, w1)`: the exact complement of present time
/// (work segments and active focus spans), without the sub-minute gaps. Away
/// never overlaps present time, every instant of the window is present, away,
/// or inside a gap shorter than a minute, and each row is a whole free run.
pub fn away_rows(w0: i64, w1: i64, present: Vec<Iv>) -> (out: Vec<Iv>)
    ensures
        sorted_disjoint(out@),
        forall|k: int| 0 <= k < out@.len() ==> #[trigger] out@[k].1 - out@[k].0 >= MIN_AWAY_SECS,
        forall|x: int| #[trigger] covers(out@, x) ==> free_at(w0 as int, w1 as int, present@, x),
        forall|x: int|
            #![trigger free_at(w0 as int, w1 as int, present@, x)]
            free_at(w0 as int, w1 as int, present@, x) && !covers(out@, x) ==> in_short_gap(
                w0 as int,
                w1 as int,
                present@,
                MIN_AWAY_SECS as int,
                x,
            ),
        forall|k: int| 0 <= k < out@.len() ==> !free_at(w0 as int, w1 as int, present@, #[trigger] out@[k].0 - 1)
            && !free_at(w0 as int, w1 as int, present@, out@[k].1 as int),
{
    let ghost pres = present@;
    let mut whole: Vec<Iv> = Vec::new();
    whole.push((w0, w1));
    let gaps = subtract_iv(whole, present.as_slice());
    proof {
        assert forall|x: int| covers(whole@, x) <==> (w0 <= x < w1) by {
            if w0 <= x < w1 {
                assert(in_iv(whole@[0], x));
            }
        }
    }
    let mut out: Vec<Iv> = Vec::new();
    let mut i: usize = 0;
    while i < gaps.len()
        invariant
            i <= gaps.len(),
            sorted_disjoint(gaps@),
            forall|x: int| #[trigger] covers(gaps@, x) <==> free_at(w0 as int, w1 as int, pres, x),
            sorted_disjoint(out@),
            out@.len() > 0 ==> i > 0 && out@[out@.len() - 1].1 <= gaps@[i - 1].1,
            forall|k: int| 0 <= k < out@.len() ==> #[trigger] out@[k].1 - out@[k].0 >= MIN_AWAY_SECS,
            forall|x: int|
                #[trigger] covers(out@, x) <==> (covers(gaps@.take(i as int), x) && exists|k: int|
                    0 <= k < i && #[trigger] in_iv(gaps@[k], x) && gaps@[k].1 - gaps@[k].0 >= MIN_AWAY_SECS),
        decreases gaps.len() - i,
    {
        let (a, b) = gaps[i];
        let ghost before = out@;
        if (b as i128) - (a as i128) >= MIN_AWAY_SECS as i128 {
            out.push((a, b));
        }
        proof {
            if i > 0 {
                assert(gaps@[i - 1].1 < gaps@[i as int].0);
            }
            assert forall|p: int, q: int| #![trigger out@[p], out@[q]]
                0 <= p < q < out@.len() implies out@[p].1 < out@[q].0 by {
                if q < before.len() {
                    assert(before[p].1 < before[q].0);
                } else if p < before.len() - 1 {
                    assert(before[p].1 < before[before.len() - 1].0);
                }
            }
            assert forall|x: int|
                #[trigger] covers(out@, x) <==> (covers(gaps@.take(i + 1), x) && exists|k: int|
                    0 <= k < i + 1 && #[trigger] in_iv(gaps@[k], x) && gaps@[k].1 - gaps@[k].0 >= MIN_AWAY_SECS) by {
                lemma_covers_take_step(gaps@, i as int, x);
                assert(covers(before, x) <==> (covers(gaps@.take(i as int), x) && exists|k: int|
                    0 <= k < i && #[trigger] in_iv(gaps@[k], x) && gaps@[k].1 - gaps@[k].0 >= MIN_AWAY_SECS));
                if b - a >= MIN_AWAY_SECS {
                    lemma_covers_push(before, (a, b), x);
                }
                if in_iv(gaps@[i as int], x) {
                    assert(gaps@.take(i + 1)[i as int] == gaps@[i as int]);
                }
                if exists|k: int| 0 <= k < i + 1 && #[trigger] in_iv(gaps@[k], x) && gaps@[k].1 - gaps@[k].0 >= MIN_AWAY_SECS {
                    let k = choose|k: int| 0 <= k < i + 1 && #[trigger] in_iv(gaps@[k], x) && gaps@[k].1 - gaps@[k].0 >= MIN_AWAY_SECS;
                    assert(gaps@.take(i + 1)[k] == gaps@[k]);
                    assert(in_iv(gaps@.take(i + 1)[k], x));
                    if k < i {
                        assert(gaps@.take(i as int)[k] == gaps@[k]);
                        assert(in_iv(gaps@.take(i as int)[k], x));
                    }
                }
                if covers(gaps@.take(i as int), x) {
                    let k = choose|k: int| 0 <= k < i && #[trigger] in_iv(gaps@.take(i as int)[k], x);
                    assert(in_iv(gaps@[k], x));
                }
            }
        }
        i = i + 1;
    }
    proof {
        assert(gaps@.take(gaps.len() as int) =~= gaps@);
        assert forall|x: int| #[trigger] covers(out@, x) implies free_at(w0 as int, w1 as int, pres, x) by {
            assert(covers(gaps@, x));
        }
        assert forall|x: int|
            #![trigger free_at(w0 as int, w1 as int, pres, x)]
            free_at(w0 as int, w1 as int, pres, x) && !covers(out@, x) implies in_short_gap(
                w0 as int, w1 as int, pres, MIN_AWAY_SECS as int, x) by {
            assert(covers(gaps@, x));
            let k = choose|k: int| 0 <= k < gaps@.len() && #[trigger] in_iv(gaps@[k], x);
            let (a, b) = gaps@[k];
            if b - a >= MIN_AWAY_SECS {
                assert(covers(out@, x));
            }
            // the gap is maximal: its neighbours are not free
            if free_at(w0 as int, w1 as int, pres, a - 1) {
                assert(covers(gaps@, a - 1));
                let m = choose|m: int| 0 <= m < gaps@.len() && #[trigger] in_iv(gaps@[m], a - 1);
                if m < k {
                    assert(gaps@[m].1 < gaps@[k].0);
                } else if m > k {
                    assert(gaps@[k].1 < gaps@[m].0);
                }
            }
            if free_at(w0 as int, w1 as int, pres, b as int) {
                assert(covers(gaps@, b as int));
                let m = choose|m: int| 0 <= m < gaps@.len() && #[trigger] in_iv(gaps@[m], b as int);
                if m < k {
                    assert(gaps@[m].1 < gaps@[k].0);
                } else if m > k {
                    assert(gaps@[k].1 < gaps@[m].0);
                }
            }
            assert forall|y: int| a <= y < b implies #[trigger] free_at(w0 as int, w1 as int, pres, y) by {
                assert(in_iv(gaps@[k], y));
                assert(covers(gaps@, y));
            }
            assert(!free_at(w0 as int, w1 as int, pres, a - 1) && !free_at(w0 as int, w1 as int, pres, b as int));
        }
        lemma_rows_maximal(w0 as int, w1 as int, pres, out@);
    }
    out
}


/// A work segment `[start, end)` (epoch seconds) and the task it was tracked on.
pub type Seg = (i64, i64, i64);

/// A piece of a focus span `[start, end)` and the task it is credited to
/// (`None` = untracked).
pub type Piece = (i64, i64, Option<i64>);

/// The segment covers the instant `y`.
pub open spec fn in_seg(seg: Seg, y: int) -> bool {
    seg.0 <= y && y < seg.1
}

/// Some work segment covers the instant `y`.
pub open spec fn seg_covers(segs: Seq<Seg>, y: int) -> bool {
    exists|k: int| 0 <= k < segs.len() && #[trigger] in_seg(segs[k], y)
}

pub open spec fn segs_sorted(segs: Seq<Seg>) -> bool {
    forall|i: int, j: int| #![trigger segs[i], segs[j]] 0 <= i < j < segs.len() ==> segs[i].0 <= segs[j].0
}

/// Some segment overlaps the open span `(s, e)`.
pub open spec fn span_hit(segs: Seq<Seg>, s: int, e: int) -> bool {
    exists|k: int| 0 <= k < segs.len() && #[trigger] segs[k].1 > s && segs[k].0 < e
}

/// The pieces run back to back from `s` to `e`, none of them empty.
pub open spec fn tiles(p: Seq<Piece>, s: int, e: int) -> bool {
    &&& forall|i: int| 0 <= i < p.len() ==> #[trigger] p[i].0 < p[i].1
    &&& forall|i: int| 0 <= i < p.len() - 1 ==> #[trigger] p[i].1 == p[i + 1].0
    &&& (s < e ==> p.len() > 0 && p[0].0 == s && p[p.len() - 1].1 == e)
    &&& (e <= s ==> p.len() == 0)
}

/// Every piece credited to a task lies inside one of that task's segments,
/// and no untracked piece shares an instant with any work segment.
pub open spec fn attribution_sound(p: Seq<Piece>, segs: Seq<Seg>) -> bool {
    &&& forall|i: int| 0 <= i < p.len() && (#[trigger] p[i]).2 is Some ==> exists|k: int|
        0 <= k < segs.len() && segs[k].2 == p[i].2->0 && #[trigger] segs[k].0 <= p[i].0 && p[i].1 <= segs[k].1
    &&& forall|i: int, y: int| 0 <= i < p.len() && (#[trigger] p[i]).2 is None && p[i].0 <= y < p[i].1
        ==> !#[trigger] seg_covers(segs, y)
}

/// Segment `k` is the first (in order) that covers the instant `y`.
pub open spec fn first_cover(segs: Seq<Seg>, y: int, k: int) -> bool {
    0 <= k < segs.len() && in_seg(segs[k], y) && forall|j: int| 0 <= j < k ==> !#[trigger] in_seg(segs[j], y)
}

/// At the instant `b` a new run starts: the instants `b - 1` and `b` are not
/// both uncovered, nor both first covered by the same segment.
pub open spec fn run_breaks_at(segs: Seq<Seg>, b: int) -> bool {
    &&& (seg_covers(segs, b - 1) || seg_covers(segs, b))
    &&& !exists|k: int| #[trigger] first_cover(segs, b - 1, k) && first_cover(segs, b, k)
}

/// The pieces are the maximal runs of instants that share their first covering
/// segment (or are uncovered): each credited piece is first covered throughout
/// by one segment of its task, and a new piece starts only where that changes.
pub open spec fn credit_exact(p: Seq<Piece>, segs: Seq<Seg>) -> bool {
    &&& forall|i: int| 0 <= i < p.len() && (#[trigger] p[i]).2 is Some ==> exists|k: int|
        0 <= k < segs.len() && #[trigger] segs[k].2 == p[i].2->0 && forall|y: int| p[i].0 <= y < p[i].1
            ==> #[trigger] first_cover(segs, y, k)
    &&& forall|i: int| 0 <= i < p.len() - 1 ==> run_breaks_at(segs, (#[trigger] p[i]).1 as int)
}

proof fn lemma_first_cover_unique(segs: Seq<Seg>, y: int, a: int, b: int)
    requires
        first_cover(segs, y, a),
        first_cover(segs, y, b),
    ensures
        a == b,
{
    if a < b {
        assert(!in_seg(segs[a], y));
    } else if b < a {
        assert(!in_seg(segs[b], y));
    }
}

/// Split a closed untracked focus span `[s, e)` against the day's work segments
/// (sorted by start): the stretch before, between and after the segments stays
/// untracked, each overlap is credited to its segment's task, an instant that
/// two segments cover going to the earlier one. No piece is empty. `None` when
/// no segment overlaps the span (the row is left alone).
pub fn split_focus_span(s: i64, e: i64, segs: &Vec<Seg>) -> (out: Option<Vec<Piece>>)
    requires
        segs_sorted(segs@),
        forall|k: int| 0 <= k < segs@.len() ==> #[trigger] segs@[k].0 < segs@[k].1,
    ensures
        out is None <==> !span_hit(segs@, s as int, e as int),
        out matches Some(p) ==> tiles(p@, s as int, e as int) && attribution_sound(p@, segs@)
            && credit_exact(p@, segs@),
{
    let mut pieces: Vec<Piece> = Vec::new();
    let mut cursor = s;
    let mut hit = false;
    let ghost mut lastk: int = 0;
    let mut k: usize = 0;
    while k < segs.len()
        invariant
            k <= segs.len(),
            segs_sorted(segs@),
            forall|k: int| 0 <= k < segs@.len() ==> #[trigger] segs@[k].0 < segs@[k].1,
            s <= cursor,
            s < e ==> cursor <= e,
            e <= s ==> cursor == s && pieces@.len() == 0,
            hit <==> exists|m: int| 0 <= m < k && #[trigger] segs@[m].1 > s && segs@[m].0 < e,
            forall|i: int| 0 <= i < pieces@.len() ==> #[trigger] pieces@[i].0 < pieces@[i].1,
            forall|i: int| 0 <= i < pieces@.len() - 1 ==> #[trigger] pieces@[i].1 == pieces@[i + 1].0,
            pieces@.len() == 0 ==> cursor == s,
            pieces@.len() > 0 ==> pieces@[0].0 == s && pieces@[pieces@.len() - 1].1 == cursor,
            attribution_sound(pieces@, segs@),
            credit_exact(pieces@, segs@),
            pieces@.len() > 0 ==> pieces@[pieces@.len() - 1].2 is Some && first_cover(segs@, cursor - 1, lastk)
                && lastk < k,
            forall|m: int, y: int| 0 <= m < k && cursor <= y < e ==> !#[trigger] in_seg(segs@[m], y),
        decreases segs.len() - k,
    {
        let (ss, se, task) = segs[k];
        let ghost before = pieces@;
        let ghost c_old = cursor;
        if se > s && ss < e {
            hit = true;
            let os = if ss >= s { ss } else { s };
            let oe = if se <= e { se } else { e };
            if os > cursor {
                pieces.push((cursor, os, None));
            }
            let ts = if os >= cursor { os } else { cursor };
            let ghost mid = pieces@;
            let ghost lastk_old = lastk;
            if oe > ts {
                pieces.push((ts, oe, Some(task)));
                proof {
                    lastk = k as int;
                }
            }
            cursor = if oe >= cursor { oe } else { cursor };
            proof {
                let segv = segs@;
                let ki = k as int;
                // every instant of the credited stretch is first covered by segment k
                assert forall|y: int| ts <= y < oe implies #[trigger] first_cover(segv, y, ki) by {
                    assert(in_seg(segv[ki], y));
                    assert forall|j: int| 0 <= j < ki implies !#[trigger] in_seg(segv[j], y) by {
                        assert(c_old <= y < e);
                    }
                }
                // the gap before it is uncovered
                assert forall|y: int| c_old <= y < os implies !#[trigger] seg_covers(segv, y) by {
                    if seg_covers(segv, y) {
                        let m = choose|m: int| 0 <= m < segv.len() && #[trigger] in_seg(segv[m], y);
                        if m > ki {
                            assert(segv[ki].0 <= segv[m].0);
                        }
                    }
                }
                if os > c_old {
                    assert(in_seg(segv[ki], os as int));
                    assert(seg_covers(segv, os as int));
                }
                if oe > ts {
                    assert(in_seg(segv[ki], ts as int));
                    assert(seg_covers(segv, ts as int));
                    assert(first_cover(segv, ts as int, ki));
                    assert(first_cover(segv, oe - 1, ki));
                }
                if before.len() > 0 && pieces@.len() > before.len() {
                    assert(first_cover(segv, c_old - 1, lastk_old));
                    assert(in_seg(segv[lastk_old], c_old - 1));
                    assert(seg_covers(segv, c_old - 1));
                    if exists|k2: int| #[trigger] first_cover(segv, c_old - 1, k2) && first_cover(segv, c_old as int, k2) {
                        let k2 = choose|k2: int| #[trigger] first_cover(segv, c_old - 1, k2) && first_cover(segv, c_old as int, k2);
                        lemma_first_cover_unique(segv, c_old - 1, k2, lastk_old);
                        if os > c_old {
                            assert(in_seg(segv[k2], c_old as int));
                            assert(seg_covers(segv, c_old as int));
                        } else {
                            assert(first_cover(segv, c_old as int, ki));
                            lemma_first_cover_unique(segv, c_old as int, k2, ki);
                        }
                    }
                    assert(run_breaks_at(segv, c_old as int));
                }
                if os > c_old && oe > ts {
                    assert(!seg_covers(segv, os - 1));
                    if exists|k2: int| #[trigger] first_cover(segv, os - 1, k2) && first_cover(segv, os as int, k2) {
                        let k2 = choose|k2: int| #[trigger] first_cover(segv, os - 1, k2) && first_cover(segv, os as int, k2);
                        assert(in_seg(segv[k2], os - 1));
                    }
                    assert(run_breaks_at(segv, os as int));
                }
                assert forall|i: int| 0 <= i < pieces@.len() && (#[trigger] pieces@[i]).2 is Some implies exists|m: int|
                    0 <= m < segv.len() && #[trigger] segv[m].2 == pieces@[i].2->0 && forall|y: int| pieces@[i].0 <= y < pieces@[i].1
                        ==> #[trigger] first_cover(segv, y, m) by {
                    if i < before.len() {
                        assert(before[i] == pieces@[i]);
                    } else {
                        assert(pieces@[i] == (ts, oe, Some(task)));
                        assert(segv[ki].2 == task);
                    }
                }
                assert forall|i: int| 0 <= i < pieces@.len() - 1 implies run_breaks_at(segv, (#[trigger] pieces@[i]).1 as int) by {
                    if i < before.len() - 1 {
                        assert(before[i] == pieces@[i]);
                    } else if i == before.len() - 1 {
                        assert(before[i] == pieces@[i]);
                    } else {
                        assert(pieces@[i] == (c_old, os, None::<i64>));
                    }
                }
            }
            proof {
                // no segment covers the gap [c_old, os): earlier ones end by c_old,
                // later ones start at or after ss = os
                assert forall|i: int, y: int| 0 <= i < pieces@.len() && (#[trigger] pieces@[i]).2 is None
                    && pieces@[i].0 <= y < pieces@[i].1 implies !#[trigger] seg_covers(segs@, y) by {
                    if i < before.len() {
                        assert(before[i] == pieces@[i]);
                    } else {
                        assert(pieces@[i] == (c_old, os, None::<i64>));
                        if seg_covers(segs@, y) {
                            let m = choose|m: int| 0 <= m < segs@.len() && #[trigger] in_seg(segs@[m], y);
                            if m < k {
                            } else if m > k {
                                assert(segs@[k as int].0 <= segs@[m].0);
                            }
                        }
                    }
                }
                assert forall|i: int| 0 <= i < pieces@.len() && (#[trigger] pieces@[i]).2 is Some implies exists|m: int|
                    0 <= m < segs@.len() && segs@[m].2 == pieces@[i].2->0 && #[trigger] segs@[m].0 <= pieces@[i].0 && pieces@[i].1 <= segs@[m].1 by {
                    if i < before.len() {
                        assert(before[i] == pieces@[i]);
                    } else {
                        assert(segs@[k as int].0 <= pieces@[i].0);
                    }
                }
                assert forall|m: int, y: int| 0 <= m < k + 1 && cursor <= y < e implies !#[trigger] in_seg(segs@[m], y) by {
                    if m == k {
                    }
                }
                assert forall|i: int| 0 <= i < pieces@.len() - 1 implies #[trigger] pieces@[i].1 == pieces@[i + 1].0 by {
                    if i < before.len() - 1 {
                        assert(before[i].1 == before[i + 1].0);
                    }
                }
            }
        } else {
            proof {
                assert forall|m: int, y: int| 0 <= m < k + 1 && cursor <= y < e implies !#[trigger] in_seg(segs@[m], y) by {
                }
            }
        }
        k = k + 1;
    }
    if !hit {
        return None;
    }
    if cursor < e {
        let ghost before = pieces@;
        pieces.push((cursor, e, None));
        proof {
            assert forall|i: int, y: int| 0 <= i < pieces@.len() && (#[trigger] pieces@[i]).2 is None
                && pieces@[i].0 <= y < pieces@[i].1 implies !#[trigger] seg_covers(segs@, y) by {
                if i < before.len() {
                    assert(before[i] == pieces@[i]);
                } else {
                    if seg_covers(segs@, y) {
                        let m = choose|m: int| 0 <= m < segs@.len() && #[trigger] in_seg(segs@[m], y);
                    }
                }
            }
            assert forall|i: int| 0 <= i < pieces@.len() && (#[trigger] pieces@[i]).2 is Some implies exists|m: int|
                0 <= m < segs@.len() && segs@[m].2 == pieces@[i].2->0 && #[trigger] segs@[m].0 <= pieces@[i].0 && pieces@[i].1 <= segs@[m].1 by {
                assert(before[i] == pieces@[i]);
            }
            assert forall|i: int| 0 <= i < pieces@.len() - 1 implies #[trigger] pieces@[i].1 == pieces@[i + 1].0 by {
                if i < before.len() - 1 {
                    assert(before[i].1 == before[i + 1].0);
                }
            }
        }
    }
    Some(pieces)
}


/// Stable insertion sort of work segments by start instant.
fn sort_segs(v: Vec<Seg>) -> (out: Vec<Seg>)
    ensures
        segs_sorted(out@),
        out@.to_multiset() == v@.to_multiset(),
{
    let mut out: Vec<Seg> = Vec::new();
    let mut i: usize = 0;
    while i < v.len()
        invariant
            i <= v.len(),
            segs_sorted(out@),
            out@.to_multiset() == v@.take(i as int).to_multiset(),
        decreases v.len() - i,
    {
        let x = v[i];
        let mut p: usize = out.len();
        while p > 0 && out[p - 1].0 > x.0
            invariant
                p <= out.len(),
                segs_sorted(out@),
                forall|k: int| p <= k < out.len() ==> #[trigger] out@[k].0 > x.0,
            decreases p,
        {
            p = p - 1;
        }
        let ghost before = out@;
        out.insert(p, x);
        proof {
            before.insert_ensures(p as int, x);
            assert forall|a: int, b: int| #![trigger out@[a], out@[b]]
                0 <= a < b < out@.len() implies out@[a].0 <= out@[b].0 by {
                if b < p {
                } else if b == p {
                    if a < p {
                        assert(before[a].0 <= before[p - 1].0);
                    }
                } else if a < p {
                    assert(out@[b] == before[b - 1]);
                } else if a == p {
                    assert(out@[b] == before[b - 1]);
                } else {
                    assert(out@[a] == before[a - 1]);
                    assert(out@[b] == before[b - 1]);
                }
            }
            assert(v@.take(i + 1) =~= v@.take(i as int).push(x));
        }
        i = i + 1;
    }
    proof {
        assert(v@.take(v.len() as int) =~= v@);
    }
    out
}

proof fn lemma_seg_multiset_contains(a: Seq<Seg>, b: Seq<Seg>, x: Seg)
    requires
        a.to_multiset() == b.to_multiset(),
        a.contains(x),
    ensures
        b.contains(x),
{
    vstd::seq_lib::to_multiset_contains(a, x);
    vstd::seq_lib::to_multiset_contains(b, x);
}

/// Re-attribute a day's closed untracked focus spans against its work segments,
/// so focus (segments) and untracked time never cover the same instant. For each
/// span: `None` if no work segment overlaps it (left as it is), otherwise the
/// pieces that replace it. Empty segments are ignored. The segments are taken in
/// order of their start, and an instant is credited to the first of them that
/// covers it; the order among segments starting at the same second is not
/// fixed by this contract. Where a segment lies inside an earlier one, the
/// stretch it would add is empty or reversed; such a stretch becomes no piece,
/// as the focus log never takes a row shorter than a second.
pub fn attribute_spans(segs: Vec<Seg>, spans: &Vec<Iv>) -> (out: Vec<Option<Vec<Piece>>>)
    ensures
        out@.len() == spans@.len(),
        forall|i: int| 0 <= i < out@.len() ==> (#[trigger] out@[i] is None <==> !exists|k: int|
            0 <= k < segs@.len() && #[trigger] segs@[k].0 < segs@[k].1 && segs@[k].1 > spans@[i].0 && segs@[k].0 < spans@[i].1),
        forall|i: int| 0 <= i < out@.len() ==> (#[trigger] out@[i] matches Some(p) ==> tiles(p@, spans@[i].0 as int, spans@[i].1 as int)
            && attribution_sound(p@, segs@)),
        exists|ss: Seq<Seg>|
            segs_sorted(ss) && (forall|x: Seg| #[trigger] ss.contains(x) <==> (segs@.contains(x) && x.0 < x.1))
                && forall|i: int| 0 <= i < out@.len() ==> (#[trigger] out@[i] matches Some(p) ==> credit_exact(p@, ss)),
{
    let mut live: Vec<Seg> = Vec::new();
    let mut j: usize = 0;
    while j < segs.len()
        invariant
            j <= segs.len(),
            forall|k: int| 0 <= k < live@.len() ==> #[trigger] live@[k].0 < live@[k].1,
            forall|x: Seg| #[trigger] live@.contains(x) <==> (segs@.take(j as int).contains(x) && x.0 < x.1),
        decreases segs.len() - j,
    {
        let x = segs[j];
        let ghost before = live@;
        if x.1 > x.0 {
            live.push(x);
        }
        proof {
            assert(segs@.take(j + 1) =~= segs@.take(j as int).push(x));
            assert forall|y: Seg| #[trigger] live@.contains(y) <==> (segs@.take(j + 1).contains(y) && y.0 < y.1) by {
                assert(before.contains(y) <==> (segs@.take(j as int).contains(y) && y.0 < y.1));
                if live@.contains(y) {
                    let m = choose|m: int| 0 <= m < live@.len() && live@[m] == y;
                    if m < before.len() {
                        assert(before.contains(y));
                        let q = choose|q: int| 0 <= q < j && #[trigger] segs@.take(j as int)[q] == y;
                        assert(segs@.take(j + 1)[q] == y);
                    } else {
                        assert(segs@.take(j + 1)[j as int] == y);
                    }
                }
                if segs@.take(j + 1).contains(y) && y.0 < y.1 {
                    let q = choose|q: int| 0 <= q < j + 1 && #[trigger] segs@.take(j + 1)[q] == y;
                    if q < j {
                        assert(segs@.take(j as int)[q] == y);
                        assert(segs@.take(j as int).contains(y));
                        let m = choose|m: int| 0 <= m < before.len() && before[m] == y;
                        assert(live@[m] == y);
                    } else {
                        assert(live@[live@.len() - 1] == y);
                    }
                }
            }
        }
        j = j + 1;
    }
    proof {
        assert(segs@.take(segs.len() as int) =~= segs@);
    }
    let sorted = sort_segs(live);
    let ghost ss = sorted@;
    proof {
        assert forall|x: Seg| #[trigger] ss.contains(x) <==> (segs@.contains(x) && x.0 < x.1) by {
            if ss.contains(x) {
                lemma_seg_multiset_contains(ss, live@, x);
            }
            if live@.contains(x) {
                lemma_seg_multiset_contains(live@, ss, x);
            }
        }
        assert forall|k: int| 0 <= k < ss.len() implies #[trigger] ss[k].0 < ss[k].1 by {
            assert(ss.contains(ss[k]));
        }
    }
    let mut out: Vec<Option<Vec<Piece>>> = Vec::new();
    let mut i: usize = 0;
    while i < spans.len()
        invariant
            i <= spans.len(),
            out@.len() == i,
            ss == sorted@,
            segs_sorted(ss),
            forall|k: int| 0 <= k < ss.len() ==> #[trigger] ss[k].0 < ss[k].1,
            forall|x: Seg| #[trigger] ss.contains(x) <==> (segs@.contains(x) && x.0 < x.1),
            forall|q: int| 0 <= q < out@.len() ==> (#[trigger] out@[q] is None <==> !exists|k: int|
                0 <= k < segs@.len() && #[trigger] segs@[k].0 < segs@[k].1 && segs@[k].1 > spans@[q].0 && segs@[k].0 < spans@[q].1),
            forall|q: int| 0 <= q < out@.len() ==> (#[trigger] out@[q] matches Some(p) ==> tiles(p@, spans@[q].0 as int, spans@[q].1 as int)
                && attribution_sound(p@, segs@)),
            forall|q: int| 0 <= q < out@.len() ==> (#[trigger] out@[q] matches Some(p) ==> credit_exact(p@, ss)),
        decreases spans.len() - i,
    {
        let (s, e) = spans[i];
        let r = if sorted.len() == 0 { None } else { split_focus_span(s, e, &sorted) };
        proof {
            let hit_orig = exists|k: int|
                0 <= k < segs@.len() && #[trigger] segs@[k].0 < segs@[k].1 && segs@[k].1 > s && segs@[k].0 < e;
            if hit_orig {
                let k = choose|k: int|
                    0 <= k < segs@.len() && #[trigger] segs@[k].0 < segs@[k].1 && segs@[k].1 > s && segs@[k].0 < e;
                assert(segs@.contains(segs@[k]));
                assert(ss.contains(segs@[k]));
                let m = choose|m: int| 0 <= m < ss.len() && ss[m] == segs@[k];
                assert(ss[m].1 > s && ss[m].0 < e);
                assert(span_hit(ss, s as int, e as int));
            }
            if span_hit(ss, s as int, e as int) {
                let m = choose|m: int| 0 <= m < ss.len() && #[trigger] ss[m].1 > s && ss[m].0 < e;
                assert(ss.contains(ss[m]));
                let k = choose|k: int| 0 <= k < segs@.len() && segs@[k] == ss[m];
                assert(segs@[k].0 < segs@[k].1 && segs@[k].1 > s && segs@[k].0 < e);
            }
            if r is Some {
                let p = r->0;
                assert forall|q: int| 0 <= q < p@.len() && (#[trigger] p@[q]).2 is Some implies exists|k: int|
                    0 <= k < segs@.len() && segs@[k].2 == p@[q].2->0 && #[trigger] segs@[k].0 <= p@[q].0 && p@[q].1 <= segs@[k].1 by {
                    let m = choose|m: int| 0 <= m < ss.len() && ss[m].2 == p@[q].2->0 && #[trigger] ss[m].0 <= p@[q].0 && p@[q].1 <= ss[m].1;
                    assert(ss.contains(ss[m]));
                    let k = choose|k: int| 0 <= k < segs@.len() && segs@[k] == ss[m];
                    assert(segs@[k].0 <= p@[q].0);
                }
                assert forall|q: int, y: int| 0 <= q < p@.len() && (#[trigger] p@[q]).2 is None && p@[q].0 <= y < p@[q].1
                    implies !#[trigger] seg_covers(segs@, y) by {
                    assert(!seg_covers(ss, y));
                    if seg_covers(segs@, y) {
                        let k = choose|k: int| 0 <= k < segs@.len() && #[trigger] in_seg(segs@[k], y);
                        assert(segs@.contains(segs@[k]));
                        assert(ss.contains(segs@[k]));
                        let m = choose|m: int| 0 <= m < ss.len() && ss[m] == segs@[k];
                        assert(in_seg(ss[m], y));
                    }
                }
            }
        }
        out.push(r);
        i = i + 1;
    }
    proof {
        assert(segs_sorted(ss) && (forall|x: Seg| #[trigger] ss.contains(x) <==> (segs@.contains(x) && x.0 < x.1))
            && forall|q: int| 0 <= q < out@.len() ==> (#[trigger] out@[q] matches Some(p) ==> credit_exact(p@, ss)));
    }
    out
}


/// The rows of a table overlapping the window `[w0, w1)`, clipped to it.
pub fn clip_rows(rows: &Vec<Iv>, w0: i64, w1: i64) -> (out: Vec<Iv>)
    ensures
        out@.len() == rows@.len(),
        forall|i: int| 0 <= i < out@.len() ==> #[trigger] out@[i] == (
            if rows@[i].0 >= w0 { rows@[i].0 } else { w0 },
            if rows@[i].1 <= w1 { rows@[i].1 } else { w1 },
        ),
{
    let mut out: Vec<Iv> = Vec::new();
    let mut i: usize = 0;
    while i < rows.len()
        invariant
            i <= rows@.len(),
            out@.len() == i,
            forall|k: int| 0 <= k < i ==> #[trigger] out@[k] == (
                if rows@[k].0 >= w0 { rows@[k].0 } else { w0 },
                if rows@[k].1 <= w1 { rows@[k].1 } else { w1 },
            ),
        decreases rows@.len() - i,
    {
        let (s, e) = rows[i];
        out.push((if s >= w0 { s } else { w0 }, if e <= w1 { e } else { w1 }));
        i = i + 1;
    }
    out
}

/// Away rows of a window are maximal: the instants just before and just after
/// each row are not free, given that every free instant left out lies in a gap
/// shorter than a row.
proof fn lemma_rows_maximal(w0: int, w1: int, present: Seq<Iv>, v: Seq<Iv>)
    requires
        sorted_disjoint(v),
        forall|k: int| 0 <= k < v.len() ==> #[trigger] v[k].1 - v[k].0 >= MIN_AWAY_SECS,
        forall|x: int| #[trigger] covers(v, x) ==> free_at(w0, w1, present, x),
        forall|x: int|
            #![trigger free_at(w0, w1, present, x)]
            free_at(w0, w1, present, x) && !covers(v, x) ==> in_short_gap(w0, w1, present, MIN_AWAY_SECS as int, x),
    ensures
        forall|k: int| 0 <= k < v.len() ==> !free_at(w0, w1, present, #[trigger] v[k].0 - 1)
            && !free_at(w0, w1, present, v[k].1 as int),
{
    assert forall|k: int| 0 <= k < v.len() implies !free_at(w0, w1, present, #[trigger] v[k].0 - 1)
        && !free_at(w0, w1, present, v[k].1 as int) by {
        let a: int = v[k].0 as int;
        let b: int = v[k].1 as int;
        assert(in_iv(v[k], a));
        assert(in_iv(v[k], b - 1));
        assert(covers(v, a));
        assert(covers(v, b - 1));
        assert(free_at(w0, w1, present, a));
        assert(free_at(w0, w1, present, b - 1));
        if free_at(w0, w1, present, a - 1) {
            if covers(v, a - 1) {
                let m = choose|m: int| 0 <= m < v.len() && #[trigger] in_iv(v[m], a - 1);
                if m < k {
                    assert(v[m].1 < v[k].0);
                } else if m > k {
                    assert(v[k].1 < v[m].0);
                }
                assert(false);
            }
            let (a2, b2) = choose|a2: int, b2: int|
                #![trigger free_at(w0, w1, present, a2 - 1), free_at(w0, w1, present, b2)]
                a2 <= a - 1 < b2 && b2 - a2 < MIN_AWAY_SECS && !free_at(w0, w1, present, a2 - 1)
                    && !free_at(w0, w1, present, b2)
                    && (forall|y: int| a2 <= y < b2 ==> #[trigger] free_at(w0, w1, present, y));
            if b2 < b {
                assert(in_iv(v[k], b2));
                assert(covers(v, b2));
                assert(free_at(w0, w1, present, b2));
            }
            assert(false);
        }
        if free_at(w0, w1, present, b) {
            if covers(v, b) {
                let m = choose|m: int| 0 <= m < v.len() && #[trigger] in_iv(v[m], b);
                if m < k {
                    assert(v[m].1 < v[k].0);
                } else if m > k {
                    assert(v[k].1 < v[m].0);
                }
                assert(false);
            }
            let (a2, b2) = choose|a2: int, b2: int|
                #![trigger free_at(w0, w1, present, a2 - 1), free_at(w0, w1, present, b2)]
                a2 <= b < b2 && b2 - a2 < MIN_AWAY_SECS && !free_at(w0, w1, present, a2 - 1)
                    && !free_at(w0, w1, present, b2)
                    && (forall|y: int| a2 <= y < b2 ==> #[trigger] free_at(w0, w1, present, y));
            if a2 > a {
                assert(in_iv(v[k], a2 - 1));
                assert(covers(v, a2 - 1));
                assert(free_at(w0, w1, present, a2 - 1));
            }
            assert(false);
        }
    }
}

/// The away rows of a window, or `None` when the window is empty (nothing is
/// sealed and the day's rows are left as they are). The rows are exactly the
/// maximal free runs of the window that last a minute or more: each lies in
/// free time, is bounded on both sides by present time or the window's edge, and
/// every free instant left out lies in a run shorter than a minute.
pub fn seal_window_plan(w0: i64, w1: i64, present: Vec<Iv>) -> (out: Option<Vec<Iv>>)
    ensures
        w1 <= w0 <==> out is None,
        out matches Some(v) ==> sorted_disjoint(v@)
            && (forall|k: int| 0 <= k < v@.len() ==> #[trigger] v@[k].1 - v@[k].0 >= MIN_AWAY_SECS)
            && (forall|x: int| #[trigger] covers(v@, x) ==> free_at(w0 as int, w1 as int, present@, x))
            && (forall|k: int| 0 <= k < v@.len() ==> !free_at(w0 as int, w1 as int, present@, #[trigger] v@[k].0 - 1)
                && !free_at(w0 as int, w1 as int, present@, v@[k].1 as int))
            && (forall|x: int|
                #![trigger free_at(w0 as int, w1 as int, present@, x)]
                free_at(w0 as int, w1 as int, present@, x) && !covers(v@, x) ==> in_short_gap(
                    w0 as int,
                    w1 as int,
                    present@,
                    MIN_AWAY_SECS as int,
                    x,
                )),
{
    if w1 <= w0 {
        None
    } else {
        Some(away_rows(w0, w1, present))
    }
}

/// The time the machine was off or the app was not running, from the last
/// heartbeat to now: booked only for a real absence (a minute or more).
pub fn downtime_span(last_seen: i64, now: i64) -> (out: Option<Iv>)
    ensures
        out is Some <==> (last_seen > 0 && now - last_seen >= 60),
        out matches Some(iv) ==> iv == (last_seen, now),
{
    if last_seen > 0 && (now as i128) - (last_seen as i128) >= 60 {
        Some((last_seen, now))
    } else {
        None
    }
}

/// One step of booking away time `[s, e)` split at local midnights, given the
/// epoch of the midnight after `s`: the row to write (sub-minute pieces are
/// dropped) and where the next step starts (`None` when done).
pub fn away_split_step(s: i64, e: i64, next_midnight: i64) -> (out: (Option<Iv>, Option<i64>))
    requires
        s < e,
    ensures
        ({
            let seg_end = if e <= next_midnight { e } else { next_midnight };
            &&& out.0 is Some <==> seg_end - s >= 60
            &&& out.0 matches Some(iv) ==> iv == (s, seg_end)
            &&& out.1 is Some <==> (seg_end > s && seg_end < e)
            &&& out.1 matches Some(n) ==> n == seg_end
        }),
{
    let seg_end = if e <= next_midnight { e } else { next_midnight };
    let row = if (seg_end as i128) - (s as i128) >= 60 { Some((s, seg_end)) } else { None };
    let next = if seg_end <= s || seg_end >= e { None } else { Some(seg_end) };
    (row, next)
}

} // verus!
