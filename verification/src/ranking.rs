//! Distance-ranked selection of the `k` nearest candidates.
//!
//! Candidates occupy numbered slots. Slot `a` ranks before slot `b` when its
//! distance key is smaller, or when the keys are equal and `a` is the earlier
//! slot. Dead slots never rank.

use vstd::prelude::*;

verus! {

/// A scored candidate: a slot of the searched collection together with its
/// distance key from the query.
#[derive(Clone, Copy, Debug, PartialEq, Eq, Structural)]
pub struct Neighbor {
    /// Slot of the candidate in the searched collection.
    pub index: usize,
    /// Distance key of the candidate from the query.
    pub distance: u32,
}

/// The distance keys of scored candidates, slot by slot.
pub open spec fn distances(scored: Seq<Neighbor>) -> Seq<u32> {
    scored.map_values(|n: Neighbor| n.distance)
}

/// The strict ranking order on slots: smaller key first, earlier slot on ties.
pub open spec fn precedes(keys: Seq<u32>, a: int, b: int) -> bool {
    keys[a] < keys[b] || (keys[a] == keys[b] && a < b)
}

/// The number of live slots.
pub open spec fn live_count(live: Seq<bool>) -> nat
    decreases live.len(),
{
    if live.len() == 0 {
        0
    } else {
        live_count(live.drop_last()) + if live.last() { 1nat } else { 0nat }
    }
}

/// `out` lists the `k` best-ranked live slots, best first: it counts `k`
/// slots, or every live slot where they are fewer; its entries are live slots
/// in strictly ascending rank; every live slot it leaves out ranks after each
/// of its entries; and it leaves none out while it has room.
pub open spec fn is_nearest(keys: Seq<u32>, live: Seq<bool>, k: nat, out: Seq<int>) -> bool {
    &&& out.len() == if k <= live_count(live) { k } else { live_count(live) }
    &&& forall|i: int| 0 <= i < out.len() ==> 0 <= #[trigger] out[i] < live.len() && live[out[i]]
    &&& forall|i: int, j: int|
        0 <= i < j < out.len() ==> precedes(keys, #[trigger] out[i], #[trigger] out[j])
    &&& forall|s: int, i: int|
        0 <= s < live.len() && #[trigger] live[s] && !out.contains(s) && 0 <= i < out.len()
            ==> precedes(keys, #[trigger] out[i], s)
    &&& out.len() < k ==> forall|s: int| 0 <= s < live.len() && #[trigger] live[s] ==> out.contains(s)
}

/// The `k` best-ranked live slots, best first.
pub open spec fn nearest(keys: Seq<u32>, live: Seq<bool>, k: nat) -> Seq<int> {
    choose|out: Seq<int>| is_nearest(keys, live, k, out)
}

/// The slots of an executable result as mathematical integers.
pub open spec fn slot_seq(slots: Seq<usize>) -> Seq<int> {
    slots.map_values(|s: usize| s as int)
}

/// What becomes of a ranked list `out` of capacity `k` when slot `s` is offered
/// at rank `p`: it is inserted while there is room, displaces the last entry
/// when it ranks before it, and is dropped otherwise.
spec fn place(out: Seq<int>, k: nat, p: int, s: int) -> Seq<int> {
    if out.len() < k {
        out.insert(p, s)
    } else if p < out.len() {
        out.drop_last().insert(p, s)
    } else {
        out
    }
}

/// The rank at which `key`, offered by a slot later than all of `out`, enters
/// the ranked list `out`.
proof fn lemma_split_point(keys: Seq<u32>, out: Seq<int>, key: u32) -> (p: int)
    requires
        forall|i: int| 0 <= i < out.len() ==> 0 <= #[trigger] out[i] < keys.len(),
        forall|i: int, j: int|
            0 <= i < j < out.len() ==> precedes(keys, #[trigger] out[i], #[trigger] out[j]),
    ensures
        0 <= p <= out.len(),
        forall|i: int| 0 <= i < p ==> keys[#[trigger] out[i]] <= key,
        forall|i: int| p <= i < out.len() ==> keys[#[trigger] out[i]] > key,
    decreases out.len(),
{
    if out.len() == 0 {
        0
    } else if keys[out.last()] <= key {
        out.len() as int
    } else {
        let rest = out.drop_last();
        let p = lemma_split_point(keys, rest, key);
        assert forall|i: int| p <= i < out.len() implies keys[#[trigger] out[i]] > key by {
            if i < rest.len() {
                assert(rest[i] == out[i]);
            }
        }
        assert forall|i: int| 0 <= i < p implies keys[#[trigger] out[i]] <= key by {
            assert(rest[i] == out[i]);
        }
        p
    }
}

/// Counting one more slot.
proof fn lemma_live_count_step(live: Seq<bool>, n: int)
    requires
        0 <= n < live.len(),
    ensures
        live_count(live.take(n + 1)) == live_count(live.take(n)) + if live[n] { 1nat } else { 0nat },
{
    assert(live.take(n + 1).drop_last() =~= live.take(n));
}

/// A dead slot changes nothing.
proof fn lemma_pass_dead(keys: Seq<u32>, live: Seq<bool>, k: nat, n: int, out: Seq<int>)
    requires
        0 <= n < live.len(),
        keys.len() == live.len(),
        !live[n],
        is_nearest(keys, live.take(n), k, out),
    ensures
        is_nearest(keys, live.take(n + 1), k, out),
{
    lemma_live_count_step(live, n);
    let before = live.take(n);
    let after = live.take(n + 1);
    assert forall|s: int| 0 <= s < after.len() && #[trigger] after[s] implies 0 <= s < before.len()
        && before[s] by {}
}

/// Offering a live slot at its rank keeps the list the nearest of the slots
/// seen so far.
proof fn lemma_place_live(keys: Seq<u32>, live: Seq<bool>, k: nat, n: int, out: Seq<int>, p: int)
    requires
        0 <= n < live.len(),
        keys.len() == live.len(),
        live[n],
        is_nearest(keys, live.take(n), k, out),
        0 <= p <= out.len(),
        forall|i: int| 0 <= i < p ==> keys[#[trigger] out[i]] <= keys[n],
        forall|i: int| p <= i < out.len() ==> keys[#[trigger] out[i]] > keys[n],
    ensures
        is_nearest(keys, live.take(n + 1), k, place(out, k, p, n)),
{
    lemma_live_count_step(live, n);
    let before = live.take(n);
    let after = live.take(n + 1);
    let next = place(out, k, p, n);
    if out.len() < k {
        // The slot enters at rank `p`; the entries from there on move down.
        out.insert_ensures(p, n);
        assert forall|s: int| 0 <= s < after.len() && #[trigger] after[s] implies next.contains(
            s,
        ) by {
            if s != n {
                let i = choose|i: int| 0 <= i < out.len() && out[i] == s;
                if i < p {
                    assert(next[i] == s);
                }
            }
        }
    } else if p < out.len() {
        // The slot enters at rank `p` and the last entry leaves.
        let kept = out.drop_last();
        let last = out.last();
        kept.insert_ensures(p, n);
        assert forall|s: int, i: int|
            0 <= s < after.len() && #[trigger] after[s] && !next.contains(s) && 0 <= i
                < next.len() implies precedes(keys, #[trigger] next[i], s) by {
            assert(before[s]);
            assert(precedes(keys, n, last));
            if s != last {
                if out.contains(s) {
                    let h = choose|h: int| 0 <= h < out.len() && out[h] == s;
                    if h < p {
                        assert(next[h] == s);
                    } else {
                        assert(next[h + 1] == s);
                    }
                }
                assert(!out.contains(s));
                assert(precedes(keys, out[out.len() - 1], s));
            }
            if i < p {
                assert(next[i] == out[i]);
                if s == last {
                    assert(precedes(keys, out[i], out[out.len() - 1]));
                }
            }
        }
    } else {
        // The slot ranks after every entry of a full list and is dropped.
        assert forall|s: int, i: int|
            0 <= s < after.len() && #[trigger] after[s] && !next.contains(s) && 0 <= i
                < next.len() implies precedes(keys, #[trigger] next[i], s) by {
            if s != n {
                assert(before[s]);
            }
        }
    }
}

/// A ranked list of the nearest among the first `n` slots exists.
proof fn lemma_nearest_upto(keys: Seq<u32>, live: Seq<bool>, k: nat, n: int) -> (out: Seq<int>)
    requires
        keys.len() == live.len(),
        0 <= n <= live.len(),
    ensures
        is_nearest(keys, live.take(n), k, out),
    decreases n,
{
    if n == 0 {
        Seq::<int>::empty()
    } else {
        let prev = lemma_nearest_upto(keys, live, k, n - 1);
        if live[n - 1] {
            let p = lemma_split_point(keys, prev, keys[n - 1]);
            lemma_place_live(keys, live, k, n - 1, prev, p);
            place(prev, k, p, n - 1)
        } else {
            lemma_pass_dead(keys, live, k, n - 1, prev);
            prev
        }
    }
}

/// Where two ranked lists agree below rank `i`, the entry of the first at
/// rank `i` does not rank before that of the second.
proof fn lemma_not_before(keys: Seq<u32>, live: Seq<bool>, k: nat, a: Seq<int>, b: Seq<int>, i: int)
    requires
        is_nearest(keys, live, k, a),
        is_nearest(keys, live, k, b),
        0 <= i < a.len(),
        forall|j: int| 0 <= j < i ==> a[j] == b[j],
    ensures
        !precedes(keys, a[i], b[i]),
{
    if precedes(keys, a[i], b[i]) {
        // Then `a[i]` occurs nowhere in `b`, so `b[i]` ranks before it.
        assert forall|j: int| 0 <= j < b.len() implies b[j] != a[i] by {}
    }
}

/// Two ranked lists of the nearest agree up to rank `n`.
proof fn lemma_agree_upto(keys: Seq<u32>, live: Seq<bool>, k: nat, a: Seq<int>, b: Seq<int>, n: int)
    requires
        keys.len() == live.len(),
        is_nearest(keys, live, k, a),
        is_nearest(keys, live, k, b),
        0 <= n <= a.len(),
    ensures
        forall|j: int| 0 <= j < n ==> a[j] == b[j],
    decreases n,
{
    if n > 0 {
        lemma_agree_upto(keys, live, k, a, b, n - 1);
        lemma_not_before(keys, live, k, a, b, n - 1);
        lemma_not_before(keys, live, k, b, a, n - 1);
    }
}

/// The nearest are determined: any two lists that meet `is_nearest` for the
/// same keys, live slots and `k` are the same list. A ranking recomputed from
/// scratch by any method therefore equals the one `select_nearest` returns.
pub proof fn lemma_nearest_unique(keys: Seq<u32>, live: Seq<bool>, k: nat, a: Seq<int>, b: Seq<int>)
    requires
        keys.len() == live.len(),
        is_nearest(keys, live, k, a),
        is_nearest(keys, live, k, b),
    ensures
        a == b,
{
    lemma_agree_upto(keys, live, k, a, b, a.len() as int);
}

/// `nearest` meets its definition: for all keys and live slots the `k` nearest
/// exist.
pub proof fn lemma_nearest(keys: Seq<u32>, live: Seq<bool>, k: nat)
    requires
        keys.len() == live.len(),
    ensures
        is_nearest(keys, live, k, nearest(keys, live, k)),
{
    let out = lemma_nearest_upto(keys, live, k, live.len() as int);
    assert(live.take(live.len() as int) =~= live);
    assert(is_nearest(keys, live, k, out));
}

/// Where every slot is live, all of them count.
pub proof fn lemma_live_count_all(live: Seq<bool>)
    requires
        forall|i: int| 0 <= i < live.len() ==> live[i],
    ensures
        live_count(live) == live.len(),
    decreases live.len(),
{
    if live.len() > 0 {
        lemma_live_count_all(live.drop_last());
    }
}

/// A live slot counts.
pub proof fn lemma_live_count_positive(live: Seq<bool>, s: int)
    requires
        0 <= s < live.len(),
        live[s],
    ensures
        live_count(live) >= 1,
    decreases live.len(),
{
    if s < live.len() - 1 {
        lemma_live_count_positive(live.drop_last(), s);
    }
}

/// The best-ranked live slot comes first: a live slot that no other live
/// slot precedes heads the list whenever `k` is positive.
pub proof fn lemma_nearest_first(keys: Seq<u32>, live: Seq<bool>, k: nat, s: int)
    requires
        keys.len() == live.len(),
        k >= 1,
        0 <= s < live.len(),
        live[s],
        forall|t: int| 0 <= t < live.len() && live[t] && t != s ==> precedes(keys, s, t),
    ensures
        nearest(keys, live, k).len() >= 1,
        nearest(keys, live, k)[0] == s,
{
    lemma_nearest(keys, live, k);
    lemma_live_count_positive(live, s);
    let out = nearest(keys, live, k);
    if out[0] != s && out.contains(s) {
        let i = choose|i: int| 0 <= i < out.len() && out[i] == s;
        assert(precedes(keys, out[0], out[i]));
    }
}

/// The distance keys along a ranked list never decrease.
pub proof fn lemma_nearest_ascending(keys: Seq<u32>, live: Seq<bool>, k: nat, i: int, j: int)
    requires
        keys.len() == live.len(),
        0 <= i <= j < nearest(keys, live, k).len(),
    ensures
        keys[nearest(keys, live, k)[i]] <= keys[nearest(keys, live, k)[j]],
{
    lemma_nearest(keys, live, k);
}

/// Ranks the live slots by distance key and returns the `k` nearest, best
/// first; fewer when fewer are live. `None` when the two inputs differ in
/// length.
pub fn select_nearest(keys: &Vec<u32>, live: &Vec<bool>, k: usize) -> (out: Option<Vec<usize>>)
    ensures
        keys.len() != live.len() ==> out is None,
        keys.len() == live.len() ==> out is Some && slot_seq(out->Some_0@) == nearest(
            keys@,
            live@,
            k as nat,
        ),
{
    let n = keys.len();
    if live.len() != n {
        return None;
    }
    let mut best: Vec<usize> = Vec::new();
    let mut j: usize = 0;
    while j < n
        invariant
            j <= n,
            n == keys.len(),
            n == live.len(),
            is_nearest(keys@, live@.take(j as int), k as nat, slot_seq(best@)),
        decreases n - j,
    {
        let ghost prev = slot_seq(best@);
        proof {
            assert forall|i: int| 0 <= i < best.len() implies 0 <= #[trigger] best@[i] < j by {
                assert(live@.take(j as int)[prev[i]]);
            }
        }
        if live[j] {
            let key = keys[j];
            let mut p: usize = best.len();
            while p > 0 && keys[best[p - 1]] > key
                invariant
                    p <= best.len(),
                    n == keys.len(),
                    key == keys@[j as int],
                    forall|i: int| 0 <= i < best.len() ==> 0 <= #[trigger] best@[i] < j,
                    j < n,
                    forall|i: int| p <= i < best.len() ==> keys@[#[trigger] best@[i] as int] > key,
                decreases p,
            {
                p -= 1;
            }
            proof {
                assert forall|i: int| 0 <= i < p implies keys@[#[trigger] prev[i]] <= keys@[j as int] by {
                    if i < p - 1 {
                        assert(precedes(keys@, prev[i], prev[p - 1]));
                    }
                }
                assert forall|i: int| p <= i < prev.len() implies keys@[#[trigger] prev[i]]
                    > keys@[j as int] by {}
                lemma_place_live(keys@, live@, k as nat, j as int, prev, p as int);
            }
            if best.len() < k {
                best.insert(p, j);
                proof {
                    assert(slot_seq(best@) =~= prev.insert(p as int, j as int));
                }
            } else if p < best.len() {
                best.pop();
                best.insert(p, j);
                proof {
                    assert(slot_seq(best@) =~= prev.drop_last().insert(p as int, j as int));
                }
            }
        } else {
            proof {
                lemma_pass_dead(keys@, live@, k as nat, j as int, prev);
            }
        }
        j += 1;
    }
    proof {
        assert(live@.take(n as int) =~= live@);
        lemma_nearest(keys@, live@, k as nat);
        lemma_nearest_unique(keys@, live@, k as nat, slot_seq(best@), nearest(keys@, live@, k as nat));
    }
    Some(best)
}

} // verus!
