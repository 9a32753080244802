//! Eviction queues: the order in which a least-frequently-used cache gives
//! up its entries, with the access count of each.
use vstd::prelude::*;

verus! {

/// The keys of a queue, in queue order.
pub open spec fn queue_keys(q: Seq<(u128, usize)>) -> Seq<u128> {
    q.map_values(|e: (u128, usize)| e.0)
}

/// Whether a queue holds a key.
pub open spec fn queue_has(q: Seq<(u128, usize)>, k: u128) -> bool {
    exists|i: int| 0 <= i < q.len() && #[trigger] q[i].0 == k
}

/// A queue as the collection keeps it: no key twice, access counts ascending.
pub open spec fn queue_wf(q: Seq<(u128, usize)>) -> bool {
    &&& forall|i: int, j: int| 0 <= i < j < q.len() ==> #[trigger] q[i].0 != #[trigger] q[j].0
    &&& forall|i: int, j: int| 0 <= i <= j < q.len() ==> #[trigger] q[i].1 <= #[trigger] q[j].1
}

/// The number of leading entries of `q` whose access count is at most `f`.
pub open spec fn leading_at_most(q: Seq<(u128, usize)>, f: usize) -> nat
    decreases q.len(),
{
    if q.len() == 0 {
        0
    } else if q[0].1 <= f {
        1 + leading_at_most(q.drop_first(), f)
    } else {
        0
    }
}

/// The queue after an access to the entry at index `i`: its count grows by
/// one and it moves in front of the entries that already had the new count.
pub open spec fn promoted(q: Seq<(u128, usize)>, i: int) -> Seq<(u128, usize)> {
    let f = q[i].1;
    let rest = q.remove(i);
    rest.insert(leading_at_most(rest, f) as int, (q[i].0, (f + 1) as usize))
}

/// The index at which key `k` stands in `q`.
pub open spec fn queue_index(q: Seq<(u128, usize)>, k: u128) -> int {
    choose|i: int| 0 <= i < q.len() && q[i].0 == k
}

/// The access count of key `k` in `q`.
pub open spec fn queue_count(q: Seq<(u128, usize)>, k: u128) -> usize {
    q[queue_index(q, k)].1
}

pub proof fn lemma_queue_index(q: Seq<(u128, usize)>, k: u128)
    requires
        queue_wf(q),
        queue_has(q, k),
    ensures
        0 <= queue_index(q, k) < q.len(),
        q[queue_index(q, k)].0 == k,
        forall|i: int| 0 <= i < q.len() && q[i].0 == k ==> i == queue_index(q, k),
{
}

pub proof fn lemma_leading_at_most(q: Seq<(u128, usize)>, f: usize)
    requires
        forall|i: int, j: int| 0 <= i <= j < q.len() ==> #[trigger] q[i].1 <= #[trigger] q[j].1,
    ensures
        leading_at_most(q, f) <= q.len(),
        forall|m: int| 0 <= m < leading_at_most(q, f) ==> #[trigger] q[m].1 <= f,
        forall|m: int| leading_at_most(q, f) <= m < q.len() ==> #[trigger] q[m].1 > f,
    decreases q.len(),
{
    if q.len() > 0 {
        if q[0].1 <= f {
            let r = q.drop_first();
            assert forall|i: int, j: int| 0 <= i <= j < r.len() implies #[trigger] r[i].1
                <= #[trigger] r[j].1 by {
                assert(q[i + 1].1 <= q[j + 1].1);
            }
            lemma_leading_at_most(r, f);
            assert forall|m: int| 0 <= m < leading_at_most(q, f) implies #[trigger] q[m].1
                <= f by {
                if m > 0 {
                    assert(q[m] == r[m - 1]);
                }
            }
            assert forall|m: int| leading_at_most(q, f) <= m < q.len() implies #[trigger] q[m].1
                > f by {
                assert(q[m] == r[m - 1]);
            }
        } else {
            assert forall|m: int| 0 <= m < q.len() implies #[trigger] q[m].1 > f by {
                assert(q[0].1 <= q[m].1);
            }
        }
    }
}

/// An access keeps a queue well formed: the accessed entry's count grows by
/// one, every other entry keeps its count, and the keys stay the same.
pub proof fn lemma_promoted(q: Seq<(u128, usize)>, i: int)
    requires
        queue_wf(q),
        0 <= i < q.len(),
        q[i].1 < usize::MAX,
    ensures
        queue_wf(promoted(q, i)),
        promoted(q, i).len() == q.len(),
        forall|k: u128| queue_has(promoted(q, i), k) <==> queue_has(q, k),
        queue_count(promoted(q, i), q[i].0) == q[i].1 + 1,
        forall|k: u128|
            queue_has(q, k) && k != q[i].0 ==> queue_count(promoted(q, i), k) == queue_count(q, k),
{
    let f = q[i].1;
    let rest = q.remove(i);
    let j = leading_at_most(rest, f) as int;
    let p = promoted(q, i);
    assert forall|a: int, b: int| 0 <= a <= b < rest.len() implies #[trigger] rest[a].1
        <= #[trigger] rest[b].1 by {
        let a2 = if a < i { a } else { a + 1 };
        let b2 = if b < i { b } else { b + 1 };
        assert(rest[a] == q[a2]);
        assert(rest[b] == q[b2]);
    }
    lemma_leading_at_most(rest, f);
    assert(p == rest.insert(j, (q[i].0, (f + 1) as usize)));
    assert forall|m: int| 0 <= m < rest.len() implies #[trigger] rest[m].0 != q[i].0 by {
        let m2 = if m < i { m } else { m + 1 };
        assert(rest[m] == q[m2]);
    }
    assert forall|a: int, b: int| 0 <= a < b < p.len() implies #[trigger] p[a].0
        != #[trigger] p[b].0 by {
        if a < j && b < j {
            assert(p[a] == rest[a] && p[b] == rest[b]);
            let a2 = if a < i { a } else { a + 1 };
            let b2 = if b < i { b } else { b + 1 };
            assert(rest[a] == q[a2] && rest[b] == q[b2]);
        } else if a < j && b == j {
            assert(p[a] == rest[a]);
        } else if a < j {
            assert(p[a] == rest[a] && p[b] == rest[b - 1]);
            let a2 = if a < i { a } else { a + 1 };
            let b2 = if b - 1 < i { b - 1 } else { b };
            assert(rest[a] == q[a2] && rest[b - 1] == q[b2]);
        } else if a == j {
            assert(p[b] == rest[b - 1]);
        } else {
            assert(p[a] == rest[a - 1] && p[b] == rest[b - 1]);
            let a2 = if a - 1 < i { a - 1 } else { a };
            let b2 = if b - 1 < i { b - 1 } else { b };
            assert(rest[a - 1] == q[a2] && rest[b - 1] == q[b2]);
        }
    }
    assert forall|a: int, b: int| 0 <= a <= b < p.len() implies #[trigger] p[a].1
        <= #[trigger] p[b].1 by {
        if a < j && b < j {
            assert(p[a] == rest[a] && p[b] == rest[b]);
        } else if a < j && b == j {
            assert(p[a] == rest[a]);
        } else if a < j {
            assert(p[a] == rest[a] && p[b] == rest[b - 1]);
        } else if a == j && b == j {
        } else if a == j {
            assert(p[b] == rest[b - 1]);
        } else {
            assert(p[a] == rest[a - 1] && p[b] == rest[b - 1]);
        }
    }
    assert forall|k: u128| queue_has(p, k) <==> queue_has(q, k) by {
        if queue_has(q, k) {
            let m = choose|m: int| 0 <= m < q.len() && #[trigger] q[m].0 == k;
            if m == i {
                assert(p[j].0 == k);
            } else {
                let m2 = if m < i { m } else { m - 1 };
                assert(rest[m2] == q[m]);
                let m3 = if m2 < j { m2 } else { m2 + 1 };
                assert(p[m3] == rest[m2]);
            }
        }
        if queue_has(p, k) {
            let m = choose|m: int| 0 <= m < p.len() && #[trigger] p[m].0 == k;
            if m == j {
                assert(q[i].0 == k);
            } else {
                let m2 = if m < j { m } else { m - 1 };
                assert(p[m] == rest[m2]);
                let m3 = if m2 < i { m2 } else { m2 + 1 };
                assert(rest[m2] == q[m3]);
            }
        }
    }
    assert(p[j].0 == q[i].0);
    lemma_queue_index(p, q[i].0);
    assert forall|k: u128| queue_has(q, k) && k != q[i].0 implies queue_count(p, k) == queue_count(
        q,
        k,
    ) by {
        lemma_queue_index(q, k);
        let m = queue_index(q, k);
        let m2 = if m < i { m } else { m - 1 };
        assert(rest[m2] == q[m]);
        let m3 = if m2 < j { m2 } else { m2 + 1 };
        assert(p[m3] == rest[m2]);
        lemma_queue_index(p, k);
    }
}

/// Removing an entry keeps a queue well formed; every other entry keeps its
/// count.
pub proof fn lemma_removed(q: Seq<(u128, usize)>, i: int)
    requires
        queue_wf(q),
        0 <= i < q.len(),
    ensures
        queue_wf(q.remove(i)),
        forall|k: u128| queue_has(q.remove(i), k) <==> (queue_has(q, k) && k != q[i].0),
        forall|k: u128|
            queue_has(q, k) && k != q[i].0 ==> queue_count(q.remove(i), k) == queue_count(q, k),
{
    let r = q.remove(i);
    assert forall|a: int, b: int| 0 <= a < b < r.len() implies #[trigger] r[a].0
        != #[trigger] r[b].0 by {
        let a2 = if a < i { a } else { a + 1 };
        let b2 = if b < i { b } else { b + 1 };
        assert(r[a] == q[a2] && r[b] == q[b2]);
    }
    assert forall|a: int, b: int| 0 <= a <= b < r.len() implies #[trigger] r[a].1
        <= #[trigger] r[b].1 by {
        let a2 = if a < i { a } else { a + 1 };
        let b2 = if b < i { b } else { b + 1 };
        assert(r[a] == q[a2] && r[b] == q[b2]);
    }
    assert forall|k: u128| queue_has(r, k) <==> (queue_has(q, k) && k != q[i].0) by {
        if queue_has(q, k) && k != q[i].0 {
            let m = choose|m: int| 0 <= m < q.len() && #[trigger] q[m].0 == k;
            let m2 = if m < i { m } else { m - 1 };
            assert(r[m2] == q[m]);
        }
        if queue_has(r, k) {
            let m = choose|m: int| 0 <= m < r.len() && #[trigger] r[m].0 == k;
            let m2 = if m < i { m } else { m + 1 };
            assert(r[m] == q[m2]);
        }
    }
    assert forall|k: u128| queue_has(q, k) && k != q[i].0 implies queue_count(r, k)
        == queue_count(q, k) by {
        lemma_queue_index(q, k);
        let m = queue_index(q, k);
        let m2 = if m < i { m } else { m - 1 };
        assert(r[m2] == q[m]);
        lemma_queue_index(r, k);
    }
}

/// A new key with count zero at the front keeps a queue well formed.
pub proof fn lemma_pushed_front(q: Seq<(u128, usize)>, k: u128)
    requires
        queue_wf(q),
        !queue_has(q, k),
    ensures
        queue_wf(seq![(k, 0usize)] + q),
        forall|x: u128| queue_has(seq![(k, 0usize)] + q, x) <==> (queue_has(q, x) || x == k),
        queue_count(seq![(k, 0usize)] + q, k) == 0,
        forall|x: u128|
            queue_has(q, x) ==> queue_count(seq![(k, 0usize)] + q, x) == queue_count(q, x),
{
    let p = seq![(k, 0usize)] + q;
    assert forall|a: int, b: int| 0 <= a < b < p.len() implies #[trigger] p[a].0
        != #[trigger] p[b].0 by {
        assert(p[b] == q[b - 1]);
        if a > 0 {
            assert(p[a] == q[a - 1]);
        } else {
            assert(q[b - 1].0 != k);
        }
    }
    assert forall|a: int, b: int| 0 <= a <= b < p.len() implies #[trigger] p[a].1
        <= #[trigger] p[b].1 by {
        if a > 0 {
            assert(p[a] == q[a - 1] && p[b] == q[b - 1]);
        }
    }
    assert forall|x: u128| queue_has(p, x) <==> (queue_has(q, x) || x == k) by {
        if queue_has(q, x) {
            let m = choose|m: int| 0 <= m < q.len() && #[trigger] q[m].0 == x;
            assert(p[m + 1] == q[m]);
        }
        if x == k {
            assert(p[0].0 == k);
        }
        if queue_has(p, x) {
            let m = choose|m: int| 0 <= m < p.len() && #[trigger] p[m].0 == x;
            if m > 0 {
                assert(p[m] == q[m - 1]);
            }
        }
    }
    assert(p[0].0 == k);
    lemma_queue_index(p, k);
    assert forall|x: u128| queue_has(q, x) implies queue_count(p, x) == queue_count(q, x) by {
        lemma_queue_index(q, x);
        let m = queue_index(q, x);
        assert(p[m + 1] == q[m]);
        lemma_queue_index(p, x);
    }
}

} // verus!
