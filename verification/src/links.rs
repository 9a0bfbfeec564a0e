//! Lemmas about the two lists threaded through the slots: what stays linked when a
//! student joins, leaves, or moves up a place.
use vstd::prelude::*;

use crate::queue::{
    QueueState, QueueView, Seat, SLOTS, accounted, distinct, helped_linked, helped_node,
    index_of, seated_in, waiting_linked, waiting_node, link_next, link_prev,
};

verus! {

/// A list of distinct tables, each below `n`, is at most `n` long.
pub proof fn lemma_distinct_bounded(list: Seq<Seat>, n: nat)
    requires
        distinct(list),
        forall|i: int| 0 <= i < list.len() ==> list[i].table < n,
    ensures
        list.len() <= n,
    decreases n,
{
    if n == 0 {
        if list.len() > 0 {
            assert(list[0].table < 0);
        }
    } else if seated_in(list, (n - 1) as u32) {
        let j = index_of(list, (n - 1) as u32);
        let rest = list.remove(j);
        assert forall|i: int| 0 <= i < rest.len() implies rest[i].table < n - 1 by {
            if i < j {
                assert(rest[i] == list[i]);
            } else {
                assert(rest[i] == list[i + 1]);
            }
        }
        assert forall|a: int, b: int|
            0 <= a < rest.len() && 0 <= b < rest.len() && a != b implies rest[a].table
            != rest[b].table by {
            let a1 = if a < j { a } else { a + 1 };
            let b1 = if b < j { b } else { b + 1 };
            assert(rest[a] == list[a1]);
            assert(rest[b] == list[b1]);
        }
        lemma_distinct_bounded(rest, (n - 1) as nat);
    } else {
        assert forall|i: int| 0 <= i < list.len() implies list[i].table < n - 1 by {
            if list[i].table == n - 1 {
                assert(seated_in(list, (n - 1) as u32));
            }
        }
        lemma_distinct_bounded(list, (n - 1) as nat);
    }
}

/// The lists stay linked when a student who was in neither list takes the empty slot
/// of `seat.table` and becomes last in line, behind the former last one.
pub(crate) proof fn lemma_join_links(
    s0: Seq<QueueState>,
    s: Seq<QueueState>,
    w: Seq<Seat>,
    h: Seq<Seat>,
    seat: Seat,
)
    requires
        s0.len() == SLOTS,
        s.len() == SLOTS,
        seat.table < SLOTS,
        distinct(w),
        distinct(h),
        waiting_linked(s0, w, w.len() as int),
        helped_linked(s0, h),
        accounted(s0, w, h),
        s0[seat.table as int] is N,
        forall|t: int|
            0 <= t < SLOTS && t != seat.table && (w.len() == 0 || t != w[w.len() - 1].table)
                ==> s[t] == s0[t],
        waiting_node(s[seat.table as int], w.push(seat), w.len() as int, w.len() + 1int),
        w.len() > 0 ==> waiting_node(
            s[w[w.len() - 1].table as int],
            w.push(seat),
            w.len() - 1,
            w.len() as int,
        ),
    ensures
        distinct(w.push(seat)),
        waiting_linked(s, w.push(seat), w.len() + 1int),
        helped_linked(s, h),
        accounted(s, w.push(seat), h),
{
    reveal(waiting_linked);
    reveal(helped_linked);
    reveal(accounted);
    let w2 = w.push(seat);
    let table = seat.table;
    assert(!seated_in(w, table)) by {
        if seated_in(w, table) {
            let i = index_of(w, table);
            assert(w[i] == w[i]);
        }
    }
    assert(!seated_in(h, table)) by {
        if seated_in(h, table) {
            let i = index_of(h, table);
            assert(h[i] == h[i]);
        }
    }
    assert forall|a: int, b: int|
        0 <= a < w2.len() && 0 <= b < w2.len() && a != b implies w2[a].table != w2[b].table by {
        if a < w.len() {
            assert(w2[a] == w[a]);
        }
        if b < w.len() {
            assert(w2[b] == w[b]);
        }
    }
    assert forall|i: int| #![trigger w2[i]] 0 <= i < w2.len() implies {
        &&& w2[i].table < s.len()
        &&& waiting_node(s[w2[i].table as int], w2, i, i + 1)
    } by {
        if i + 1 < w.len() {
            assert(w2[i] == w[i]);
            assert(w[i] == w[i]);
            assert(w2[i + 1] == w[i + 1]);
            if i > 0 {
                assert(w2[i - 1] == w[i - 1]);
            }
            assert(w[i].table != w[w.len() - 1].table);
        }
    }
    assert forall|i: int| #![trigger h[i]] 0 <= i < h.len() implies {
        &&& h[i].table < s.len()
        &&& helped_node(s[h[i].table as int], h, i)
    } by {
        assert(h[i] == h[i]);
        if w.len() > 0 {
            let l = w[w.len() - 1];
            assert(w[w.len() - 1] == l);
        }
    }
    assert forall|t: int| #![trigger s[t]] 0 <= t < s.len() implies (s[t] is Q ==> seated_in(
        w2,
        t as u32,
    )) && (s[t] is H ==> seated_in(h, t as u32)) by {
        assert(s0[t] == s0[t]);
        if t == table {
            assert(w2[w.len() as int].table == table);
        } else if w.len() > 0 && t == w[w.len() - 1].table {
            assert(w2[w.len() - 1].table == t);
        } else if s[t] is Q {
            let i = index_of(w, t as u32);
            assert(w2[i] == w[i]);
        }
    }
}

/// The slot of place `i` of a linked waiting line holds that place.
pub(crate) proof fn lemma_linked_at(s: Seq<QueueState>, w: Seq<Seat>, settled: int, i: int)
    requires
        waiting_linked(s, w, settled),
        0 <= i < w.len(),
    ensures
        w[i].table < s.len(),
        waiting_node(s[w[i].table as int], w, i, if i < settled { i + 1 } else { i + 2 }),
{
    reveal(waiting_linked);
    assert(w[i] == w[i]);
}

/// Taking one student out of a line of distinct tables leaves distinct tables.
pub(crate) proof fn lemma_remove_distinct(w: Seq<Seat>, p: int)
    requires
        distinct(w),
        0 <= p < w.len(),
    ensures
        distinct(w.remove(p)),
{
    let w2 = w.remove(p);
    assert forall|a: int, b: int|
        0 <= a < w2.len() && 0 <= b < w2.len() && a != b implies w2[a].table != w2[b].table by {
        let a1 = if a < p { a } else { a + 1 };
        let b1 = if b < p { b } else { b + 1 };
        assert(w2[a] == w[a1]);
        assert(w2[b] == w[b1]);
    }
}

/// The slots that the waiting line uses are not used by the helped list.
pub(crate) proof fn lemma_apart(s: Seq<QueueState>, w: Seq<Seat>, settled: int, h: Seq<Seat>, i: int, j: int)
    requires
        waiting_linked(s, w, settled),
        helped_linked(s, h),
        0 <= i < w.len(),
        0 <= j < h.len(),
    ensures
        w[i].table != h[j].table,
{
    reveal(waiting_linked);
    reveal(helped_linked);
    assert(w[i] == w[i]);
    assert(h[j] == h[j]);
}

/// The slots whose contents change when the waiting student at place `p` leaves.
pub open spec fn unlink_frame(w: Seq<Seat>, p: int, t: int) -> bool {
    t != w[p].table && (p == 0 || t != w[p - 1].table) && (p + 1 >= w.len() || t
        != w[p + 1].table)
}

/// The waiting line stays linked when the student at place `p` leaves the slots and
/// the students before and after are linked to each other; the places behind keep
/// their old numbers, one too high, until they are settled.
pub(crate) proof fn lemma_unlink_waiting(s0: Seq<QueueState>, s: Seq<QueueState>, w: Seq<Seat>, p: int)
    requires
        s0.len() == SLOTS,
        s.len() == SLOTS,
        distinct(w),
        waiting_linked(s0, w, w.len() as int),
        0 <= p < w.len(),
        forall|t: int| 0 <= t < SLOTS && unlink_frame(w, p, t) ==> s[t] == s0[t],
        p > 0 ==> waiting_node(s[w[p - 1].table as int], w.remove(p), p - 1, p),
        p + 1 < w.len() ==> waiting_node(s[w[p + 1].table as int], w.remove(p), p, p + 2),
    ensures
        waiting_linked(s, w.remove(p), p),
{
    reveal(waiting_linked);
    let w2 = w.remove(p);
    assert forall|i: int| #![trigger w2[i]] 0 <= i < w2.len() implies {
        &&& w2[i].table < s.len()
        &&& waiting_node(s[w2[i].table as int], w2, i, if i < p { i + 1 } else { i + 2 })
    } by {
        let j = if i < p { i } else { i + 1 };
        assert(w2[i] == w[j]);
        assert(w[j] == w[j]);
        if i != p - 1 && i != p {
            assert(unlink_frame(w, p, w[j].table as int));
            if i > 0 {
                assert(w2[i - 1] == w[j - 1]);
            }
            if i + 1 < w2.len() {
                assert(w2[i + 1] == w[j + 1]);
            }
        }
    }
}

/// The helped list is untouched when a waiting student leaves.
pub(crate) proof fn lemma_unlink_keeps_helped(s0: Seq<QueueState>, s: Seq<QueueState>, w: Seq<Seat>, h: Seq<Seat>, p: int)
    requires
        s.len() == SLOTS,
        s0.len() == SLOTS,
        waiting_linked(s0, w, w.len() as int),
        helped_linked(s0, h),
        0 <= p < w.len(),
        forall|t: int| 0 <= t < SLOTS && unlink_frame(w, p, t) ==> s[t] == s0[t],
    ensures
        helped_linked(s, h),
{
    reveal(helped_linked);
    assert forall|i: int| #![trigger h[i]] 0 <= i < h.len() implies {
        &&& h[i].table < s.len()
        &&& helped_node(s[h[i].table as int], h, i)
    } by {
        assert(h[i] == h[i]);
        lemma_apart(s0, w, w.len() as int, h, p, i);
        if p > 0 {
            lemma_apart(s0, w, w.len() as int, h, p - 1, i);
        }
        if p + 1 < w.len() {
            lemma_apart(s0, w, w.len() as int, h, p + 1, i);
        }
        assert(unlink_frame(w, p, h[i].table as int));
    }
}

/// Every occupied slot stays in its list when a waiting student leaves.
pub(crate) proof fn lemma_unlink_accounted(s0: Seq<QueueState>, s: Seq<QueueState>, w: Seq<Seat>, h: Seq<Seat>, p: int)
    requires
        s.len() == SLOTS,
        s0.len() == SLOTS,
        accounted(s0, w, h),
        0 <= p < w.len(),
        s[w[p].table as int] is N,
        forall|t: int| 0 <= t < SLOTS && unlink_frame(w, p, t) ==> s[t] == s0[t],
        p > 0 ==> s[w[p - 1].table as int] is Q,
        p + 1 < w.len() ==> s[w[p + 1].table as int] is Q,
    ensures
        accounted(s, w.remove(p), h),
{
    reveal(accounted);
    let w2 = w.remove(p);
    assert forall|t: int| #![trigger s[t]] 0 <= t < s.len() implies (s[t] is Q ==> seated_in(
        w2,
        t as u32,
    )) && (s[t] is H ==> seated_in(h, t as u32)) by {
        assert(s0[t] == s0[t]);
        if p > 0 && t == w[p - 1].table {
            assert(w2[p - 1] == w[p - 1]);
        } else if p + 1 < w.len() && t == w[p + 1].table {
            assert(w2[p] == w[p + 1]);
        } else if t != w[p].table {
            assert(unlink_frame(w, p, t));
            if s[t] is Q {
                let j = index_of(w, t as u32);
                assert(w[j] == w[j]);
                if j < p {
                    assert(w2[j] == w[j]);
                } else {
                    assert(w2[j - 1] == w[j]);
                }
            }
        }
    }
}

/// Giving place `k` of the line its true number keeps the line linked.
pub(crate) proof fn lemma_settle_waiting(s0: Seq<QueueState>, s: Seq<QueueState>, w: Seq<Seat>, k: int)
    requires
        s0.len() == SLOTS,
        s.len() == SLOTS,
        waiting_linked(s0, w, k),
        0 <= k < w.len(),
        forall|t: int| 0 <= t < SLOTS && t != w[k].table ==> s[t] == s0[t],
        waiting_node(s[w[k].table as int], w, k, k + 1),
        distinct(w),
    ensures
        waiting_linked(s, w, k + 1),
{
    reveal(waiting_linked);
    assert forall|i: int| #![trigger w[i]] 0 <= i < w.len() implies {
        &&& w[i].table < s.len()
        &&& waiting_node(s[w[i].table as int], w, i, if i < k + 1 { i + 1 } else { i + 2 })
    } by {
        assert(w[i] == w[i]);
    }
}

/// Giving place `k` of the line its true number leaves the helped list and the
/// accounting of the slots as they were.
pub(crate) proof fn lemma_settle_rest(s0: Seq<QueueState>, s: Seq<QueueState>, w: Seq<Seat>, h: Seq<Seat>, k: int)
    requires
        s0.len() == SLOTS,
        s.len() == SLOTS,
        waiting_linked(s0, w, k),
        helped_linked(s0, h),
        accounted(s0, w, h),
        0 <= k < w.len(),
        forall|t: int| 0 <= t < SLOTS && t != w[k].table ==> s[t] == s0[t],
        s[w[k].table as int] is Q,
    ensures
        helped_linked(s, h),
        accounted(s, w, h),
{
    reveal(helped_linked);
    reveal(accounted);
    assert forall|i: int| #![trigger h[i]] 0 <= i < h.len() implies {
        &&& h[i].table < s.len()
        &&& helped_node(s[h[i].table as int], h, i)
    } by {
        assert(h[i] == h[i]);
        lemma_apart(s0, w, k, h, k, i);
    }
    assert forall|t: int| #![trigger s[t]] 0 <= t < s.len() implies (s[t] is Q ==> seated_in(
        w,
        t as u32,
    )) && (s[t] is H ==> seated_in(h, t as u32)) by {
        assert(s0[t] == s0[t]);
        if t == w[k].table {
            assert(w[k] == w[k]);
        }
    }
}

/// The helped list stays linked when the student at place `p` leaves the slots and the
/// students before and after are linked to each other.
pub(crate) proof fn lemma_unlink_helped_list(s0: Seq<QueueState>, s: Seq<QueueState>, h: Seq<Seat>, p: int)
    requires
        s0.len() == SLOTS,
        s.len() == SLOTS,
        distinct(h),
        helped_linked(s0, h),
        0 <= p < h.len(),
        forall|t: int| 0 <= t < SLOTS && unlink_frame(h, p, t) ==> s[t] == s0[t],
        p > 0 ==> helped_node(s[h[p - 1].table as int], h.remove(p), p - 1),
        p + 1 < h.len() ==> helped_node(s[h[p + 1].table as int], h.remove(p), p),
    ensures
        helped_linked(s, h.remove(p)),
{
    reveal(helped_linked);
    let h2 = h.remove(p);
    assert forall|i: int| #![trigger h2[i]] 0 <= i < h2.len() implies {
        &&& h2[i].table < s.len()
        &&& helped_node(s[h2[i].table as int], h2, i)
    } by {
        let j = if i < p { i } else { i + 1 };
        assert(h2[i] == h[j]);
        assert(h[j] == h[j]);
        if i != p - 1 && i != p {
            assert(unlink_frame(h, p, h[j].table as int));
            if i > 0 {
                assert(h2[i - 1] == h[j - 1]);
            }
            if i + 1 < h2.len() {
                assert(h2[i + 1] == h[j + 1]);
            }
        }
    }
}

/// The waiting line is untouched when a helped student leaves.
pub(crate) proof fn lemma_unlink_keeps_line(s0: Seq<QueueState>, s: Seq<QueueState>, w: Seq<Seat>, h: Seq<Seat>, p: int)
    requires
        s.len() == SLOTS,
        s0.len() == SLOTS,
        waiting_linked(s0, w, w.len() as int),
        helped_linked(s0, h),
        0 <= p < h.len(),
        forall|t: int| 0 <= t < SLOTS && unlink_frame(h, p, t) ==> s[t] == s0[t],
    ensures
        waiting_linked(s, w, w.len() as int),
{
    reveal(waiting_linked);
    assert forall|i: int| #![trigger w[i]] 0 <= i < w.len() implies {
        &&& w[i].table < s.len()
        &&& waiting_node(s[w[i].table as int], w, i, if i < w.len() { i + 1 } else { i + 2 })
    } by {
        assert(w[i] == w[i]);
        lemma_apart(s0, w, w.len() as int, h, i, p);
        if p > 0 {
            lemma_apart(s0, w, w.len() as int, h, i, p - 1);
        }
        if p + 1 < h.len() {
            lemma_apart(s0, w, w.len() as int, h, i, p + 1);
        }
        assert(unlink_frame(h, p, w[i].table as int));
    }
}

/// Every occupied slot stays in its list when a helped student leaves.
pub(crate) proof fn lemma_unlink_helped_accounted(s0: Seq<QueueState>, s: Seq<QueueState>, w: Seq<Seat>, h: Seq<Seat>, p: int)
    requires
        s.len() == SLOTS,
        s0.len() == SLOTS,
        accounted(s0, w, h),
        0 <= p < h.len(),
        s[h[p].table as int] is N,
        forall|t: int| 0 <= t < SLOTS && unlink_frame(h, p, t) ==> s[t] == s0[t],
        p > 0 ==> s[h[p - 1].table as int] is H,
        p + 1 < h.len() ==> s[h[p + 1].table as int] is H,
    ensures
        accounted(s, w, h.remove(p)),
{
    reveal(accounted);
    let h2 = h.remove(p);
    assert forall|t: int| #![trigger s[t]] 0 <= t < s.len() implies (s[t] is Q ==> seated_in(
        w,
        t as u32,
    )) && (s[t] is H ==> seated_in(h2, t as u32)) by {
        assert(s0[t] == s0[t]);
        if p > 0 && t == h[p - 1].table {
            assert(h2[p - 1] == h[p - 1]);
        } else if p + 1 < h.len() && t == h[p + 1].table {
            assert(h2[p] == h[p + 1]);
        } else if t != h[p].table {
            assert(unlink_frame(h, p, t));
            if s[t] is H {
                let j = index_of(h, t as u32);
                assert(h[j] == h[j]);
                if j < p {
                    assert(h2[j] == h[j]);
                } else {
                    assert(h2[j - 1] == h[j]);
                }
            }
        }
    }
}

/// The lists stay linked when a student who was in neither list takes the empty slot
/// of `seat.table` and becomes the last of those being helped.
pub(crate) proof fn lemma_append_helped(
    s0: Seq<QueueState>,
    s: Seq<QueueState>,
    w: Seq<Seat>,
    h: Seq<Seat>,
    seat: Seat,
)
    requires
        s0.len() == SLOTS,
        s.len() == SLOTS,
        seat.table < SLOTS,
        distinct(w),
        distinct(h),
        waiting_linked(s0, w, w.len() as int),
        helped_linked(s0, h),
        accounted(s0, w, h),
        s0[seat.table as int] is N,
        forall|t: int|
            0 <= t < SLOTS && t != seat.table && (h.len() == 0 || t != h[h.len() - 1].table)
                ==> s[t] == s0[t],
        helped_node(s[seat.table as int], h.push(seat), h.len() as int),
        h.len() > 0 ==> helped_node(s[h[h.len() - 1].table as int], h.push(seat), h.len() - 1),
    ensures
        distinct(h.push(seat)),
        helped_linked(s, h.push(seat)),
        waiting_linked(s, w, w.len() as int),
        accounted(s, w, h.push(seat)),
{
    reveal(waiting_linked);
    reveal(helped_linked);
    reveal(accounted);
    let h2 = h.push(seat);
    let table = seat.table;
    assert(!seated_in(w, table)) by {
        if seated_in(w, table) {
            let i = index_of(w, table);
            assert(w[i] == w[i]);
        }
    }
    assert(!seated_in(h, table)) by {
        if seated_in(h, table) {
            let i = index_of(h, table);
            assert(h[i] == h[i]);
        }
    }
    assert forall|a: int, b: int|
        0 <= a < h2.len() && 0 <= b < h2.len() && a != b implies h2[a].table != h2[b].table by {
        if a < h.len() {
            assert(h2[a] == h[a]);
        }
        if b < h.len() {
            assert(h2[b] == h[b]);
        }
    }
    assert forall|i: int| #![trigger h2[i]] 0 <= i < h2.len() implies {
        &&& h2[i].table < s.len()
        &&& helped_node(s[h2[i].table as int], h2, i)
    } by {
        if i + 1 < h.len() {
            assert(h2[i] == h[i]);
            assert(h[i] == h[i]);
            assert(h2[i + 1] == h[i + 1]);
            if i > 0 {
                assert(h2[i - 1] == h[i - 1]);
            }
            assert(h[i].table != h[h.len() - 1].table);
        }
    }
    assert forall|i: int| #![trigger w[i]] 0 <= i < w.len() implies {
        &&& w[i].table < s.len()
        &&& waiting_node(s[w[i].table as int], w, i, if i < w.len() { i + 1 } else { i + 2 })
    } by {
        assert(w[i] == w[i]);
        if h.len() > 0 {
            let l = h[h.len() - 1];
            assert(h[h.len() - 1] == l);
        }
    }
    assert forall|t: int| #![trigger s[t]] 0 <= t < s.len() implies (s[t] is Q ==> seated_in(
        w,
        t as u32,
    )) && (s[t] is H ==> seated_in(h2, t as u32)) by {
        assert(s0[t] == s0[t]);
        if t == table {
            assert(h2[h.len() as int].table == table);
        } else if h.len() > 0 && t == h[h.len() - 1].table {
            assert(h2[h.len() - 1].table == t);
        } else if s[t] is H {
            let i = index_of(h, t as u32);
            assert(h2[i] == h[i]);
        }
    }
}

/// Linked lists in the slots form a valid queue of at most one student per slot.
pub(crate) proof fn lemma_lists_valid(s: Seq<QueueState>, w: Seq<Seat>, h: Seq<Seat>)
    requires
        s.len() == SLOTS,
        distinct(w),
        distinct(h),
        waiting_linked(s, w, w.len() as int),
        helped_linked(s, h),
    ensures
        (QueueView { waiting: w, helped: h }).valid(),
        w.len() + h.len() <= SLOTS,
{
    assert forall|i: int, j: int| 0 <= i < w.len() && 0 <= j < h.len() implies w[i].table
        != h[j].table by {
        lemma_apart(s, w, w.len() as int, h, i, j);
    }
    assert forall|i: int| 0 <= i < w.len() implies w[i].table < SLOTS by {
        lemma_linked_at(s, w, w.len() as int, i);
    }
    assert forall|i: int| 0 <= i < h.len() implies h[i].table < SLOTS by {
        reveal(helped_linked);
        assert(h[i] == h[i]);
    }
    let all = w + h;
    assert forall|a: int, b: int|
        0 <= a < all.len() && 0 <= b < all.len() && a != b implies all[a].table
        != all[b].table by {
        if a < w.len() && b >= w.len() {
            lemma_apart(s, w, w.len() as int, h, a, b - w.len());
        }
        if b < w.len() && a >= w.len() {
            lemma_apart(s, w, w.len() as int, h, b, a - w.len());
        }
    }
    lemma_distinct_bounded(all, SLOTS as nat);
}

} // verus!
