//! Why the construction is right: what holds of its arrays at every step,
//! and what follows for the stack and the fingerprints that it leaves.

use vstd::prelude::*;
use vstd::set_lib::{lemma_int_range, set_int_range};
use crate::construct::{KeyIndex, XorSet};
use crate::hashing::spec_fingerprint;
use crate::model::{
    drain_next, high_offset, high_queue, high_slot, low_offset, low_queue, low_slot, own_offset,
    own_queue, referred, released, requeued, spec_accumulate, spec_assign, spec_drain,
    spec_fingerprints, spec_peel, spec_rounds, spec_seed_queue, spec_slot_value, spec_start,
    PeelState,
};
use crate::peel::{
    covers, fingerprint_matches, is_peeling, lemma_count_zero, lemma_remove_key,
    lemma_single_toucher, lemma_slot_ranges, lemma_stuck_not_peelable, lemma_touch_count_bound,
    lemma_toucher_counts, peelable, slot0, slot1, slot2, touch_count, touch_xor, touches,
};

verus! {

/// What the construction knows beside its arrays: the keys still in play, the
/// slots through which a key has been removed, and the removed keys in the
/// order of their removal, each with its slot.
pub struct Progress {
    pub alive: Set<int>,
    pub used: Set<int>,
    pub order: Seq<int>,
    pub slots: Seq<int>,
}

/// The accumulators agree with the keys in play. A slot through which a key
/// was removed keeps the count one, and no key in play touches it.
pub open spec fn sets_ok(hs: Seq<u64>, bl: u32, alive: Set<int>, used: Set<int>, sets: Seq<XorSet>) -> bool {
    &&& sets.len() == 3 * bl
    &&& forall|c: int|
        0 <= c < 3 * bl ==> {
            &&& (#[trigger] sets[c]).count == touch_count(hs, alive, bl, c, hs.len() as int) + (
            if used.contains(c) {
                1int
            } else {
                0int
            })
            &&& used.contains(c) ==> touch_count(hs, alive, bl, c, hs.len() as int) == 0
            &&& !used.contains(c) ==> sets[c].xor_mask == touch_xor(
                hs,
                alive,
                bl,
                c,
                hs.len() as int,
            )
        }
}

/// The queue of the segment that starts at `offset` holds each slot once, and
/// a queued slot whose count is still one is unused and carries its own xor.
pub open spec fn queue_ok(sets: Seq<XorSet>, used: Set<int>, bl: u32, offset: int, queue: Seq<KeyIndex>) -> bool {
    &&& forall|p: int|
        0 <= p < queue.len() ==> {
            let e = #[trigger] queue[p];
            &&& e.index < bl
            &&& sets[offset + e.index].count <= 1
            &&& sets[offset + e.index].count == 1 ==> !used.contains(offset + e.index)
                && sets[offset + e.index].xor_mask == e.hash
        }
    &&& forall|p: int, r: int|
        0 <= p < r < queue.len() ==> (#[trigger] queue[p]).index != (#[trigger] queue[r]).index
}

/// Every unused slot of the segment whose count is one stands in the queue.
pub open spec fn queue_complete(sets: Seq<XorSet>, used: Set<int>, bl: u32, offset: int, queue: Seq<KeyIndex>) -> bool {
    forall|c: int|
        offset <= c < offset + bl && (#[trigger] sets[c]).count == 1 && !used.contains(c)
            ==> exists|p: int| 0 <= p < queue.len() && offset + (#[trigger] queue[p]).index == c
}

/// The removed keys form a peeling, the stack records it, and every key is
/// either in play or removed.
pub open spec fn peel_ok(hs: Seq<u64>, bl: u32, g: Progress, stack: Seq<KeyIndex>) -> bool {
    &&& g.alive.finite()
    &&& g.alive.len() + g.order.len() == hs.len()
    &&& forall|k: int| #[trigger] g.alive.contains(k) ==> 0 <= k < hs.len()
    &&& is_peeling(hs, bl, g.order, g.slots)
    &&& stack.len() == g.order.len()
    &&& forall|p: int|
        0 <= p < g.order.len() ==> {
            &&& !g.alive.contains(#[trigger] g.order[p])
            &&& g.used.contains(g.slots[p])
            &&& stack[p].hash == hs[g.order[p]]
            &&& stack[p].index == g.slots[p]
        }
    &&& forall|k: int| 0 <= k < hs.len() && !g.alive.contains(k) ==> #[trigger] g.order.contains(k)
}

/// What holds of the arrays of a construction attempt at every step, for
/// keys with the master hashes `hs`.
pub open spec fn inv(hs: Seq<u64>, bl: u32, st: PeelState, g: Progress) -> bool {
    &&& sets_ok(hs, bl, g.alive, g.used, st.sets)
    &&& peel_ok(hs, bl, g, st.stack)
    &&& queue_ok(st.sets, g.used, bl, 0, st.q0)
    &&& queue_ok(st.sets, g.used, bl, bl as int, st.q1)
    &&& queue_ok(st.sets, g.used, bl, 2 * bl, st.q2)
    &&& queue_complete(st.sets, g.used, bl, 0, st.q0)
    &&& queue_complete(st.sets, g.used, bl, bl as int, st.q1)
    &&& queue_complete(st.sets, g.used, bl, 2 * bl, st.q2)
}

/// The arrays are those of a construction attempt for some keys, at some
/// step.
pub open spec fn consistent(bl: u32, st: PeelState) -> bool {
    exists|hs: Seq<u64>, g: Progress| #[trigger] inv(hs, bl, st, g)
}

/// The state of the construction after key `k` was removed through slot `c`.
pub open spec fn advanced(g: Progress, k: int, c: int) -> Progress {
    Progress {
        alive: g.alive.remove(k),
        used: g.used.insert(c),
        order: g.order.push(k),
        slots: g.slots.push(c),
    }
}

/// A slot that a key in play touches is unused and has a positive count.
proof fn lemma_live_slot(hs: Seq<u64>, bl: u32, g: Progress, sets: Seq<XorSet>, k: int, c: int)
    requires
        sets_ok(hs, bl, g.alive, g.used, sets),
        0 <= k < hs.len(),
        g.alive.contains(k),
        touches(hs[k], bl, c),
        0 <= c < 3 * bl,
    ensures
        !g.used.contains(c),
        sets[c].count >= 1,
{
    lemma_toucher_counts(hs, g.alive, bl, c, hs.len() as int, k);
    assert(sets[c].count >= 0);
}

/// The accumulators stay right when a key leaves through a slot that it alone
/// touches and its two other slots are released.
proof fn lemma_step_sets(
    hs: Seq<u64>,
    bl: u32,
    g: Progress,
    sets: Seq<XorSet>,
    after: Seq<XorSet>,
    k: int,
    c: int,
    ca: int,
    cb: int,
)
    requires
        bl > 0,
        sets_ok(hs, bl, g.alive, g.used, sets),
        0 <= k < hs.len(),
        g.alive.contains(k),
        touches(hs[k], bl, c),
        touches(hs[k], bl, ca),
        touches(hs[k], bl, cb),
        c != ca && c != cb && ca != cb,
        !g.used.contains(c),
        sets[c].count == 1,
        after == sets.update(ca, released(sets[ca], hs[k])).update(cb, released(sets[cb], hs[k])),
    ensures
        sets_ok(hs, bl, g.alive.remove(k), g.used.insert(c), after),
{
    let n = hs.len() as int;
    lemma_slot_ranges(hs[k], bl);
    lemma_live_slot(hs, bl, g, sets, k, ca);
    lemma_live_slot(hs, bl, g, sets, k, cb);
    let alive2 = g.alive.remove(k);
    let used2 = g.used.insert(c);
    assert forall|x: int| 0 <= x < 3 * bl implies {
        &&& (#[trigger] after[x]).count == touch_count(hs, alive2, bl, x, n) + (if used2.contains(
            x,
        ) {
            1int
        } else {
            0int
        })
        &&& used2.contains(x) ==> touch_count(hs, alive2, bl, x, n) == 0
        &&& !used2.contains(x) ==> after[x].xor_mask == touch_xor(hs, alive2, bl, x, n)
    } by {
        lemma_remove_key(hs, g.alive, bl, x, n, k);
        assert(sets[x].count >= 0);
    }
}

/// The record of removed keys stays a peeling when a key in play leaves
/// through one of its slots.
proof fn lemma_step_peel(
    hs: Seq<u64>,
    bl: u32,
    g: Progress,
    sets: Seq<XorSet>,
    stack: Seq<KeyIndex>,
    k: int,
    c: u32,
)
    requires
        bl > 0,
        sets_ok(hs, bl, g.alive, g.used, sets),
        peel_ok(hs, bl, g, stack),
        0 <= k < hs.len(),
        g.alive.contains(k),
        touches(hs[k], bl, c as int),
    ensures
        peel_ok(hs, bl, advanced(g, k, c as int), stack.push(KeyIndex { hash: hs[k], index: c })),
{
    let n = hs.len() as int;
    let g2 = advanced(g, k, c as int);
    let stack2 = stack.push(KeyIndex { hash: hs[k], index: c });
    let last = g.order.len() as int;
    assert forall|p: int, q: int| 0 <= p < q < g2.order.len() implies !touches(
        hs[#[trigger] g2.order[q]],
        bl,
        #[trigger] g2.slots[p],
    ) by {
        if q == last {
            let x = g.slots[p];
            assert(0 <= g.order[p] < hs.len());
            lemma_slot_ranges(hs[g.order[p]], bl);
            assert(g.used.contains(x));
            assert(sets[x].count == 1);
            lemma_count_zero(hs, g.alive, bl, x, n);
        } else {
            assert(g2.order[q] == g.order[q]);
            assert(g2.slots[p] == g.slots[p]);
        }
    }
    assert forall|p: int| 0 <= p < g2.order.len() implies 0 <= #[trigger] g2.order[p] < hs.len()
        && touches(hs[g2.order[p]], bl, g2.slots[p]) by {
        if p < last {
            assert(g2.order[p] == g.order[p]);
        }
    }
    assert(is_peeling(hs, bl, g2.order, g2.slots));
    assert forall|p: int| 0 <= p < g2.order.len() implies {
        &&& !g2.alive.contains(#[trigger] g2.order[p])
        &&& g2.used.contains(g2.slots[p])
        &&& stack2[p].hash == hs[g2.order[p]]
        &&& stack2[p].index == g2.slots[p]
    } by {
        if p < last {
            assert(g2.order[p] == g.order[p]);
        }
    }
    assert forall|j: int| 0 <= j < hs.len() && !g2.alive.contains(j) implies #[trigger]
        g2.order.contains(j) by {
        if j == k {
            assert(g2.order[last] == j);
        } else {
            assert(g.order.contains(j));
            let p = choose|p: int| 0 <= p < g.order.len() && g.order[p] == j;
            assert(g2.order[p] == j);
        }
    }
}

/// The queue of a segment stays right when its last entry is taken off, be the
/// entry stale or its slot now used, as long as the segment's accumulators
/// stay as they are.
proof fn lemma_queue_popped(
    sets: Seq<XorSet>,
    after: Seq<XorSet>,
    used: Set<int>,
    used2: Set<int>,
    bl: u32,
    offset: int,
    queue: Seq<KeyIndex>,
)
    requires
        queue.len() > 0,
        queue_ok(sets, used, bl, offset, queue),
        queue_complete(sets, used, bl, offset, queue),
        forall|x: int| offset <= x < offset + bl ==> #[trigger] after[x] == sets[x],
        used2 == used || used2 == used.insert(offset + queue.last().index),
        sets[offset + queue.last().index].count != 1 || used2.contains(
            offset + queue.last().index,
        ),
    ensures
        queue_ok(after, used2, bl, offset, queue.drop_last()),
        queue_complete(after, used2, bl, offset, queue.drop_last()),
{
    let rest = queue.drop_last();
    let c = offset + queue.last().index;
    assert forall|p: int| 0 <= p < rest.len() implies {
        let e = #[trigger] rest[p];
        &&& e.index < bl
        &&& after[offset + e.index].count <= 1
        &&& after[offset + e.index].count == 1 ==> !used2.contains(offset + e.index)
            && after[offset + e.index].xor_mask == e.hash
    } by {
        assert(rest[p] == queue[p]);
        assert(queue[p].index != queue[queue.len() - 1].index);
    }
    assert forall|p: int, r: int| 0 <= p < r < rest.len() implies (#[trigger] rest[p]).index != (
    #[trigger] rest[r]).index by {
        assert(rest[p] == queue[p]);
        assert(rest[r] == queue[r]);
    }
    assert forall|x: int|
        offset <= x < offset + bl && (#[trigger] after[x]).count == 1 && !used2.contains(
            x,
        ) implies exists|p: int| 0 <= p < rest.len() && offset + (#[trigger] rest[p]).index == x by {
        assert(sets[x].count == 1);
        let p = choose|p: int| 0 <= p < queue.len() && offset + (#[trigger] queue[p]).index == x;
        assert(rest[p] == queue[p]);
    }
}

/// The queue of a segment stays right when one unused slot of the segment
/// with a positive count is released and queued if its count becomes one.
proof fn lemma_queue_released(
    sets: Seq<XorSet>,
    after: Seq<XorSet>,
    used: Set<int>,
    used2: Set<int>,
    bl: u32,
    offset: int,
    queue: Seq<KeyIndex>,
    index: u32,
    hash: u64,
)
    requires
        index < bl,
        0 <= offset,
        offset + bl <= sets.len(),
        after.len() == sets.len(),
        queue_ok(sets, used, bl, offset, queue),
        queue_complete(sets, used, bl, offset, queue),
        sets[offset + index].count >= 1,
        !used.contains(offset + index),
        after[offset + index] == released(sets[offset + index], hash),
        forall|x: int|
            offset <= x < offset + bl && x != offset + index ==> #[trigger] after[x] == sets[x],
        forall|x: int| offset <= x < offset + bl ==> used2.contains(x) == used.contains(x),
    ensures
        queue_ok(after, used2, bl, offset, requeued(queue, sets[offset + index], index, hash)),
        queue_complete(
            after,
            used2,
            bl,
            offset,
            requeued(queue, sets[offset + index], index, hash),
        ),
{
    let next = requeued(queue, sets[offset + index], index, hash);
    let c = offset + index;
    assert forall|p: int| 0 <= p < next.len() implies {
        let e = #[trigger] next[p];
        &&& e.index < bl
        &&& after[offset + e.index].count <= 1
        &&& after[offset + e.index].count == 1 ==> !used2.contains(offset + e.index)
            && after[offset + e.index].xor_mask == e.hash
    } by {
        if p < queue.len() {
            assert(next[p] == queue[p]);
        }
    }
    assert forall|p: int, r: int| 0 <= p < r < next.len() implies (#[trigger] next[p]).index != (
    #[trigger] next[r]).index by {
        assert(next[p] == queue[p]);
        if r < queue.len() {
            assert(next[r] == queue[r]);
        }
    }
    assert forall|x: int|
        offset <= x < offset + bl && (#[trigger] after[x]).count == 1 && !used2.contains(
            x,
        ) implies exists|p: int| 0 <= p < next.len() && offset + (#[trigger] next[p]).index == x by {
        if x == c {
            assert(next[next.len() - 1].index == index);
        } else {
            assert(sets[x].count == 1);
            let p = choose|p: int|
                0 <= p < queue.len() && offset + (#[trigger] queue[p]).index == x;
            assert(next[p] == queue[p]);
        }
    }
}

/// The accumulators after the first `n` keys count, for every slot, the keys
/// among them that touch it.
pub proof fn lemma_accumulate_ok(hs: Seq<u64>, bl: u32, n: int)
    requires
        bl > 0,
        0 <= n <= hs.len() <= u32::MAX,
    ensures
        spec_accumulate(hs, bl, n).len() == 3 * bl,
        forall|c: int|
            0 <= c < 3 * bl ==> (#[trigger] spec_accumulate(hs, bl, n)[c]).count == touch_count(
                hs,
                set_int_range(0, hs.len() as int),
                bl,
                c,
                n,
            ) && spec_accumulate(hs, bl, n)[c].xor_mask == touch_xor(
                hs,
                set_int_range(0, hs.len() as int),
                bl,
                c,
                n,
            ),
    decreases n,
{
    if n > 0 {
        let all = set_int_range(0, hs.len() as int);
        let h = hs[n - 1];
        lemma_accumulate_ok(hs, bl, n - 1);
        lemma_slot_ranges(h, bl);
        lemma_touch_count_bound(hs, all, bl, slot0(h, bl), n - 1);
        lemma_touch_count_bound(hs, all, bl, slot1(h, bl), n - 1);
        lemma_touch_count_bound(hs, all, bl, slot2(h, bl), n - 1);
        let before = spec_accumulate(hs, bl, n - 1);
        let after = spec_accumulate(hs, bl, n);
        assert(after == referred(
            referred(referred(before, slot0(h, bl), h), slot1(h, bl), h),
            slot2(h, bl),
            h,
        ));
        assert forall|c: int| 0 <= c < 3 * bl implies (#[trigger] after[c]).count == touch_count(
            hs,
            all,
            bl,
            c,
            n,
        ) && after[c].xor_mask == touch_xor(hs, all, bl, c, n) by {
            assert(before[c].count >= 0);
        }
    }
}

/// The queue that the first `n` slots of a segment give holds exactly their
/// slots with count one, each once.
pub proof fn lemma_seed_queue_ok(sets: Seq<XorSet>, bl: u32, offset: int, n: int)
    requires
        0 <= offset,
        0 <= n <= bl,
        offset + bl <= sets.len(),
    ensures
        queue_ok(sets, Set::empty(), bl, offset, spec_seed_queue(sets, offset, n)),
        spec_seed_queue(sets, offset, n).len() <= n,
        forall|p: int|
            0 <= p < spec_seed_queue(sets, offset, n).len() ==> (#[trigger] spec_seed_queue(
                sets,
                offset,
                n,
            )[p]).index < n,
        forall|c: int|
            offset <= c < offset + n && (#[trigger] sets[c]).count == 1 ==> exists|p: int|
                0 <= p < spec_seed_queue(sets, offset, n).len() && offset + (
                #[trigger] spec_seed_queue(sets, offset, n)[p]).index == c,
    decreases n,
{
    if n > 0 {
        lemma_seed_queue_ok(sets, bl, offset, n - 1);
        let before = spec_seed_queue(sets, offset, n - 1);
        let queue = spec_seed_queue(sets, offset, n);
        assert forall|c: int|
            offset <= c < offset + n && (#[trigger] sets[c]).count == 1 implies exists|p: int|
            0 <= p < queue.len() && offset + (#[trigger] queue[p]).index == c by {
            if c < offset + n - 1 {
                let p = choose|p: int|
                    0 <= p < before.len() && offset + (#[trigger] before[p]).index == c;
                assert(queue[p] == before[p]);
            } else {
                assert(queue[queue.len() - 1].index == n - 1);
            }
        }
        assert forall|p: int| 0 <= p < queue.len() implies (#[trigger] queue[p]).index < n by {
            if p < before.len() {
                assert(queue[p] == before[p]);
            }
        }
        assert forall|p: int, r: int| 0 <= p < r < queue.len() implies (#[trigger] queue[p]).index
            != (#[trigger] queue[r]).index by {
            assert(queue[p] == before[p]);
            if r < before.len() {
                assert(queue[r] == before[r]);
            }
        }
        assert forall|p: int| 0 <= p < queue.len() implies {
            let e = #[trigger] queue[p];
            &&& e.index < bl
            &&& sets[offset + e.index].count <= 1
            &&& sets[offset + e.index].count == 1 ==> !Set::<int>::empty().contains(
                offset + e.index,
            ) && sets[offset + e.index].xor_mask == e.hash
        } by {
            if p < before.len() {
                assert(queue[p] == before[p]);
            }
        }
    }
}

/// Peeling starts in a state of which the invariant holds, with every key in
/// play and no more queue entries than slots.
pub proof fn lemma_start_ok(hs: Seq<u64>, bl: u32) -> (g: Progress)
    requires
        bl > 0,
        3 * bl <= u32::MAX,
        hs.len() <= u32::MAX,
    ensures
        inv(hs, bl, spec_start(hs, bl), g),
        g.alive.len() == hs.len(),
        spec_start(hs, bl).q0.len() <= bl,
        spec_start(hs, bl).q1.len() <= bl,
        spec_start(hs, bl).q2.len() <= bl,
{
    let n = hs.len() as int;
    let g = Progress {
        alive: set_int_range(0, n),
        used: Set::empty(),
        order: Seq::empty(),
        slots: Seq::empty(),
    };
    let st = spec_start(hs, bl);
    lemma_int_range(0, n);
    lemma_accumulate_ok(hs, bl, n);
    lemma_seed_queue_ok(st.sets, bl, 0, bl as int);
    lemma_seed_queue_ok(st.sets, bl, bl as int, bl as int);
    lemma_seed_queue_ok(st.sets, bl, 2 * bl, bl as int);
    assert(sets_ok(hs, bl, g.alive, g.used, st.sets));
    assert(peel_ok(hs, bl, g, st.stack));
    g
}

/// One entry taken off the queue of a segment keeps the invariant. An entry
/// that removes its key finds a positive count in the key's two other slots.
pub proof fn lemma_drain_step(seg: u32, bl: u32, hs: Seq<u64>, st: PeelState, g: Progress) -> (g2:
    Progress)
    requires
        seg <= 2,
        bl > 0,
        3 * bl <= u32::MAX,
        inv(hs, bl, st, g),
        own_queue(seg, st).len() > 0,
    ensures
        inv(hs, bl, drain_next(seg, bl, st), g2),
        own_queue(seg, st).last().index < bl,
        st.sets.len() == 3 * bl,
        st.sets[own_offset(seg, bl) + own_queue(seg, st).last().index].count != 0 ==> {
            &&& st.sets[low_slot(seg, own_queue(seg, st).last().hash, bl)].count >= 1
            &&& st.sets[high_slot(seg, own_queue(seg, st).last().hash, bl)].count >= 1
        },
        own_queue(seg, drain_next(seg, bl, st)) == own_queue(seg, st).drop_last(),
        low_queue(seg, drain_next(seg, bl, st)).len() >= low_queue(seg, st).len(),
        high_queue(seg, drain_next(seg, bl, st)).len() >= high_queue(seg, st).len(),
        3 * g2.alive.len() + low_queue(seg, drain_next(seg, bl, st)).len() + high_queue(
            seg,
            drain_next(seg, bl, st),
        ).len() <= 3 * g.alive.len() + low_queue(seg, st).len() + high_queue(seg, st).len(),
{
    let own = own_queue(seg, st);
    let low = low_queue(seg, st);
    let high = high_queue(seg, st);
    let offset = own_offset(seg, bl);
    let low_at = low_offset(seg, bl);
    let high_at = high_offset(seg, bl);
    let e = own.last();
    let at = offset + e.index;
    let n = hs.len() as int;
    assert(queue_ok(st.sets, g.used, bl, offset, own));
    assert(queue_ok(st.sets, g.used, bl, low_at, low));
    assert(queue_ok(st.sets, g.used, bl, high_at, high));
    assert(queue_complete(st.sets, g.used, bl, offset, own));
    assert(queue_complete(st.sets, g.used, bl, low_at, low));
    assert(queue_complete(st.sets, g.used, bl, high_at, high));
    assert(e == own[own.len() - 1]);
    if st.sets[at].count == 0 {
        lemma_queue_popped(st.sets, st.sets, g.used, g.used, bl, offset, own);
        g
    } else {
        let k = lemma_single_toucher(hs, g.alive, bl, at, n);
        lemma_slot_ranges(hs[k], bl);
        let ca = low_slot(seg, e.hash, bl);
        let cb = high_slot(seg, e.hash, bl);
        lemma_live_slot(hs, bl, g, st.sets, k, ca);
        lemma_live_slot(hs, bl, g, st.sets, k, cb);
        let after = st.sets.update(ca, released(st.sets[ca], e.hash)).update(
            cb,
            released(st.sets[cb], e.hash),
        );
        let g2 = advanced(g, k, at);
        lemma_step_sets(hs, bl, g, st.sets, after, k, at, ca, cb);
        lemma_step_peel(hs, bl, g, st.sets, st.stack, k, at as u32);
        lemma_queue_popped(st.sets, after, g.used, g2.used, bl, offset, own);
        lemma_queue_released(
            st.sets,
            after,
            g.used,
            g2.used,
            bl,
            low_at,
            low,
            (ca - low_at) as u32,
            e.hash,
        );
        lemma_queue_released(
            st.sets,
            after,
            g.used,
            g2.used,
            bl,
            high_at,
            high,
            (cb - high_at) as u32,
            e.hash,
        );
        g2
    }
}

/// Working off the queue of a segment keeps the invariant, empties that
/// queue, lets the two other queues only grow, and by no more than three for
/// each key removed.
pub proof fn lemma_drain_ok(seg: u32, bl: u32, hs: Seq<u64>, st: PeelState, g: Progress) -> (g2:
    Progress)
    requires
        seg <= 2,
        bl > 0,
        3 * bl <= u32::MAX,
        inv(hs, bl, st, g),
    ensures
        inv(hs, bl, spec_drain(seg, bl, st), g2),
        own_queue(seg, spec_drain(seg, bl, st)).len() == 0,
        low_queue(seg, spec_drain(seg, bl, st)).len() >= low_queue(seg, st).len(),
        high_queue(seg, spec_drain(seg, bl, st)).len() >= high_queue(seg, st).len(),
        3 * g2.alive.len() + low_queue(seg, spec_drain(seg, bl, st)).len() + high_queue(
            seg,
            spec_drain(seg, bl, st),
        ).len() <= 3 * g.alive.len() + low_queue(seg, st).len() + high_queue(seg, st).len(),
    decreases own_queue(seg, st).len(),
{
    if own_queue(seg, st).len() == 0 {
        g
    } else {
        let g1 = lemma_drain_step(seg, bl, hs, st, g);
        lemma_drain_ok(seg, bl, hs, drain_next(seg, bl, st), g1)
    }
}

/// Rounds keep the invariant, and enough of them leave all three queues
/// empty.
pub proof fn lemma_rounds_ok(bl: u32, hs: Seq<u64>, st: PeelState, g: Progress, rounds: nat) -> (g2:
    Progress)
    requires
        bl > 0,
        3 * bl <= u32::MAX,
        inv(hs, bl, st, g),
        rounds >= 3 * g.alive.len() + st.q0.len() + st.q1.len() + st.q2.len(),
    ensures
        inv(hs, bl, spec_rounds(bl, st, rounds), g2),
        spec_rounds(bl, st, rounds).q0.len() == 0,
        spec_rounds(bl, st, rounds).q1.len() == 0,
        spec_rounds(bl, st, rounds).q2.len() == 0,
    decreases rounds,
{
    if rounds == 0 || (st.q0.len() == 0 && st.q1.len() == 0 && st.q2.len() == 0) {
        g
    } else {
        let ga = lemma_drain_ok(0, bl, hs, st, g);
        let sa = spec_drain(0, bl, st);
        let gb = lemma_drain_ok(1, bl, hs, sa, ga);
        let sb = spec_drain(1, bl, sa);
        let gc = lemma_drain_ok(2, bl, hs, sb, gb);
        let sc = spec_drain(2, bl, sb);
        lemma_rounds_ok(bl, hs, sc, gc, (rounds - 1) as nat)
    }
}

/// Back-substitution makes the three slots of every key on the stack xor to
/// the key's fingerprint, and writes to no slot that no key touches.
pub proof fn lemma_assign_ok(
    hs: Seq<u64>,
    bl: u32,
    g: Progress,
    stack: Seq<KeyIndex>,
    fp: Seq<u8>,
)
    requires
        bl > 0,
        3 * bl <= u32::MAX,
        is_peeling(hs, bl, g.order, g.slots),
        stack.len() <= g.order.len(),
        forall|p: int|
            0 <= p < stack.len() ==> (#[trigger] stack[p]).hash == hs[g.order[p]] && stack[p].index
                == g.slots[p],
        fp.len() == 3 * bl,
        forall|q: int|
            stack.len() <= q < g.order.len() ==> fingerprint_matches(
                fp,
                bl,
                hs[#[trigger] g.order[q]],
            ),
        forall|c: int|
            0 <= c < 3 * bl && #[trigger] fp[c] != 0 ==> exists|k: int|
                0 <= k < hs.len() && touches(#[trigger] hs[k], bl, c),
    ensures
        spec_assign(stack, bl, fp).len() == 3 * bl,
        forall|q: int|
            0 <= q < g.order.len() ==> fingerprint_matches(
                spec_assign(stack, bl, fp),
                bl,
                hs[#[trigger] g.order[q]],
            ),
        forall|c: int|
            0 <= c < 3 * bl && #[trigger] spec_assign(stack, bl, fp)[c] != 0 ==> exists|k: int|
                0 <= k < hs.len() && touches(#[trigger] hs[k], bl, c),
    decreases stack.len(),
{
    if stack.len() > 0 {
        let p = stack.len() - 1;
        let ki = stack.last();
        assert(ki == stack[p]);
        let h = hs[g.order[p]];
        lemma_slot_ranges(h, bl);
        let f = spec_fingerprint(h) as u8;
        let val = spec_slot_value(fp, bl, ki);
        let next = fp.update(ki.index as int, val);
        let rest = stack.drop_last();
        if ki.index < bl {
            let a = fp[slot1(h, bl)];
            let b = fp[slot2(h, bl)];
            assert(((val ^ a) ^ b) == f) by (bit_vector)
                requires
                    val == f ^ (a ^ b),
            ;
        } else if ki.index < 2 * bl {
            let a = fp[slot0(h, bl)];
            let b = fp[slot2(h, bl)];
            assert(((a ^ val) ^ b) == f) by (bit_vector)
                requires
                    val == f ^ (a ^ b),
            ;
        } else {
            let a = fp[slot0(h, bl)];
            let b = fp[slot1(h, bl)];
            assert(((a ^ b) ^ val) == f) by (bit_vector)
                requires
                    val == f ^ (a ^ b),
            ;
        }
        assert(fingerprint_matches(next, bl, h));
        assert forall|q: int| rest.len() <= q < g.order.len() implies fingerprint_matches(
            next,
            bl,
            hs[#[trigger] g.order[q]],
        ) by {
            if q > p {
                let hq = hs[g.order[q]];
                lemma_slot_ranges(hq, bl);
                assert(!touches(hq, bl, g.slots[p]));
                assert(fingerprint_matches(fp, bl, hq));
            }
        }
        assert forall|c: int| 0 <= c < 3 * bl && #[trigger] next[c] != 0 implies exists|k: int|
            0 <= k < hs.len() && touches(#[trigger] hs[k], bl, c) by {
            if c == ki.index {
                assert(touches(hs[g.order[p]], bl, c));
            } else {
                assert(fp[c] != 0);
            }
        }
        assert forall|q: int| 0 <= q < rest.len() implies (#[trigger] rest[q]).hash
            == hs[g.order[q]] && rest[q].index == g.slots[q] by {
            assert(rest[q] == stack[q]);
        }
        lemma_assign_ok(hs, bl, g, rest, next);
    }
}

/// The construction is right. Peeling removes every key exactly when the key
/// set peels. Every entry of its stack names a slot of the fingerprint array.
/// The fingerprints fill the array, are zero in every slot that no key
/// touches, and where the key set peels, the three slots of every key xor to
/// the key's fingerprint.
pub proof fn lemma_model_sound(hs: Seq<u64>, bl: u32)
    requires
        bl > 0,
        3 * bl <= u32::MAX,
        hs.len() <= u32::MAX,
    ensures
        spec_peel(hs, bl).len() == hs.len() <==> peelable(hs, bl),
        spec_peel(hs, bl).len() <= hs.len(),
        forall|p: int|
            0 <= p < spec_peel(hs, bl).len() ==> (#[trigger] spec_peel(hs, bl)[p]).index < 3 * bl,
        spec_fingerprints(hs, bl).len() == 3 * bl,
        peelable(hs, bl) ==> forall|k: int|
            0 <= k < hs.len() ==> fingerprint_matches(
                spec_fingerprints(hs, bl),
                bl,
                #[trigger] hs[k],
            ),
        forall|c: int|
            0 <= c < 3 * bl && #[trigger] spec_fingerprints(hs, bl)[c] != 0 ==> exists|k: int|
                0 <= k < hs.len() && touches(#[trigger] hs[k], bl, c),
{
    let n = hs.len() as int;
    let g0 = lemma_start_ok(hs, bl);
    let rounds = 3 * hs.len() + 3 * bl as nat;
    let g = lemma_rounds_ok(bl, hs, spec_start(hs, bl), g0, rounds);
    let st = spec_rounds(bl, spec_start(hs, bl), rounds);
    let stack = spec_peel(hs, bl);
    assert(stack == st.stack);
    assert forall|p: int| 0 <= p < stack.len() implies (#[trigger] stack[p]).index < 3 * bl by {
        assert(0 <= g.order[p] < hs.len());
        lemma_slot_ranges(hs[g.order[p]], bl);
    }
    if stack.len() == n {
        g.alive.lemma_len0_is_empty();
        assert(covers(g.order, hs.len()));
        assert(is_peeling(hs, bl, g.order, g.slots));
    } else {
        let k0 = g.alive.choose();
        assert(g.alive.contains(k0));
        assert forall|c: int| 0 <= c < 3 * bl implies #[trigger] touch_count(
            hs,
            g.alive,
            bl,
            c,
            n,
        ) != 1 by {
            if touch_count(hs, g.alive, bl, c, n) == 1 {
                assert(st.sets[c].count == 1);
                assert(!g.used.contains(c));
            }
        }
        lemma_stuck_not_peelable(hs, bl, g.alive, k0);
    }
    let zeros = Seq::new((3 * bl) as nat, |c: int| 0u8);
    lemma_assign_ok(hs, bl, g, stack, zeros);
    if peelable(hs, bl) {
        let fp = spec_fingerprints(hs, bl);
        assert forall|k: int| 0 <= k < hs.len() implies fingerprint_matches(
            fp,
            bl,
            #[trigger] hs[k],
        ) by {
            assert(g.order.contains(k));
            let q = choose|q: int| 0 <= q < g.order.len() && g.order[q] == k;
            assert(fingerprint_matches(fp, bl, hs[g.order[q]]));
        }
    }
}

} // verus!
