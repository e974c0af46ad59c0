//! The construction step by step, as functions on sequences: what the
//! accumulators, the queues, the stack and the fingerprints are after each
//! step. The executable construction computes exactly these.

use vstd::prelude::*;
use crate::construct::{KeyIndex, XorSet};
use crate::hashing::spec_fingerprint;
use crate::peel::{slot0, slot1, slot2};

verus! {

/// Where segment `seg` starts in the fingerprint array.
pub open spec fn own_offset(seg: u32, bl: u32) -> int {
    if seg == 0 {
        0
    } else if seg == 1 {
        bl as int
    } else {
        2 * bl
    }
}

/// Where the lower of the two other segments starts.
pub open spec fn low_offset(seg: u32, bl: u32) -> int {
    if seg == 0 {
        bl as int
    } else {
        0
    }
}

/// Where the higher of the two other segments starts.
pub open spec fn high_offset(seg: u32, bl: u32) -> int {
    if seg == 2 {
        bl as int
    } else {
        2 * bl
    }
}

/// The accumulator of a slot after a key with master hash `hash` has left it.
pub open spec fn released(s: XorSet, hash: u64) -> XorSet {
    XorSet { xor_mask: s.xor_mask ^ hash, count: (s.count - 1) as u32 }
}

/// The queue of a segment after the slot `index` of that segment was released.
pub open spec fn requeued(queue: Seq<KeyIndex>, before: XorSet, index: u32, hash: u64) -> Seq<
    KeyIndex,
> {
    if before.count == 2 {
        queue.push(KeyIndex { hash: before.xor_mask ^ hash, index })
    } else {
        queue
    }
}

/// The arrays of a construction attempt: the accumulators of all slots, the
/// queue of each segment, and the stack of removed keys.
pub struct PeelState {
    pub sets: Seq<XorSet>,
    pub q0: Seq<KeyIndex>,
    pub q1: Seq<KeyIndex>,
    pub q2: Seq<KeyIndex>,
    pub stack: Seq<KeyIndex>,
}

/// The accumulators after one more key refers to slot `c`.
pub open spec fn referred(sets: Seq<XorSet>, c: int, hash: u64) -> Seq<XorSet> {
    sets.update(c, XorSet { xor_mask: sets[c].xor_mask ^ hash, count: (sets[c].count + 1) as u32 })
}

/// The accumulators after the first `n` keys have been added to their three
/// slots.
pub open spec fn spec_accumulate(hs: Seq<u64>, bl: u32, n: int) -> Seq<XorSet>
    decreases n,
{
    if n <= 0 {
        Seq::new((3 * bl) as nat, |c: int| XorSet { xor_mask: 0, count: 0 })
    } else {
        let h = hs[n - 1];
        referred(
            referred(referred(spec_accumulate(hs, bl, n - 1), slot0(h, bl), h), slot1(h, bl), h),
            slot2(h, bl),
            h,
        )
    }
}

/// The queue of the segment at `offset` after its first `n` slots have been
/// looked at: those whose count is one, in rising order.
pub open spec fn spec_seed_queue(sets: Seq<XorSet>, offset: int, n: int) -> Seq<KeyIndex>
    decreases n,
{
    if n <= 0 {
        Seq::empty()
    } else {
        let rest = spec_seed_queue(sets, offset, n - 1);
        if sets[offset + n - 1].count == 1 {
            rest.push(KeyIndex { hash: sets[offset + n - 1].xor_mask, index: (n - 1) as u32 })
        } else {
            rest
        }
    }
}

/// The state in which peeling starts.
pub open spec fn spec_start(hs: Seq<u64>, bl: u32) -> PeelState {
    let sets = spec_accumulate(hs, bl, hs.len() as int);
    PeelState {
        sets,
        q0: spec_seed_queue(sets, 0, bl as int),
        q1: spec_seed_queue(sets, bl as int, bl as int),
        q2: spec_seed_queue(sets, 2 * bl, bl as int),
        stack: Seq::empty(),
    }
}

/// The state whose queue of segment `seg` is `own`, and whose queues of the
/// two other segments are `low` and `high`, the lower segment first.
pub open spec fn arrange(
    seg: u32,
    sets: Seq<XorSet>,
    own: Seq<KeyIndex>,
    low: Seq<KeyIndex>,
    high: Seq<KeyIndex>,
    stack: Seq<KeyIndex>,
) -> PeelState {
    if seg == 0 {
        PeelState { sets, q0: own, q1: low, q2: high, stack }
    } else if seg == 1 {
        PeelState { sets, q0: low, q1: own, q2: high, stack }
    } else {
        PeelState { sets, q0: low, q1: high, q2: own, stack }
    }
}

/// The queue of segment `seg`.
pub open spec fn own_queue(seg: u32, st: PeelState) -> Seq<KeyIndex> {
    if seg == 0 {
        st.q0
    } else if seg == 1 {
        st.q1
    } else {
        st.q2
    }
}

/// The queue of the lower of the two other segments.
pub open spec fn low_queue(seg: u32, st: PeelState) -> Seq<KeyIndex> {
    if seg == 0 {
        st.q1
    } else {
        st.q0
    }
}

/// The queue of the higher of the two other segments.
pub open spec fn high_queue(seg: u32, st: PeelState) -> Seq<KeyIndex> {
    if seg == 2 {
        st.q1
    } else {
        st.q2
    }
}

/// The slot of a master hash in the lower of the two segments other than
/// `seg`.
pub open spec fn low_slot(seg: u32, hash: u64, bl: u32) -> int {
    if seg == 0 {
        slot1(hash, bl)
    } else {
        slot0(hash, bl)
    }
}

/// The slot of a master hash in the higher of the two segments other than
/// `seg`.
pub open spec fn high_slot(seg: u32, hash: u64, bl: u32) -> int {
    if seg == 2 {
        slot1(hash, bl)
    } else {
        slot2(hash, bl)
    }
}

/// The state after the entry `e`, already taken off the queue of segment
/// `seg`, has removed its key: the key is on the stack with its slot, and its
/// two other slots are released.
pub open spec fn spec_remove(seg: u32, bl: u32, st: PeelState, e: KeyIndex) -> PeelState {
    let ca = low_slot(seg, e.hash, bl);
    let cb = high_slot(seg, e.hash, bl);
    arrange(
        seg,
        st.sets.update(ca, released(st.sets[ca], e.hash)).update(
            cb,
            released(st.sets[cb], e.hash),
        ),
        own_queue(seg, st),
        requeued(
            low_queue(seg, st),
            st.sets[ca],
            (ca - low_offset(seg, bl)) as u32,
            e.hash,
        ),
        requeued(
            high_queue(seg, st),
            st.sets[cb],
            (cb - high_offset(seg, bl)) as u32,
            e.hash,
        ),
        st.stack.push(KeyIndex { hash: e.hash, index: (own_offset(seg, bl) + e.index) as u32 }),
    )
}

/// The state after the last entry of the queue of segment `seg` has been
/// taken off: an entry whose slot has count zero is dropped, every other
/// entry removes its key.
pub open spec fn drain_next(seg: u32, bl: u32, st: PeelState) -> PeelState {
    let own = own_queue(seg, st);
    let e = own.last();
    let popped = arrange(
        seg,
        st.sets,
        own.drop_last(),
        low_queue(seg, st),
        high_queue(seg, st),
        st.stack,
    );
    if st.sets[own_offset(seg, bl) + e.index].count == 0 {
        popped
    } else {
        spec_remove(seg, bl, popped, e)
    }
}

/// The state after the queue of segment `seg` has been worked off from its
/// end.
pub open spec fn spec_drain(seg: u32, bl: u32, st: PeelState) -> PeelState
    decreases own_queue(seg, st).len(),
{
    if own_queue(seg, st).len() == 0 {
        st
    } else {
        spec_drain(seg, bl, drain_next(seg, bl, st))
    }
}

/// The state after at most `rounds` rounds, each of which works off the three
/// queues in turn, ended early by a round that finds all three empty.
pub open spec fn spec_rounds(bl: u32, st: PeelState, rounds: nat) -> PeelState
    decreases rounds,
{
    if rounds == 0 || (st.q0.len() == 0 && st.q1.len() == 0 && st.q2.len() == 0) {
        st
    } else {
        spec_rounds(
            bl,
            spec_drain(2, bl, spec_drain(1, bl, spec_drain(0, bl, st))),
            (rounds - 1) as nat,
        )
    }
}

/// The stack that peeling leaves: the removed keys in the order of their
/// removal. No more rounds are needed than three for each key and slot.
pub open spec fn spec_peel(hs: Seq<u64>, bl: u32) -> Seq<KeyIndex> {
    spec_rounds(bl, spec_start(hs, bl), 3 * hs.len() + 3 * bl as nat).stack
}

/// The byte that makes the three slots of a stack entry xor to the
/// fingerprint of its hash, given the bytes of its two other slots.
pub open spec fn spec_slot_value(fp: Seq<u8>, bl: u32, ki: KeyIndex) -> u8 {
    let f = spec_fingerprint(ki.hash) as u8;
    if ki.index < bl {
        f ^ (fp[slot1(ki.hash, bl)] ^ fp[slot2(ki.hash, bl)])
    } else if ki.index < 2 * bl {
        f ^ (fp[slot0(ki.hash, bl)] ^ fp[slot2(ki.hash, bl)])
    } else {
        f ^ (fp[slot0(ki.hash, bl)] ^ fp[slot1(ki.hash, bl)])
    }
}

/// The fingerprints after the stack has been taken off from its top, each
/// entry's slot getting its value.
pub open spec fn spec_assign(stack: Seq<KeyIndex>, bl: u32, fp: Seq<u8>) -> Seq<u8>
    decreases stack.len(),
{
    if stack.len() == 0 {
        fp
    } else {
        let ki = stack.last();
        spec_assign(stack.drop_last(), bl, fp.update(ki.index as int, spec_slot_value(fp, bl, ki)))
    }
}

/// The fingerprints that the construction writes for keys with the master
/// hashes `hs`.
pub open spec fn spec_fingerprints(hs: Seq<u64>, bl: u32) -> Seq<u8> {
    spec_assign(spec_peel(hs, bl), bl, Seq::new((3 * bl) as nat, |c: int| 0u8))
}

} // verus!
