//! Construction of a filter: the accumulation of the keys into slot
//! accumulators, the peeling that orders the keys, and the back-substitution
//! that writes the fingerprints.

use vstd::prelude::*;
use vstd::set_lib::set_int_range;
use crate::hashing::{fingerprint, mixsplit, reduce, spec_mixsplit};
use crate::model::{
    arrange, drain_next, high_offset, low_offset, own_offset, referred, released, requeued,
    spec_accumulate, spec_assign, spec_drain, spec_peel, spec_rounds, spec_seed_queue,
    spec_slot_value, spec_start, PeelState,
};
use crate::peel::{lemma_slot_ranges, lemma_touch_count_bound, master_hashes, slot0, slot1, slot2};
use crate::soundness::{
    consistent, inv, lemma_accumulate_ok, lemma_drain_ok, lemma_drain_step, lemma_start_ok,
    Progress,
};

verus! {

/// The accumulator of a slot: the xor of the master hashes of the keys that
/// still refer to it, and their number.
#[derive(Clone, Copy)]
pub struct XorSet {
    pub xor_mask: u64,
    pub count: u32,
}

/// The master hash of a key with its index in each of the three segments.
pub struct Hashes {
    pub h: u64,
    pub h0: u32,
    pub h1: u32,
    pub h2: u32,
}

/// A master hash with the index of a slot: in a queue the index within the
/// queue's segment, on the stack the index into the whole fingerprint array.
#[derive(Clone, Copy)]
pub struct KeyIndex {
    pub hash: u64,
    pub index: u32,
}

/// The index of a master hash in the first segment.
pub fn geth0(hash: u64, block_length: u32) -> (r: u32)
    ensures
        r == slot0(hash, block_length),
        block_length > 0 ==> r < block_length,
{
    let r0 = hash as u32;
    reduce(r0, block_length)
}

/// The index of a master hash in the second segment.
pub fn geth1(hash: u64, block_length: u32) -> (r: u32)
    ensures
        block_length + r == slot1(hash, block_length),
        block_length > 0 ==> r < block_length,
{
    let r1 = ((hash << 21) | (hash >> 43)) as u32;
    reduce(r1, block_length)
}

/// The index of a master hash in the third segment.
pub fn geth2(hash: u64, block_length: u32) -> (r: u32)
    ensures
        2 * block_length + r == slot2(hash, block_length),
        block_length > 0 ==> r < block_length,
{
    let r2 = ((hash << 42) | (hash >> 22)) as u32;
    reduce(r2, block_length)
}

/// The master hash of a key digest under a seed, with its three indices.
pub fn geth0h1h2(k: u64, seed: u64, block_length: u32) -> (hs: Hashes)
    ensures
        hs.h == spec_mixsplit(k, seed),
        hs.h0 == slot0(hs.h, block_length),
        block_length + hs.h1 == slot1(hs.h, block_length),
        2 * block_length + hs.h2 == slot2(hs.h, block_length),
        block_length > 0 ==> hs.h0 < block_length && hs.h1 < block_length && hs.h2
            < block_length,
{
    let h = mixsplit(k, seed);
    Hashes {
        h,
        h0: geth0(h, block_length),
        h1: geth1(h, block_length),
        h2: geth2(h, block_length),
    }
}

/// The segmentation pass: every key is added to its slot in each segment.
pub fn accumulate(keys: &[u64], seed: u64, block_length: u32) -> (sets: Vec<XorSet>)
    requires
        block_length > 0,
        3 * block_length <= u32::MAX,
        keys.len() <= u32::MAX,
    ensures
        sets@ == spec_accumulate(master_hashes(keys@, seed), block_length, keys@.len() as int),
        sets.len() == 3 * block_length,
{
    let bl = block_length as usize;
    let mut sets: Vec<XorSet> = vec![XorSet { xor_mask: 0, count: 0 }; 3 * bl];
    let ghost hs = master_hashes(keys@, seed);
    let mut i: usize = 0;
    assert(sets@ =~= spec_accumulate(hs, block_length, 0));
    while i < keys.len()
        invariant
            i <= keys.len() <= u32::MAX,
            block_length > 0,
            3 * block_length <= u32::MAX,
            bl == block_length,
            sets.len() == 3 * bl,
            hs == master_hashes(keys@, seed),
            sets@ == spec_accumulate(hs, block_length, i as int),
        decreases keys.len() - i,
    {
        let ghost sets0 = sets@;
        let t = geth0h1h2(keys[i], seed, block_length);
        let c0 = t.h0 as usize;
        let c1 = t.h1 as usize + bl;
        let c2 = t.h2 as usize + 2 * bl;
        proof {
            let all = set_int_range(0, hs.len() as int);
            lemma_accumulate_ok(hs, block_length, i as int);
            lemma_touch_count_bound(hs, all, block_length, c0 as int, i as int);
            lemma_touch_count_bound(hs, all, block_length, c1 as int, i as int);
            lemma_touch_count_bound(hs, all, block_length, c2 as int, i as int);
        }
        sets[c0].xor_mask ^= t.h;
        sets[c0].count += 1;
        sets[c1].xor_mask ^= t.h;
        sets[c1].count += 1;
        sets[c2].xor_mask ^= t.h;
        sets[c2].count += 1;
        assert(sets@ =~= referred(
            referred(referred(sets0, c0 as int, t.h), c1 as int, t.h),
            c2 as int,
            t.h,
        ));
        i += 1;
    }
    sets
}

/// The slots of one segment that exactly one key refers to, in rising order.
pub fn seed_queue(sets: &Vec<XorSet>, offset: u32, block_length: u32) -> (queue: Vec<KeyIndex>)
    requires
        offset + block_length <= sets.len(),
        offset + block_length <= u32::MAX,
    ensures
        queue@ == spec_seed_queue(sets@, offset as int, block_length as int),
{
    let mut queue: Vec<KeyIndex> = Vec::with_capacity(block_length as usize);
    let mut i: u32 = 0;
    while i < block_length
        invariant
            i <= block_length,
            offset + block_length <= sets.len(),
            offset + block_length <= u32::MAX,
            queue@ == spec_seed_queue(sets@, offset as int, i as int),
        decreases block_length - i,
    {
        let item = sets[(offset + i) as usize];
        if item.count == 1 {
            queue.push(KeyIndex { index: i, hash: item.xor_mask });
        }
        i += 1;
    }
    queue
}

/// Takes a removed key out of one of its other slots, and queues the slot when
/// exactly one key is left in it.
pub fn release(
    sets: &mut Vec<XorSet>,
    queue: &mut Vec<KeyIndex>,
    offset: u32,
    index: u32,
    hash: u64,
)
    requires
        offset + index < old(sets).len(),
        offset + index <= u32::MAX,
        old(sets)[offset + index].count >= 1,
    ensures
        final(sets)@ == old(sets)@.update(
            offset + index,
            released(old(sets)[offset + index], hash),
        ),
        final(queue)@ == requeued(old(queue)@, old(sets)[offset + index], index, hash),
{
    let at = (offset + index) as usize;
    let mut s = sets[at];
    s.xor_mask ^= hash;
    s.count -= 1;
    sets[at] = s;
    if s.count == 1 {
        queue.push(KeyIndex { index, hash: s.xor_mask })
    }
}

/// Works off the queue of segment `seg` until it is empty. An entry whose slot
/// has lost its key in the meantime is dropped. Every other entry removes its
/// key: the key goes on the stack with its slot, and its two other slots are
/// released into the queues `low` and `high` of their segments.
pub fn drain(
    seg: u32,
    own: &mut Vec<KeyIndex>,
    low: &mut Vec<KeyIndex>,
    high: &mut Vec<KeyIndex>,
    sets: &mut Vec<XorSet>,
    stack: &mut Vec<KeyIndex>,
    block_length: u32,
)
    requires
        seg <= 2,
        block_length > 0,
        3 * block_length <= u32::MAX,
        consistent(
            block_length,
            arrange(seg, old(sets)@, old(own)@, old(low)@, old(high)@, old(stack)@),
        ),
    ensures
        arrange(seg, final(sets)@, final(own)@, final(low)@, final(high)@, final(stack)@)
            == spec_drain(
            seg,
            block_length,
            arrange(seg, old(sets)@, old(own)@, old(low)@, old(high)@, old(stack)@),
        ),
{
    let offset: u32 = seg * block_length;
    let low_at: u32 = if seg == 0 {
        block_length
    } else {
        0
    };
    let high_at: u32 = if seg == 2 {
        block_length
    } else {
        2 * block_length
    };
    while !own.is_empty()
        invariant
            seg <= 2,
            block_length > 0,
            3 * block_length <= u32::MAX,
            offset == own_offset(seg, block_length),
            low_at == low_offset(seg, block_length),
            high_at == high_offset(seg, block_length),
            consistent(block_length, arrange(seg, sets@, own@, low@, high@, stack@)),
            spec_drain(seg, block_length, arrange(seg, sets@, own@, low@, high@, stack@))
                == spec_drain(
                seg,
                block_length,
                arrange(seg, old(sets)@, old(own)@, old(low)@, old(high)@, old(stack)@),
            ),
        decreases own@.len(),
    {
        let ghost state = arrange(seg, sets@, own@, low@, high@, stack@);
        let ghost (hs, g) = choose|hs: Seq<u64>, g: Progress| #[trigger]
            inv(hs, block_length, state, g);
        let ghost g2 = lemma_drain_step(seg, block_length, hs, state, g);
        let keyindexvar = own.pop().unwrap();
        let at: u32 = offset + keyindexvar.index;
        if sets[at as usize].count != 0 {
            let hash = keyindexvar.hash;
            let low_index = if seg == 0 {
                geth1(hash, block_length)
            } else {
                geth0(hash, block_length)
            };
            let high_index = if seg == 2 {
                geth1(hash, block_length)
            } else {
                geth2(hash, block_length)
            };
            proof {
                lemma_slot_ranges(hash, block_length);
            }
            stack.push(KeyIndex { hash, index: at });
            release(sets, low, low_at, low_index, hash);
            release(sets, high, high_at, high_index, hash);
        }
        proof {
            assert(arrange(seg, sets@, own@, low@, high@, stack@) == drain_next(
                seg,
                block_length,
                state,
            ));
            assert(inv(hs, block_length, drain_next(seg, block_length, state), g2));
        }
    }
}

/// One attempt at peeling the keys under a seed: the three queues are worked
/// off in turn until all are empty. The result is the stack of removed keys
/// if every key was removed.
pub fn peel(keys: &[u64], seed: u64, block_length: u32) -> (r: Option<Vec<KeyIndex>>)
    requires
        block_length > 0,
        3 * block_length <= u32::MAX,
        keys.len() <= u32::MAX,
    ensures
        r is Some <==> spec_peel(master_hashes(keys@, seed), block_length).len() == keys@.len(),
        r is Some ==> r->0@ == spec_peel(master_hashes(keys@, seed), block_length),
{
    let size = keys.len();
    let ghost hs = master_hashes(keys@, seed);
    let mut sets = accumulate(keys, seed, block_length);
    proof {
        lemma_accumulate_ok(hs, block_length, hs.len() as int);
    }
    let mut q0 = seed_queue(&sets, 0, block_length);
    let mut q1 = seed_queue(&sets, block_length, block_length);
    let mut q2 = seed_queue(&sets, 2 * block_length, block_length);
    let mut stack: Vec<KeyIndex> = Vec::with_capacity(size);
    let ghost mut g = lemma_start_ok(hs, block_length);
    let ghost mut rounds: nat = 3 * hs.len() + 3 * block_length as nat;
    while !q0.is_empty() || !q1.is_empty() || !q2.is_empty()
        invariant
            block_length > 0,
            3 * block_length <= u32::MAX,
            inv(
                hs,
                block_length,
                PeelState { sets: sets@, q0: q0@, q1: q1@, q2: q2@, stack: stack@ },
                g,
            ),
            rounds >= 3 * g.alive.len() + q0@.len() + q1@.len() + q2@.len(),
            spec_rounds(
                block_length,
                PeelState { sets: sets@, q0: q0@, q1: q1@, q2: q2@, stack: stack@ },
                rounds,
            ) == spec_rounds(
                block_length,
                spec_start(hs, block_length),
                3 * hs.len() + 3 * block_length as nat,
            ),
        decreases 3 * g.alive.len() + q0@.len() + q1@.len() + q2@.len(),
    {
        let ghost s0 = PeelState { sets: sets@, q0: q0@, q1: q1@, q2: q2@, stack: stack@ };
        drain(0, &mut q0, &mut q1, &mut q2, &mut sets, &mut stack, block_length);
        let ghost s1 = PeelState { sets: sets@, q0: q0@, q1: q1@, q2: q2@, stack: stack@ };
        let ghost g1 = lemma_drain_ok(0, block_length, hs, s0, g);
        drain(1, &mut q1, &mut q0, &mut q2, &mut sets, &mut stack, block_length);
        let ghost s2 = PeelState { sets: sets@, q0: q0@, q1: q1@, q2: q2@, stack: stack@ };
        let ghost g2 = lemma_drain_ok(1, block_length, hs, s1, g1);
        drain(2, &mut q2, &mut q0, &mut q1, &mut sets, &mut stack, block_length);
        let ghost g3 = lemma_drain_ok(2, block_length, hs, s2, g2);
        proof {
            g = g3;
            rounds = (rounds - 1) as nat;
        }
    }
    if stack.len() == size {
        Some(stack)
    } else {
        None
    }
}

/// Back-substitution: the stack is taken off from its top, and each key's slot
/// gets the byte that makes the key's three slots xor to its fingerprint.
pub fn assign(stack: Vec<KeyIndex>, block_length: u32) -> (finger_prints: Vec<u8>)
    requires
        block_length > 0,
        3 * block_length <= u32::MAX,
        forall|p: int| 0 <= p < stack.len() ==> (#[trigger] stack[p]).index < 3 * block_length,
    ensures
        finger_prints@ == spec_assign(
            stack@,
            block_length,
            Seq::new((3 * block_length) as nat, |c: int| 0u8),
        ),
        finger_prints.len() == 3 * block_length,
{
    let mut stack = stack;
    let ghost full = stack@;
    let mut finger_prints: Vec<u8> = vec![0u8; 3 * (block_length as usize)];
    assert(finger_prints@ =~= Seq::new((3 * block_length) as nat, |c: int| 0u8));
    while !stack.is_empty()
        invariant
            block_length > 0,
            3 * block_length <= u32::MAX,
            finger_prints.len() == 3 * block_length,
            forall|p: int| 0 <= p < stack.len() ==> (#[trigger] stack[p]).index < 3 * block_length,
            spec_assign(stack@, block_length, finger_prints@) == spec_assign(
                full,
                block_length,
                Seq::new((3 * block_length) as nat, |c: int| 0u8),
            ),
        decreases stack@.len(),
    {
        let ghost fp0 = finger_prints@;
        let ghost stack0 = stack@;
        let ki = stack.pop().unwrap();
        assert(ki == stack0[stack0.len() - 1]);
        let mut val = fingerprint(ki.hash) as u8;
        if ki.index < block_length {
            let h1 = (geth1(ki.hash, block_length) + block_length) as usize;
            let h2 = (geth2(ki.hash, block_length) + 2 * block_length) as usize;
            val = val ^ (finger_prints[h1] ^ finger_prints[h2]);
        } else if ki.index < 2 * block_length {
            let h0 = geth0(ki.hash, block_length) as usize;
            let h2 = (geth2(ki.hash, block_length) + 2 * block_length) as usize;
            val = val ^ (finger_prints[h0] ^ finger_prints[h2]);
        } else {
            let h0 = geth0(ki.hash, block_length) as usize;
            let h1 = (geth1(ki.hash, block_length) + block_length) as usize;
            val = val ^ (finger_prints[h0] ^ finger_prints[h1]);
        }
        finger_prints[ki.index as usize] = val;
        assert(val == spec_slot_value(fp0, block_length, ki));
        assert(finger_prints@ == fp0.update(ki.index as int, val));
    }
    finger_prints
}

} // verus!
