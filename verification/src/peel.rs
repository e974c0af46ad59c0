//! The mathematics of peeling: which slots a key touches, how many of the keys
//! still in play touch a slot, and what it means for a key set to peel.
//!
//! A key with master hash `h` touches three slots of the fingerprint array, one
//! in each third. A key set peels when its keys can be removed one after the
//! other, each through a slot that no key removed later touches.

use vstd::prelude::*;
use crate::hashing::{spec_fingerprint, spec_mixsplit, spec_reduce, spec_rotl, lemma_reduce_in_range};

verus! {

/// The slot of a master hash in the first third of the fingerprint array.
pub open spec fn slot0(h: u64, bl: u32) -> int {
    spec_reduce(h as u32, bl)
}

/// The slot of a master hash in the second third.
pub open spec fn slot1(h: u64, bl: u32) -> int {
    bl + spec_reduce(spec_rotl(h, 21) as u32, bl)
}

/// The slot of a master hash in the last third.
pub open spec fn slot2(h: u64, bl: u32) -> int {
    2 * bl + spec_reduce(spec_rotl(h, 42) as u32, bl)
}

/// Whether `c` is one of the three slots of the master hash `h`.
pub open spec fn touches(h: u64, bl: u32, c: int) -> bool {
    c == slot0(h, bl) || c == slot1(h, bl) || c == slot2(h, bl)
}

/// The master hashes of a sequence of key digests under a seed.
pub open spec fn master_hashes(keys: Seq<u64>, seed: u64) -> Seq<u64> {
    Seq::new(keys.len(), |k: int| spec_mixsplit(keys[k], seed))
}

/// The membership identity: the three slots of `h` xor to its fingerprint.
pub open spec fn fingerprint_matches(fp: Seq<u8>, bl: u32, h: u64) -> bool {
    spec_fingerprint(h) as u8 == fp[slot0(h, bl)] ^ fp[slot1(h, bl)] ^ fp[slot2(h, bl)]
}

/// `order` lists keys (by position in `hs`) and `slots` the slot through which
/// each is removed: a slot of that key which no key later in the order touches.
pub open spec fn is_peeling(hs: Seq<u64>, bl: u32, order: Seq<int>, slots: Seq<int>) -> bool {
    &&& order.len() == slots.len()
    &&& forall|p: int|
        0 <= p < order.len() ==> 0 <= #[trigger] order[p] < hs.len() && touches(
            hs[order[p]],
            bl,
            slots[p],
        )
    &&& forall|p: int, q: int|
        0 <= p < q < order.len() ==> !touches(hs[#[trigger] order[q]], bl, #[trigger] slots[p])
}

/// Every one of the first `n` keys occurs in `order`.
pub open spec fn covers(order: Seq<int>, n: nat) -> bool {
    forall|k: int| 0 <= k < n ==> #[trigger] order.contains(k)
}

/// The key set peels: some order removes every key.
pub open spec fn peelable(hs: Seq<u64>, bl: u32) -> bool {
    exists|order: Seq<int>, slots: Seq<int>| #[trigger]
        is_peeling(hs, bl, order, slots) && covers(order, hs.len())
}

/// How many of the first `n` keys are in `alive` and touch slot `c`.
pub open spec fn touch_count(hs: Seq<u64>, alive: Set<int>, bl: u32, c: int, n: int) -> nat
    decreases n,
{
    if n <= 0 {
        0
    } else {
        let rest = touch_count(hs, alive, bl, c, n - 1);
        if alive.contains(n - 1) && touches(hs[n - 1], bl, c) {
            rest + 1
        } else {
            rest
        }
    }
}

/// The xor of the master hashes of those among the first `n` keys that are in
/// `alive` and touch slot `c`.
pub open spec fn touch_xor(hs: Seq<u64>, alive: Set<int>, bl: u32, c: int, n: int) -> u64
    decreases n,
{
    if n <= 0 {
        0
    } else {
        let rest = touch_xor(hs, alive, bl, c, n - 1);
        if alive.contains(n - 1) && touches(hs[n - 1], bl, c) {
            rest ^ hs[n - 1]
        } else {
            rest
        }
    }
}

/// The three slots of a hash lie in the three thirds of the array, in order.
pub proof fn lemma_slot_ranges(h: u64, bl: u32)
    requires
        bl > 0,
    ensures
        0 <= slot0(h, bl) < bl,
        bl <= slot1(h, bl) < 2 * bl,
        2 * bl <= slot2(h, bl) < 3 * bl,
{
    lemma_reduce_in_range(h as u32, bl);
    lemma_reduce_in_range(spec_rotl(h, 21) as u32, bl);
    lemma_reduce_in_range(spec_rotl(h, 42) as u32, bl);
}

/// No more of the first `n` keys touch a slot than there are.
pub proof fn lemma_touch_count_bound(hs: Seq<u64>, alive: Set<int>, bl: u32, c: int, n: int)
    requires
        0 <= n,
    ensures
        touch_count(hs, alive, bl, c, n) <= n,
    decreases n,
{
    if n > 0 {
        lemma_touch_count_bound(hs, alive, bl, c, n - 1);
    }
}

/// Removing a key that lies beyond the first `n` changes nothing among them.
proof fn lemma_remove_beyond(hs: Seq<u64>, alive: Set<int>, bl: u32, c: int, n: int, k: int)
    requires
        n <= k,
    ensures
        touch_count(hs, alive.remove(k), bl, c, n) == touch_count(hs, alive, bl, c, n),
        touch_xor(hs, alive.remove(k), bl, c, n) == touch_xor(hs, alive, bl, c, n),
    decreases n,
{
    if n > 0 {
        lemma_remove_beyond(hs, alive, bl, c, n - 1, k);
    }
}

/// Removing a key lowers the count of each slot it touches by one and takes
/// its hash out of that slot's xor; other slots keep both.
pub proof fn lemma_remove_key(hs: Seq<u64>, alive: Set<int>, bl: u32, c: int, n: int, k: int)
    requires
        0 <= k < n,
        alive.contains(k),
    ensures
        touches(hs[k], bl, c) ==> touch_count(hs, alive.remove(k), bl, c, n) + 1 == touch_count(
            hs,
            alive,
            bl,
            c,
            n,
        ) && touch_xor(hs, alive.remove(k), bl, c, n) == touch_xor(hs, alive, bl, c, n) ^ hs[k],
        !touches(hs[k], bl, c) ==> touch_count(hs, alive.remove(k), bl, c, n) == touch_count(
            hs,
            alive,
            bl,
            c,
            n,
        ) && touch_xor(hs, alive.remove(k), bl, c, n) == touch_xor(hs, alive, bl, c, n),
    decreases n,
{
    let x = touch_xor(hs, alive, bl, c, n - 1);
    let hk = hs[k];
    if k == n - 1 {
        lemma_remove_beyond(hs, alive, bl, c, n - 1, k);
        assert((x ^ hk) ^ hk == x) by (bit_vector);
    } else {
        lemma_remove_key(hs, alive, bl, c, n - 1, k);
        let hj = hs[n - 1];
        assert(((x ^ hk) ^ hj) == ((x ^ hj) ^ hk)) by (bit_vector);
    }
}

/// A slot that no key in play touches has count zero and xor zero.
pub proof fn lemma_untouched(hs: Seq<u64>, alive: Set<int>, bl: u32, c: int, n: int)
    requires
        forall|j: int| 0 <= j < n && #[trigger] alive.contains(j) ==> !touches(hs[j], bl, c),
    ensures
        touch_count(hs, alive, bl, c, n) == 0,
        touch_xor(hs, alive, bl, c, n) == 0,
    decreases n,
{
    if n > 0 {
        lemma_untouched(hs, alive, bl, c, n - 1);
    }
}

/// A slot with count zero is touched by no key in play.
pub proof fn lemma_count_zero(hs: Seq<u64>, alive: Set<int>, bl: u32, c: int, n: int)
    requires
        touch_count(hs, alive, bl, c, n) == 0,
    ensures
        forall|j: int| 0 <= j < n && #[trigger] alive.contains(j) ==> !touches(hs[j], bl, c),
        touch_xor(hs, alive, bl, c, n) == 0,
    decreases n,
{
    if n > 0 {
        lemma_count_zero(hs, alive, bl, c, n - 1);
    }
}

/// A key in play that touches a slot makes its count positive.
pub proof fn lemma_toucher_counts(hs: Seq<u64>, alive: Set<int>, bl: u32, c: int, n: int, k: int)
    requires
        0 <= k < n,
        alive.contains(k),
        touches(hs[k], bl, c),
    ensures
        touch_count(hs, alive, bl, c, n) >= 1,
{
    lemma_remove_key(hs, alive, bl, c, n, k);
}

/// A slot with count one is touched by exactly one key in play, and the slot's
/// xor is that key's hash.
pub proof fn lemma_single_toucher(hs: Seq<u64>, alive: Set<int>, bl: u32, c: int, n: int) -> (k:
    int)
    requires
        touch_count(hs, alive, bl, c, n) == 1,
    ensures
        0 <= k < n,
        alive.contains(k),
        touches(hs[k], bl, c),
        touch_xor(hs, alive, bl, c, n) == hs[k],
        forall|j: int|
            0 <= j < n && j != k && #[trigger] alive.contains(j) ==> !touches(hs[j], bl, c),
    decreases n,
{
    if alive.contains(n - 1) && touches(hs[n - 1], bl, c) {
        lemma_count_zero(hs, alive, bl, c, n - 1);
        let h = hs[n - 1];
        assert(0u64 ^ h == h) by (bit_vector);
        n - 1
    } else {
        lemma_single_toucher(hs, alive, bl, c, n - 1)
    }
}

/// A slot that exactly one key in play touches has count one.
pub proof fn lemma_only_toucher(hs: Seq<u64>, alive: Set<int>, bl: u32, c: int, n: int, k: int)
    requires
        0 <= k < n,
        alive.contains(k),
        touches(hs[k], bl, c),
        forall|j: int|
            0 <= j < n && j != k && #[trigger] alive.contains(j) ==> !touches(hs[j], bl, c),
    ensures
        touch_count(hs, alive, bl, c, n) == 1,
{
    lemma_remove_key(hs, alive, bl, c, n, k);
    let rest = alive.remove(k);
    assert forall|j: int| 0 <= j < n && #[trigger] rest.contains(j) implies !touches(
        hs[j],
        bl,
        c,
    ) by {
        assert(alive.contains(j));
    }
    lemma_untouched(hs, rest, bl, c, n);
}

/// The first position at or before `p0` whose key is in `alive`.
proof fn lemma_first_alive(order: Seq<int>, alive: Set<int>, p0: int) -> (p: int)
    requires
        0 <= p0 < order.len(),
        alive.contains(order[p0]),
    ensures
        0 <= p <= p0,
        alive.contains(order[p]),
        forall|q: int| 0 <= q < p ==> !alive.contains(#[trigger] order[q]),
    decreases p0,
{
    if exists|q: int| 0 <= q < p0 && alive.contains(#[trigger] order[q]) {
        let q = choose|q: int| 0 <= q < p0 && alive.contains(#[trigger] order[q]);
        lemma_first_alive(order, alive, q)
    } else {
        p0
    }
}

/// Where keys are left and no slot is touched by exactly one of them, the
/// whole key set does not peel.
pub proof fn lemma_stuck_not_peelable(hs: Seq<u64>, bl: u32, alive: Set<int>, k0: int)
    requires
        bl > 0,
        0 <= k0 < hs.len(),
        alive.contains(k0),
        forall|c: int|
            0 <= c < 3 * bl ==> #[trigger] touch_count(hs, alive, bl, c, hs.len() as int) != 1,
    ensures
        !peelable(hs, bl),
{
    let n = hs.len() as int;
    if peelable(hs, bl) {
        let (order, slots) = choose|order: Seq<int>, slots: Seq<int>| #[trigger]
            is_peeling(hs, bl, order, slots) && covers(order, hs.len());
        assert(order.contains(k0));
        let p0 = choose|p: int| 0 <= p < order.len() && order[p] == k0;
        let p = lemma_first_alive(order, alive, p0);
        let k = order[p];
        let c = slots[p];
        lemma_slot_ranges(hs[k], bl);
        assert forall|j: int| 0 <= j < n && j != k && #[trigger] alive.contains(j) implies !touches(
            hs[j],
            bl,
            c,
        ) by {
            assert(order.contains(j));
            let q = choose|q: int| 0 <= q < order.len() && order[q] == j;
            assert(q > p);
        }
        lemma_only_toucher(hs, alive, bl, c, n, k);
        assert(touch_count(hs, alive, bl, c, n) == 1);
    }
}

/// A set of at most one key peels under every seed.
pub proof fn lemma_single_key_peels(hs: Seq<u64>, bl: u32)
    requires
        hs.len() <= 1,
    ensures
        peelable(hs, bl),
{
    if hs.len() == 0 {
        let order = Seq::<int>::empty();
        assert(is_peeling(hs, bl, order, order));
        assert(covers(order, hs.len()));
    } else {
        let order = seq![0int];
        let slots = seq![slot0(hs[0], bl)];
        assert(is_peeling(hs, bl, order, slots));
        assert forall|k: int| 0 <= k < hs.len() implies #[trigger] order.contains(k) by {
            assert(order[0] == k);
        }
        assert(covers(order, hs.len()));
    }
}

} // verus!
