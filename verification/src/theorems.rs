//! What holds of every filter that a build has produced, and of the wire
//! format, stated over the views of the filters.

use vstd::prelude::*;
use crate::codec::{lemma_decode_encode, spec_decode, spec_encode};
use crate::filter::{
    build_seed, built_from, first_peeling_attempt, peels_at_some_attempt, spec_capacity,
    spec_capacity_fits, Xor8View,
};
use crate::hashing::{spec_fingerprint, spec_mixsplit};
use crate::peel::{
    lemma_single_key_peels, lemma_slot_ranges, master_hashes, peelable, slot0, slot1, slot2,
    touches,
};
use crate::soundness::lemma_model_sound;

verus! {

/// A built filter has three fingerprint bytes per slot of a segment, and the
/// block length that the number of its keys asks for: a third of 32 more than
/// 1.23 times the number of keys, rounded up, then down to a multiple of
/// three.
pub proof fn lemma_built_sizes(v: Xor8View, keys: Seq<u64>)
    requires
        built_from(v, keys),
        spec_capacity_fits(keys.len()),
    ensures
        v.built(),
        v.finger_prints.len() == 3 * v.block_length,
        v.finger_prints.len() == spec_capacity(keys.len()),
        v.block_length == (32 + (123 * keys.len() + 99) / 100) / 3,
        v.block_length >= 10,
{
    lemma_model_sound(master_hashes(keys, v.seed), v.block_length);
}

/// No false negatives: a filter built from a set of keys contains each of
/// them.
pub proof fn lemma_no_false_negatives(v: Xor8View, keys: Seq<u64>, i: int)
    requires
        built_from(v, keys),
        spec_capacity_fits(keys.len()),
        0 <= i < keys.len(),
    ensures
        v.contains_key(keys[i]),
{
    let hs = master_hashes(keys, v.seed);
    lemma_model_sound(hs, v.block_length);
    assert(hs[i] == spec_mixsplit(keys[i], v.seed));
}

/// A built filter holds zero in every slot that none of its keys touches.
pub proof fn lemma_untouched_slots_are_zero(v: Xor8View, keys: Seq<u64>, c: int)
    requires
        built_from(v, keys),
        spec_capacity_fits(keys.len()),
        0 <= c < v.finger_prints.len(),
        forall|i: int|
            0 <= i < keys.len() ==> !touches(
                spec_mixsplit(#[trigger] keys[i], v.seed),
                v.block_length,
                c,
            ),
    ensures
        v.finger_prints[c] == 0,
{
    let hs = master_hashes(keys, v.seed);
    lemma_model_sound(hs, v.block_length);
    if v.finger_prints[c] != 0 {
        let k = choose|k: int| 0 <= k < hs.len() && touches(#[trigger] hs[k], v.block_length, c);
        assert(!touches(spec_mixsplit(keys[k], v.seed), v.block_length, c));
    }
}

/// The answer for a key depends on the seed, the block length and the
/// fingerprints alone: two filters that agree in them answer alike, whatever
/// keys wait in them.
pub proof fn lemma_answer_is_determined(a: Xor8View, b: Xor8View, key: u64)
    requires
        a.seed == b.seed,
        a.block_length == b.block_length,
        a.finger_prints == b.finger_prints,
    ensures
        a.contains_key(key) == b.contains_key(key),
{
}

/// A build is a function of its keys: two filters built from the same keys
/// have the same seed, the same block length and the same fingerprints.
pub proof fn lemma_build_is_determined(v: Xor8View, w: Xor8View, keys: Seq<u64>)
    requires
        built_from(v, keys),
        built_from(w, keys),
    ensures
        v.seed == w.seed,
        v.block_length == w.block_length,
        v.finger_prints == w.finger_prints,
{
    let a = choose|a: nat|
        a <= u64::MAX && first_peeling_attempt(keys, v.block_length, a) && v.seed
            == #[trigger] build_seed(a);
    let b = choose|b: nat|
        b <= u64::MAX && first_peeling_attempt(keys, w.block_length, b) && w.seed
            == #[trigger] build_seed(b);
    if a < b {
        assert(!peelable(master_hashes(keys, build_seed(a)), w.block_length));
    }
    if b < a {
        assert(!peelable(master_hashes(keys, build_seed(b)), v.block_length));
    }
}

/// A filter read back from its bytes has the seed, the block length and the
/// fingerprints of the filter written, and answers every query as it does.
pub proof fn lemma_round_trip_answers(v: Xor8View, key: u64)
    requires
        v.finger_prints.len() <= u32::MAX,
    ensures
        spec_decode(spec_encode(v)) is Ok,
        spec_decode(spec_encode(v))->Ok_0.seed == v.seed,
        spec_decode(spec_encode(v))->Ok_0.block_length == v.block_length,
        spec_decode(spec_encode(v))->Ok_0.finger_prints == v.finger_prints,
        spec_decode(spec_encode(v))->Ok_0.contains_key(key) == v.contains_key(key),
{
    lemma_decode_encode(v);
}

/// At most one key peels under every seed: a build of so few keys succeeds.
pub proof fn lemma_few_keys_peel(keys: Seq<u64>)
    requires
        keys.len() <= 1,
    ensures
        peels_at_some_attempt(keys),
{
    lemma_single_key_peels(master_hashes(keys, build_seed(0)), 11);
    lemma_single_key_peels(master_hashes(keys, build_seed(0)), 10);
}

/// A filter built from at most one key was built at the first attempt.
pub proof fn lemma_first_attempt_of_few_keys(v: Xor8View, keys: Seq<u64>)
    requires
        built_from(v, keys),
        keys.len() <= 1,
    ensures
        v.seed == build_seed(0),
{
    let a = choose|a: nat|
        a <= u64::MAX && first_peeling_attempt(keys, v.block_length, a) && v.seed
            == #[trigger] build_seed(a);
    if a > 0 {
        lemma_single_key_peels(master_hashes(keys, build_seed(0)), v.block_length);
    }
}

/// A filter built from no keys has thirty fingerprint bytes, all zero, under
/// the first seed, and contains a key exactly when the key's fingerprint is
/// zero.
pub proof fn lemma_built_from_no_keys(v: Xor8View, key: u64)
    requires
        built_from(v, Seq::<u64>::empty()),
    ensures
        v.block_length == 10,
        v.finger_prints.len() == 30,
        forall|c: int| 0 <= c < 30 ==> v.finger_prints[c] == 0,
        v.seed == build_seed(0),
        v.contains_key(key) == (spec_fingerprint(spec_mixsplit(key, v.seed)) as u8 == 0),
{
    let keys = Seq::<u64>::empty();
    lemma_first_attempt_of_few_keys(v, keys);
    lemma_built_sizes(v, keys);
    assert forall|c: int| 0 <= c < 30 implies v.finger_prints[c] == 0 by {
        lemma_untouched_slots_are_zero(v, keys, c);
    }
    let h = spec_mixsplit(key, v.seed);
    lemma_slot_ranges(h, v.block_length);
    let a = v.finger_prints[slot0(h, v.block_length)];
    let b = v.finger_prints[slot1(h, v.block_length)];
    let c = v.finger_prints[slot2(h, v.block_length)];
    assert(a ^ b ^ c == 0) by (bit_vector)
        requires
            a == 0 && b == 0 && c == 0,
    ;
}

/// A filter built from one key has eleven slots in a segment, was built at
/// the first attempt, and contains the key.
pub proof fn lemma_built_from_one_key(v: Xor8View, key: u64)
    requires
        built_from(v, seq![key]),
    ensures
        v.block_length == 11,
        v.finger_prints.len() == 33,
        v.seed == build_seed(0),
        v.contains_key(key),
{
    let keys = seq![key];
    lemma_first_attempt_of_few_keys(v, keys);
    lemma_built_sizes(v, keys);
    lemma_no_false_negatives(v, keys, 0);
}

} // verus!
