use std::collections::hash_map::RandomState;
use std::hash::{BuildHasher, Hasher};

use xorfilter::filter::capacity_fits;
use xorfilter::hashing::{fingerprint, mixsplit, splitmix64};
use xorfilter::{BuildHasherDefault, Xor8};

const FIRST_SEED: u64 = 0x910a_2dec_8902_5cc1;
const SECOND_SEED: u64 = 0xbeeb_8da1_658e_ec67;

fn built(keys: &[u64]) -> Xor8 {
    let mut filter = Xor8::<BuildHasherDefault>::new();
    assert!(filter.build_keys(keys));
    filter
}

#[test]
fn new_filter_is_empty_and_not_built() {
    let filter = Xor8::<BuildHasherDefault>::new();
    assert_eq!(filter.seed(), 0);
    assert_eq!(filter.block_length(), 0);
    assert!(filter.finger_prints().is_empty());
    assert!(!filter.is_built());
    let other = Xor8::with_hasher(RandomState::new());
    assert_eq!(other.block_length(), 0);
    assert!(!other.is_built());
}

#[test]
fn no_keys_build_the_smallest_filter() {
    let mut filter = Xor8::<BuildHasherDefault>::new();
    assert!(filter.build());
    assert!(filter.is_built());
    assert_eq!(filter.block_length(), 10);
    assert_eq!(filter.finger_prints(), &vec![0u8; 30]);
    assert_eq!(filter.seed(), FIRST_SEED);
    for probe in 0..8u64 {
        assert!(!filter.contains_key(probe));
    }
    let mut state: u64 = 17;
    let mut hits = 0;
    for _ in 0..100_000 {
        let probe = splitmix64(&mut state);
        let expected = fingerprint(mixsplit(probe, FIRST_SEED)) as u8 == 0;
        assert_eq!(filter.contains_key(probe), expected);
        if expected {
            hits += 1;
        }
    }
    assert!(hits < 1_000);
}

#[test]
fn one_key_builds_at_the_first_seed() {
    let filter = built(&[42]);
    assert_eq!(filter.seed(), FIRST_SEED);
    assert_eq!(filter.block_length(), 11);
    let mut expected = vec![0u8; 33];
    expected[4] = 175;
    assert_eq!(filter.finger_prints(), &expected);
    assert!(filter.contains_key(42));
    assert!(!filter.contains_key(43));
}

#[test]
fn five_keys_give_known_fingerprints() {
    let filter = built(&[1, 2, 3, 4, 5]);
    assert_eq!(filter.seed(), FIRST_SEED);
    assert_eq!(filter.block_length(), 13);
    let mut expected = vec![0u8; 39];
    expected[0] = 113;
    expected[1] = 198;
    expected[9] = 184;
    expected[20] = 22;
    expected[25] = 202;
    assert_eq!(filter.finger_prints(), &expected);
    for key in 1..=5u64 {
        assert!(filter.contains_key(key));
    }
    assert!(!filter.contains_key(0));
    assert!(!filter.contains_key(6));
    assert!(!filter.contains_key(7));
}

#[test]
fn twenty_keys_give_known_fingerprints() {
    let keys: Vec<u64> = (100..120).collect();
    let filter = built(&keys);
    assert_eq!(filter.block_length(), 19);
    let expected: Vec<u8> = vec![
        0, 254, 23, 79, 173, 0, 181, 190, 0, 195, 131, 0, 254, 160, 0, 0, 0, 69, 10, 0, 201, 0, 0,
        33, 0, 0, 0, 0, 0, 0, 0, 0, 0, 0, 0, 0, 0, 0, 10, 0, 60, 0, 0, 247, 0, 0, 0, 24, 246, 0,
        0, 0, 0, 66, 0, 0, 0,
    ];
    assert_eq!(filter.finger_prints(), &expected);
}

#[test]
fn keys_that_do_not_peel_at_first_get_the_next_seed() {
    let keys: Vec<u64> = vec![1757, 1758, 1759, 1760, 1761, 1762];
    let filter = built(&keys);
    assert_eq!(filter.seed(), SECOND_SEED);
    assert_eq!(filter.block_length(), 13);
    let mut expected = vec![0u8; 39];
    expected[4] = 159;
    expected[8] = 159;
    expected[9] = 84;
    expected[10] = 161;
    expected[16] = 73;
    expected[22] = 135;
    assert_eq!(filter.finger_prints(), &expected);
    for key in keys.iter() {
        assert!(filter.contains_key(*key));
    }
    assert!(!filter.contains_key(0));
    assert!(!filter.contains_key(1));
}

#[test]
fn block_length_follows_the_number_of_keys() {
    for (size, block_length) in [(2u64, 11u32), (3, 12), (100, 51), (1000, 420), (100_000, 41_010)]
    {
        let keys: Vec<u64> = (0..size).map(|k| k.wrapping_mul(0x9e37_79b9_7f4a_7c15)).collect();
        let filter = built(&keys);
        assert_eq!(filter.block_length(), block_length);
        assert_eq!(filter.finger_prints().len(), 3 * block_length as usize);
        assert!(filter.is_built());
    }
}

#[test]
fn every_key_is_found_and_answers_repeat() {
    let mut state: u64 = 2024;
    let keys: Vec<u64> = (0..50_000).map(|_| splitmix64(&mut state)).collect();
    let filter = built(&keys);
    for key in keys.iter() {
        assert!(filter.contains_key(*key));
    }
    for _ in 0..10_000 {
        let probe = splitmix64(&mut state);
        assert_eq!(filter.contains_key(probe), filter.contains_key(probe));
    }
}

#[test]
fn build_keys_ignores_and_keeps_pending_keys() {
    let mut filter = Xor8::<BuildHasherDefault>::new();
    filter.populate_keys(&[7, 8, 9]);
    assert!(filter.build_keys(&[42]));
    assert!(filter.contains_key(42));
    assert_eq!(filter.block_length(), 11);
    assert!(filter.build());
    assert_eq!(filter.block_length(), 12);
    for key in [7u64, 8, 9] {
        assert!(filter.contains_key(key));
    }
}

#[test]
fn populate_keys_and_build_equal_build_keys() {
    let keys: Vec<u64> = (100..120).collect();
    let mut filter = Xor8::<BuildHasherDefault>::new();
    filter.populate_keys(&keys[..10]);
    filter.populate_keys(&keys[10..]);
    assert!(filter.build());
    assert!(filter == built(&keys));
    assert!(filter != built(&keys[..19]));
}

#[test]
fn keys_are_hashed_by_the_hash_builder() {
    let digest = |key: &str| {
        let mut hasher = BuildHasherDefault::default().build_hasher();
        std::hash::Hash::hash(key, &mut hasher);
        hasher.finish()
    };
    let mut by_value = Xor8::<BuildHasherDefault>::new();
    by_value.insert("alpha");
    by_value.insert("beta");
    by_value.populate(&["gamma", "delta"]);
    assert!(by_value.build());
    let by_digest = built(&[digest("alpha"), digest("beta"), digest("gamma"), digest("delta")]);
    assert!(by_value == by_digest);
    for key in ["alpha", "beta", "gamma", "delta"] {
        assert!(by_value.contains(key));
        assert!(by_value.contains_key(digest(key)));
    }
    assert_eq!(by_value.contains("epsilon"), by_digest.contains_key(digest("epsilon")));
}

#[test]
fn default_hash_builder_starts_unwritten_hashers() {
    let ours = BuildHasherDefault::default().build_hasher().finish();
    let fresh = std::collections::hash_map::DefaultHasher::new().finish();
    assert_eq!(ours, fresh);
    let mut written = BuildHasherDefault::default().build_hasher();
    written.write_u64(1);
    assert_ne!(written.finish(), fresh);
}

#[test]
fn default_hash_builder_is_written_as_no_bytes() {
    let bytes: Vec<u8> = BuildHasherDefault::default().into();
    assert!(bytes.is_empty());
    let back: BuildHasherDefault = vec![1u8, 2, 3].into();
    assert_eq!(
        back.build_hasher().finish(),
        BuildHasherDefault::default().build_hasher().finish()
    );
}

#[test]
fn capacity_fits_up_to_the_32_bit_limit() {
    assert!(capacity_fits(0));
    assert!(capacity_fits(1_000_000));
    if usize::BITS >= 64 {
        assert!(capacity_fits(3_491_843_303));
        assert!(!capacity_fits(3_491_843_304));
        assert!(!capacity_fits(usize::MAX));
    }
}

#[test]
fn accumulate_counts_each_key_in_its_three_slots() {
    let h = 0xe975_2ec8_730f_3867_u64;
    let sets = xorfilter::construct::accumulate(&[42], FIRST_SEED, 11);
    assert_eq!(sets.len(), 33);
    for (c, set) in sets.iter().enumerate() {
        if c == 4 || c == 11 || c == 22 + 9 {
            assert_eq!((set.xor_mask, set.count), (h, 1));
        } else {
            assert_eq!((set.xor_mask, set.count), (0, 0));
        }
    }
    let twice = xorfilter::construct::accumulate(&[42, 42], FIRST_SEED, 11);
    assert_eq!((twice[4].xor_mask, twice[4].count), (0, 2));
    assert_eq!((twice[11].xor_mask, twice[11].count), (0, 2));
    assert_eq!((twice[31].xor_mask, twice[31].count), (0, 2));
}

#[test]
fn seed_queue_lists_the_slots_with_one_key() {
    let h = 0xe975_2ec8_730f_3867_u64;
    let sets = xorfilter::construct::accumulate(&[42], FIRST_SEED, 11);
    for (offset, index) in [(0u32, 4u32), (11, 0), (22, 9)] {
        let queue = xorfilter::construct::seed_queue(&sets, offset, 11);
        assert_eq!(queue.len(), 1);
        assert_eq!((queue[0].hash, queue[0].index), (h, index));
    }
    let twice = xorfilter::construct::accumulate(&[42, 42], FIRST_SEED, 11);
    assert!(xorfilter::construct::seed_queue(&twice, 0, 11).is_empty());
    let five = xorfilter::construct::accumulate(&[1, 2, 3, 4, 5], FIRST_SEED, 13);
    let queue = xorfilter::construct::seed_queue(&five, 0, 13);
    let mut last = None;
    for entry in queue.iter() {
        assert_eq!(five[entry.index as usize].count, 1);
        assert_eq!(five[entry.index as usize].xor_mask, entry.hash);
        assert!(last < Some(entry.index));
        last = Some(entry.index);
    }
    let ones = (0..13).filter(|c| five[*c].count == 1).count();
    assert_eq!(queue.len(), ones);
}

#[test]
fn release_queues_a_slot_left_with_one_key() {
    let a = mixsplit(1, FIRST_SEED);
    let b = mixsplit(2, FIRST_SEED);
    let mut sets = vec![
        xorfilter::construct::XorSet { xor_mask: 0, count: 0 },
        xorfilter::construct::XorSet { xor_mask: a ^ b, count: 2 },
        xorfilter::construct::XorSet { xor_mask: 7, count: 3 },
    ];
    let mut queue = Vec::new();
    xorfilter::construct::release(&mut sets, &mut queue, 1, 0, a);
    assert_eq!((sets[1].xor_mask, sets[1].count), (b, 1));
    assert_eq!(queue.len(), 1);
    assert_eq!((queue[0].hash, queue[0].index), (b, 0));
    xorfilter::construct::release(&mut sets, &mut queue, 1, 1, 5);
    assert_eq!((sets[2].xor_mask, sets[2].count), (2, 2));
    assert_eq!(queue.len(), 1);
    xorfilter::construct::release(&mut sets, &mut queue, 0, 1, b);
    assert_eq!((sets[1].xor_mask, sets[1].count), (0, 0));
    assert_eq!(queue.len(), 1);
    assert_eq!((sets[0].xor_mask, sets[0].count), (0, 0));
}

#[test]
fn pending_keys_are_counted_until_the_build() {
    let mut filter = Xor8::<BuildHasherDefault>::new();
    assert_eq!(filter.pending_keys(), Some(0));
    filter.populate_keys(&[1, 2, 3]);
    filter.insert(&4u64);
    filter.populate(&[5u64, 6]);
    assert_eq!(filter.pending_keys(), Some(6));
    assert!(filter.build());
    assert_eq!(filter.pending_keys(), None);
    assert_eq!(filter.block_length(), 13);
    let decoded = Xor8::<BuildHasherDefault>::from_bytes(filter.to_bytes()).unwrap();
    assert_eq!(decoded.pending_keys(), None);
}

#[test]
fn building_twice_from_the_same_keys_gives_the_same_filter() {
    let mut state: u64 = 77;
    let keys: Vec<u64> = (0..20_000).map(|_| splitmix64(&mut state)).collect();
    let first = built(&keys);
    let second = built(&keys);
    assert_eq!(first.seed(), second.seed());
    assert_eq!(first.finger_prints(), second.finger_prints());
    assert_eq!(first.to_bytes(), second.to_bytes());
}

#[test]
fn peel_stacks_the_keys_in_the_order_of_their_removal() {
    let stack = xorfilter::construct::peel(&[1, 2, 3, 4, 5], FIRST_SEED, 13).unwrap();
    let entries: Vec<(u64, u32)> = stack.iter().map(|ki| (ki.hash, ki.index)).collect();
    assert_eq!(
        entries,
        vec![
            (0xb5f1_c99d_b189_7025, 9),
            (0xa2c1_ce7a_24d1_eebc, 1),
            (0x639f_4997_090a_1de6, 0),
            (0x6a04_2f70_e47f_37ba, 25),
            (0x58f6_03d4_ec2f_acc2, 20),
        ]
    );
    let stack = xorfilter::construct::peel(&[42], FIRST_SEED, 11).unwrap();
    assert_eq!(stack.len(), 1);
    assert_eq!((stack[0].hash, stack[0].index), (0xe975_2ec8_730f_3867, 4));
    assert!(xorfilter::construct::peel(&[], FIRST_SEED, 10).unwrap().is_empty());
}

#[test]
fn peel_gives_nothing_where_keys_are_left_over() {
    let keys = [1757u64, 1758, 1759, 1760, 1761, 1762];
    assert!(xorfilter::construct::peel(&keys, FIRST_SEED, 13).is_none());
    assert!(xorfilter::construct::peel(&keys, SECOND_SEED, 13).is_some());
    assert!(xorfilter::construct::peel(&[42, 42], FIRST_SEED, 11).is_none());
}

#[test]
fn drain_works_off_one_queue() {
    let keys = [1u64, 2, 3, 4, 5];
    let mut sets = xorfilter::construct::accumulate(&keys, FIRST_SEED, 13);
    let mut q0 = xorfilter::construct::seed_queue(&sets, 0, 13);
    let mut q1 = xorfilter::construct::seed_queue(&sets, 13, 13);
    let mut q2 = xorfilter::construct::seed_queue(&sets, 26, 13);
    assert_eq!(q0.iter().map(|e| e.index).collect::<Vec<u32>>(), vec![0, 1, 9]);
    assert_eq!(q1.iter().map(|e| e.index).collect::<Vec<u32>>(), vec![0, 7, 9, 10, 12]);
    assert_eq!(q2.iter().map(|e| e.index).collect::<Vec<u32>>(), vec![6]);
    let mut stack = Vec::new();
    xorfilter::construct::drain(0, &mut q0, &mut q1, &mut q2, &mut sets, &mut stack, 13);
    assert!(q0.is_empty());
    assert_eq!(
        stack.iter().map(|ki| (ki.hash, ki.index)).collect::<Vec<(u64, u32)>>(),
        vec![
            (0xb5f1_c99d_b189_7025, 9),
            (0xa2c1_ce7a_24d1_eebc, 1),
            (0x639f_4997_090a_1de6, 0),
        ]
    );
    assert_eq!(q1.iter().map(|e| e.index).collect::<Vec<u32>>(), vec![0, 7, 9, 10, 12]);
    assert_eq!(
        q2.iter().map(|e| (e.hash, e.index)).collect::<Vec<(u64, u32)>>(),
        vec![
            (0x639f_4997_090a_1de6, 6),
            (0x58f6_03d4_ec2f_acc2, 10),
            (0x6a04_2f70_e47f_37ba, 0),
        ]
    );
    let counts: Vec<u32> = sets.iter().map(|s| s.count).collect();
    assert_eq!(&counts[..13], &[1, 1, 0, 0, 0, 0, 0, 0, 0, 1, 0, 2, 0]);
    assert_eq!(&counts[13..26], &[0, 0, 0, 0, 0, 0, 0, 1, 0, 0, 0, 0, 1]);
    assert_eq!(&counts[26..], &[1, 0, 0, 0, 0, 0, 0, 0, 0, 0, 1, 0, 0]);
}

#[test]
fn assign_writes_the_fingerprints_of_a_stack() {
    let stack = xorfilter::construct::peel(&[1, 2, 3, 4, 5], FIRST_SEED, 13).unwrap();
    let finger_prints = xorfilter::construct::assign(stack, 13);
    assert_eq!(&finger_prints, built(&[1, 2, 3, 4, 5]).finger_prints());
    assert_eq!(xorfilter::construct::assign(Vec::new(), 10), vec![0u8; 30]);
    let one = vec![xorfilter::construct::KeyIndex { hash: 0xe975_2ec8_730f_3867, index: 22 + 9 }];
    let mut expected = vec![0u8; 33];
    expected[31] = 175;
    assert_eq!(xorfilter::construct::assign(one, 11), expected);
}
