use xorfilter::construct::{geth0, geth0h1h2, geth1, geth2};
use xorfilter::hashing::{fingerprint, mixsplit, murmur64, reduce, splitmix64};

#[test]
fn murmur64_known_values() {
    assert_eq!(murmur64(0), 0);
    assert_eq!(murmur64(1), 0xb456_bcfc_34c2_cb2c);
    assert_eq!(murmur64(0xdead_beef), 0xd24b_d59f_862a_1dac);
}

#[test]
fn splitmix64_advances_by_the_golden_ratio() {
    let mut state: u64 = 0;
    assert_eq!(splitmix64(&mut state), 0xe220_a839_7b1d_cdaf);
    assert_eq!(state, 0x9e37_79b9_7f4a_7c15);
}

#[test]
fn splitmix64_sequence_from_one() {
    let mut state: u64 = 1;
    assert_eq!(splitmix64(&mut state), 0x910a_2dec_8902_5cc1);
    assert_eq!(state, 0x9e37_79b9_7f4a_7c16);
    assert_eq!(splitmix64(&mut state), 0xbeeb_8da1_658e_ec67);
    assert_eq!(state, 0x3c6e_f372_fe94_f82b);
}

#[test]
fn mixsplit_adds_the_seed_with_wrapping() {
    assert_eq!(mixsplit(42, 7), 0xcf8f_fb89_367b_9db1);
    assert_eq!(mixsplit(u64::MAX, 1), 0);
    assert_eq!(mixsplit(42, 7), murmur64(49));
}

#[test]
fn reduce_takes_the_high_half_of_the_product() {
    assert_eq!(reduce(0xffff_ffff, 10), 9);
    assert_eq!(reduce(0x8000_0000, 10), 5);
    assert_eq!(reduce(12345, 1000), 0);
    assert_eq!(reduce(0xdead_beef, 33), 28);
    assert_eq!(reduce(0xdead_beef, 0), 0);
}

#[test]
fn reduce_stays_below_the_range() {
    let mut state: u64 = 99;
    for _ in 0..10_000 {
        let v = splitmix64(&mut state) as u32;
        let n = (splitmix64(&mut state) as u32) | 1;
        assert!(reduce(v, n) < n);
    }
}

#[test]
fn fingerprint_folds_the_halves() {
    assert_eq!(fingerprint(0x1234_5678_9abc_def0), 0x1234_5678_8888_8888);
    assert_eq!(fingerprint(0x1234_5678_9abc_def0) as u8, 0x88);
    assert_eq!(fingerprint(0), 0);
}

#[test]
fn tri_hash_of_a_key() {
    let hs = geth0h1h2(42, 0x910a_2dec_8902_5cc1, 11);
    assert_eq!(hs.h, 0xe975_2ec8_730f_3867);
    assert_eq!((hs.h0, hs.h1, hs.h2), (4, 0, 9));
    assert_eq!(geth0(hs.h, 11), 4);
    assert_eq!(geth1(hs.h, 11), 0);
    assert_eq!(geth2(hs.h, 11), 9);
    assert_eq!(geth1(hs.h, 11), reduce(hs.h.rotate_left(21) as u32, 11));
    assert_eq!(geth2(hs.h, 11), reduce(hs.h.rotate_left(42) as u32, 11));
}
