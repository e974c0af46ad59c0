//! The hash functions of the filter: the seed generator, the per-key master
//! hash, the reduction of a 32-bit value into a range, and the fingerprint.

use vstd::prelude::*;
use vstd::wrapping::u64_specs::{wrapping_add, wrapping_mul};

verus! {

/// The increment of the seed generator's counter.
pub const GOLDEN_GAMMA: u64 = 0x9E37_79B9_7F4A_7C15;

/// The 64-bit avalanche finisher: three xor-shifts by 33 around two
/// multiplications modulo 2^64.
pub open spec fn spec_murmur64(h: u64) -> u64 {
    let a = h ^ (h >> 33);
    let b = wrapping_mul(a, 0xff51_afd7_ed55_8ccd);
    let c = b ^ (b >> 33);
    let d = wrapping_mul(c, 0xc4ce_b9fe_1a85_ec53);
    d ^ (d >> 33)
}

/// The output that the seed generator draws from a counter that has already
/// been advanced.
pub open spec fn spec_splitmix_output(state: u64) -> u64 {
    let a = wrapping_mul(state ^ (state >> 30), 0xBF58_476D_1CE4_E5B9);
    let b = wrapping_mul(a ^ (a >> 27), 0x94D0_49BB_1331_11EB);
    b ^ (b >> 31)
}

/// The master hash of a key digest under a seed.
pub open spec fn spec_mixsplit(key: u64, seed: u64) -> u64 {
    spec_murmur64(wrapping_add(key, seed))
}

/// The image of a 32-bit value in `[0, n)`: the high half of the 64-bit
/// product.
pub open spec fn spec_reduce(hash: u32, n: u32) -> int {
    (hash as int * n as int) / 0x1_0000_0000
}

/// The fingerprint source of a master hash; its low byte is what a slot stores.
pub open spec fn spec_fingerprint(hash: u64) -> u64 {
    hash ^ (hash >> 32)
}

/// A rotation of a 64-bit word to the left by `k` bits, `0 < k < 64`.
pub open spec fn spec_rotl(h: u64, k: u64) -> u64 {
    (h << k) | (h >> ((64 - k) as u64))
}

/// The reduction lands in `[0, n)` whenever the range is not empty.
pub proof fn lemma_reduce_in_range(hash: u32, n: u32)
    requires
        n > 0,
    ensures
        0 <= spec_reduce(hash, n) < n,
{
    assert(0 <= (hash as int) * (n as int) && (hash as int) * (n as int) < 0x1_0000_0000 * (n as int)) by (nonlinear_arith)
        requires
            0 <= hash < 0x1_0000_0000,
            n > 0,
    ;
}

/// The avalanche finisher of a 64-bit word.
pub fn murmur64(h: u64) -> (r: u64)
    ensures
        r == spec_murmur64(h),
{
    let mut h = h;
    h ^= h >> 33;
    h = h.wrapping_mul(0xff51_afd7_ed55_8ccd);
    h ^= h >> 33;
    h = h.wrapping_mul(0xc4ce_b9fe_1a85_ec53);
    h ^= h >> 33;
    h
}

/// Advances the counter by the golden-ratio increment and returns the next
/// pseudo-random number.
pub fn splitmix64(seed: &mut u64) -> (r: u64)
    ensures
        *final(seed) == wrapping_add(*old(seed), GOLDEN_GAMMA),
        r == spec_splitmix_output(*final(seed)),
{
    *seed = (*seed).wrapping_add(0x9E37_79B9_7F4A_7C15);
    let mut z = *seed;
    z = (z ^ (z >> 30)).wrapping_mul(0xBF58_476D_1CE4_E5B9);
    z = (z ^ (z >> 27)).wrapping_mul(0x94D0_49BB_1331_11EB);
    z ^ (z >> 31)
}

/// The master hash of a key digest under a seed: the finisher applied to
/// their sum modulo 2^64.
pub fn mixsplit(key: u64, seed: u64) -> (r: u64)
    ensures
        r == spec_mixsplit(key, seed),
{
    murmur64(key.wrapping_add(seed))
}

/// Maps a 32-bit value into `[0, n)` by the high half of the product, a fast
/// alternative to the modulo reduction.
pub fn reduce(hash: u32, n: u32) -> (r: u32)
    ensures
        r == spec_reduce(hash, n),
        n > 0 ==> r < n,
{
    let wide: u64 = hash as u64;
    let range: u64 = n as u64;
    assert(wide * range <= 0xffff_ffff * 0xffff_ffff) by (nonlinear_arith)
        requires
            wide <= 0xffff_ffff,
            range <= 0xffff_ffff,
    ;
    let product: u64 = wide * range;
    assert(product >> 32 == product / 0x1_0000_0000) by (bit_vector);
    assert((product >> 32) <= 0xffff_ffff) by (bit_vector);
    proof {
        if n > 0 {
            lemma_reduce_in_range(hash, n);
        }
    }
    (product >> 32) as u32
}

/// The two halves of a master hash folded together; the low byte is the
/// fingerprint that a slot stores.
pub fn fingerprint(hash: u64) -> (r: u64)
    ensures
        r == spec_fingerprint(hash),
{
    hash ^ (hash >> 32)
}

} // verus!
