//! The filter: a seed, a block length and three blocks of one-byte
//! fingerprints, built once from a set of key digests and read-only afterwards.

use std::hash::{BuildHasher, Hash};
use vstd::prelude::*;
use vstd::std_specs::convert::{FromSpec, FromSpecImpl, IntoSpec};
use vstd::wrapping::u64_specs::wrapping_add;
use crate::codec::{
    push_u32_be, push_u64_be, read_u32_be, read_u64_be, signature_v1, spec_decode, spec_encode,
    DecodeError, METADATA_LENGTH,
};
use crate::construct::{assign, peel};
use crate::hasher::{digest, BuildHasherDefault};
use crate::model::spec_fingerprints;
use crate::hashing::{
    fingerprint, mixsplit, reduce, spec_mixsplit, spec_splitmix_output, splitmix64, GOLDEN_GAMMA,
};
use crate::peel::{fingerprint_matches, master_hashes, peelable};
use crate::soundness::lemma_model_sound;

verus! {

/// What a filter is to its callers.
pub struct Xor8View {
    /// The seed under which the master hashes are taken.
    pub seed: u64,
    /// The number of slots in each of the three segments.
    pub block_length: u32,
    /// The fingerprint bytes, segment after segment.
    pub finger_prints: Seq<u8>,
    /// The key digests waiting to be built, if the filter still takes keys.
    pub keys: Option<Seq<u64>>,
}

impl Xor8View {
    /// The filter has its fingerprints: three segments of `block_length` slots
    /// each, and at least one slot in a segment.
    pub open spec fn built(self) -> bool {
        &&& self.block_length > 0
        &&& 3 * self.block_length <= u32::MAX
        &&& self.finger_prints.len() == 3 * self.block_length
    }

    /// The answer of the filter for a key digest: whether the three slots of
    /// its master hash xor to its fingerprint.
    pub open spec fn contains_key(self, key: u64) -> bool {
        fingerprint_matches(self.finger_prints, self.block_length, spec_mixsplit(key, self.seed))
    }

    /// The filter with `keys` appended to the digests that wait to be built.
    pub open spec fn with_keys(self, keys: Seq<u64>) -> Xor8View {
        Xor8View { keys: Some(self.keys->0 + keys), ..self }
    }
}

/// The state of the seed generator's counter after `draws` draws.
pub open spec fn rng_state(draws: nat) -> u64
    decreases draws,
{
    if draws == 0 {
        1
    } else {
        wrapping_add(rng_state((draws - 1) as nat), GOLDEN_GAMMA)
    }
}

/// The seed of the `attempt`-th construction attempt, counted from zero.
pub open spec fn build_seed(attempt: nat) -> u64 {
    spec_splitmix_output(rng_state(attempt + 1))
}

/// The size of the fingerprint array for `size` keys: 32 more than 1.23 times
/// the number of keys, rounded up, then rounded down to a multiple of three.
pub open spec fn spec_capacity(size: nat) -> nat {
    (32 + (123 * size + 99) / 100) / 3 * 3
}

/// The block length for `size` keys: a third of the capacity.
pub open spec fn spec_block_length(size: nat) -> nat {
    spec_capacity(size) / 3
}

/// Whether the capacity for `size` keys can be held in 32 bits.
pub open spec fn spec_capacity_fits(size: nat) -> bool {
    32 + (123 * size + 99) / 100 <= u32::MAX
}

/// The keys peel at attempt `attempt` and at no earlier one.
pub open spec fn first_peeling_attempt(keys: Seq<u64>, bl: u32, attempt: nat) -> bool {
    &&& peelable(master_hashes(keys, build_seed(attempt)), bl)
    &&& forall|a: nat| a < attempt ==> !peelable(master_hashes(keys, #[trigger] build_seed(a)), bl)
}

/// What a successful build leaves: the block length that the number of keys
/// asks for, the seed of the first attempt at which the keys peel, and the
/// fingerprints that peeling and back-substitution give under that seed.
pub open spec fn built_from(v: Xor8View, keys: Seq<u64>) -> bool {
    &&& v.block_length == spec_block_length(keys.len())
    &&& exists|a: nat|
        a <= u64::MAX && first_peeling_attempt(keys, v.block_length, a) && v.seed
            == #[trigger] build_seed(a)
    &&& v.finger_prints == spec_fingerprints(master_hashes(keys, v.seed), v.block_length)
}

/// Whether the keys peel at one of the attempts that a build makes: under one
/// of the seeds that the generator gives before its counter comes round.
pub open spec fn peels_at_some_attempt(keys: Seq<u64>) -> bool {
    exists|a: nat|
        a <= u64::MAX && peelable(
            master_hashes(keys, #[trigger] build_seed(a)),
            spec_block_length(keys.len()) as u32,
        )
}

/// Whether a filter for `size` keys can be built: whether its capacity fits in
/// 32 bits.
pub fn capacity_fits(size: usize) -> (r: bool)
    ensures
        r == spec_capacity_fits(size as nat),
{
    if size > 0xffff_ffff {
        false
    } else {
        let wide: u64 = size as u64;
        32 + (123 * wide + 99) / 100 <= 0xffff_ffff
    }
}

/// Type Xor8 is probabilistic data-structure to test membership of an
/// element in a set.
///
/// This implementation has a false positive rate of about 0.3%
/// and a memory usage of less than 9 bits per entry for sizeable sets.
/// Xor8 is parametrized over type `H` which is expected to implement
/// [BuildHasher] trait, like `RandomState` and [BuildHasherDefault].
/// When not supplied, `BuildHasherDefault` is used as the default
/// hash-builder. A filter whose hash builder is seeded per process, like
/// `RandomState`, answers by key only in the process that built it.
pub struct Xor8<H = BuildHasherDefault> where H: BuildHasher {
    keys: Option<Vec<u64>>,
    hash_builder: H,
    seed: u64,
    block_length: u32,
    finger_prints: Vec<u8>,
}

impl<H> View for Xor8<H> where H: BuildHasher {
    type V = Xor8View;

    closed spec fn view(&self) -> Xor8View {
        Xor8View {
            seed: self.seed,
            block_length: self.block_length,
            finger_prints: self.finger_prints@,
            keys: match self.keys {
                Some(keys) => Some(keys@),
                None => None,
            },
        }
    }
}

/// The result of decoding as callers see it: the view of the filter, or the
/// error.
pub open spec fn decoded<H: BuildHasher>(r: Result<Xor8<H>, DecodeError>) -> Result<
    Xor8View,
    DecodeError,
> {
    match r {
        Ok(filter) => Ok(filter@),
        Err(e) => Err(e),
    }
}

/// The filter that nothing has been inserted into: it takes keys, and has no
/// fingerprints yet.
pub open spec fn empty_view() -> Xor8View {
    Xor8View { seed: 0, block_length: 0, finger_prints: Seq::empty(), keys: Some(Seq::empty()) }
}

impl<H> Default for Xor8<H> where H: BuildHasher + Default {
    fn default() -> (r: Self)
        ensures
            r@ == empty_view(),
    {
        Xor8 {
            keys: Some(Vec::new()),
            hash_builder: H::default(),
            seed: 0,
            block_length: 0,
            finger_prints: Vec::new(),
        }
    }
}

impl<H> Xor8<H> where H: Default + BuildHasher {
    /// New Xor8 instance initialized with the default value of its hash
    /// builder.
    pub fn new() -> (r: Self)
        ensures
            r@ == empty_view(),
    {
        Default::default()
    }
}

impl<H> Xor8<H> where H: BuildHasher {
    /// The hash builder of the filter.
    pub closed spec fn hasher(&self) -> H {
        self.hash_builder
    }

    /// New Xor8 instance initialized with supplied `hasher`.
    pub fn with_hasher(hash_builder: H) -> (r: Self)
        ensures
            r@ == empty_view(),
            r.hasher() == hash_builder,
    {
        Xor8 {
            keys: Some(Vec::new()),
            hash_builder,
            seed: 0,
            block_length: 0,
            finger_prints: Vec::new(),
        }
    }

    /// Insert 64-bit digest of a single key. Digest for the key shall
    /// be generated using the default-hasher or via hasher supplied via
    /// [Xor8::with_hasher] method.
    pub fn insert<T: ?Sized + Hash>(&mut self, key: &T)
        requires
            old(self)@.keys is Some,
        ensures
            exists|d: u64| final(self)@ == old(self)@.with_keys(seq![d]),
            final(self).hasher() == old(self).hasher(),
    {
        let hashed_key = digest(&self.hash_builder, key);
        let mut keys = self.keys.take().unwrap();
        keys.push(hashed_key);
        assert(keys@ =~= old(self)@.keys->0 + seq![hashed_key]);
        self.keys = Some(keys);
        assert(self@ == old(self)@.with_keys(seq![hashed_key]));
    }

    /// Populate pre-compute 64-bit digests for keys.
    pub fn populate_keys(&mut self, keys: &[u64])
        requires
            old(self)@.keys is Some,
        ensures
            final(self)@ == old(self)@.with_keys(keys@),
            final(self).hasher() == old(self).hasher(),
    {
        let mut pending = self.keys.take().unwrap();
        pending.extend_from_slice(keys);
        assert(pending@ =~= old(self)@.keys->0 + keys@);
        self.keys = Some(pending);
    }

    /// Contains tell you whether the key is likely part of the set.
    pub fn contains_key(&self, key: u64) -> (r: bool)
        requires
            self@.built(),
        ensures
            r == self@.contains_key(key),
    {
        let hash = mixsplit(key, self.seed);
        let f = fingerprint(hash) as u8;
        let r0 = hash as u32;
        let r1 = ((hash << 21) | (hash >> 43)) as u32;
        let r2 = ((hash << 42) | (hash >> 22)) as u32;
        let h0 = reduce(r0, self.block_length) as usize;
        let h1 = (reduce(r1, self.block_length) + self.block_length) as usize;
        let h2 = (reduce(r2, self.block_length) + 2 * self.block_length) as usize;
        f == (self.finger_prints[h0] ^ self.finger_prints[h1] ^ self.finger_prints[h2])
    }

    /// Contains tell you whether the key is likely part of the set: the answer
    /// of [Xor8::contains_key] for the digest that the filter's hasher gives
    /// the key.
    pub fn contains<T: ?Sized + Hash>(&self, key: &T) -> (r: bool)
        requires
            self@.built(),
        ensures
            exists|d: u64| r == self@.contains_key(d),
    {
        let hashed_key = digest(&self.hash_builder, key);
        self.contains_key(hashed_key)
    }

    /// Populate 64-bit digests for collection of keys. Digest for the key
    /// shall be generated using the default-hasher or via hasher supplied
    /// via [Xor8::with_hasher] method.
    pub fn populate<T: Hash>(&mut self, keys: &[T])
        requires
            old(self)@.keys is Some,
        ensures
            exists|digests: Seq<u64>|
                digests.len() == keys@.len() && final(self)@ == old(self)@.with_keys(digests),
            final(self).hasher() == old(self).hasher(),
    {
        let mut pending = self.keys.take().unwrap();
        let ghost start = pending@;
        let mut i: usize = 0;
        while i < keys.len()
            invariant
                i <= keys.len(),
                pending@.len() == start.len() + i,
                pending@.subrange(0, start.len() as int) == start,
            decreases keys.len() - i,
        {
            let hashed_key = digest(&self.hash_builder, &keys[i]);
            pending.push(hashed_key);
            i += 1;
        }
        proof {
            let digests = pending@.subrange(start.len() as int, pending@.len() as int);
            assert(pending@ =~= start + digests);
        }
        self.keys = Some(pending);
        assert(self@ == old(self)@.with_keys(
            self@.keys->0.subrange(start.len() as int, self@.keys->0.len() as int),
        ));
    }

    /// Build bitmap for keys that are insert using [Xor8::insert] or
    /// [Xor8::populate] method. The keys are used up, whether or not the
    /// build succeeds; see [Xor8::build_keys] for its result.
    pub fn build(&mut self) -> (ok: bool)
        requires
            old(self)@.keys is Some,
            spec_capacity_fits(old(self)@.keys->0.len()),
        ensures
            ok <==> peels_at_some_attempt(old(self)@.keys->0),
            ok ==> built_from(final(self)@, old(self)@.keys->0) && final(self)@.built(),
            !ok ==> final(self)@ == (Xor8View { keys: None, ..old(self)@ }),
            final(self)@.keys is None,
            final(self).hasher() == old(self).hasher(),
    {
        let keys = self.keys.take().unwrap();
        self.build_keys(keys.as_slice())
    }

    /// Build a bitmap for pre-computed 64-bit digests for keys. If any
    /// keys where inserted using [Xor8::insert], [Xor8::populate],
    /// [Xor8::populate_keys] method shall be ignored.
    ///
    /// Seeds are drawn from the generator one after the other until the keys
    /// peel under one. The result is `false`, and the filter as it was, only
    /// if they peel under none of the seeds that the generator gives before
    /// its counter comes round after 2^64 draws (as with a key that occurs
    /// twice): from there on the seeds repeat.
    pub fn build_keys(&mut self, keys: &[u64]) -> (ok: bool)
        requires
            spec_capacity_fits(keys@.len()),
        ensures
            ok <==> peels_at_some_attempt(keys@),
            ok ==> built_from(final(self)@, keys@) && final(self)@.built(),
            ok ==> final(self)@.keys == old(self)@.keys,
            !ok ==> final(self)@ == old(self)@,
            final(self).hasher() == old(self).hasher(),
    {
        let size = keys.len();
        let capacity: u32 = {
            let capacity: u32 = 32 + ((123 * (size as u64) + 99) / 100) as u32;
            capacity / 3 * 3  // round it down to a multiple of 3
        };
        let block_length: u32 = capacity / 3;
        let mut rngcounter: u64 = 1;
        let mut attempt: u64 = 0;
        loop
            invariant
                block_length == spec_block_length(keys@.len()),
                block_length > 0,
                3 * block_length <= u32::MAX,
                keys@.len() <= u32::MAX,
                rngcounter == rng_state(attempt as nat),
                forall|a: nat|
                    a < attempt ==> !peelable(
                        master_hashes(keys@, #[trigger] build_seed(a)),
                        block_length,
                    ),
                *self == *old(self),
            decreases u64::MAX - attempt,
        {
            let seed = splitmix64(&mut rngcounter);
            assert(seed == build_seed(attempt as nat));
            proof {
                lemma_model_sound(master_hashes(keys@, seed), block_length);
            }
            match peel(keys, seed, block_length) {
                Some(stack) => {
                    let finger_prints = assign(stack, block_length);
                    self.seed = seed;
                    self.block_length = block_length;
                    self.finger_prints = finger_prints;
                    assert(first_peeling_attempt(keys@, block_length, attempt as nat));
                    return true;
                },
                None => {},
            }
            if attempt == u64::MAX {
                return false;
            }
            attempt += 1;
        }
    }

    /// Whether the filter has its fingerprints, so that it answers queries.
    pub fn is_built(&self) -> (r: bool)
        ensures
            r == self@.built(),
    {
        self.block_length > 0 && self.block_length <= 0x5555_5555 && self.finger_prints.len()
            == 3 * (self.block_length as usize)
    }

    /// The number of key digests that wait to be built, or `None` if the
    /// filter takes no keys any more.
    pub fn pending_keys(&self) -> (r: Option<usize>)
        ensures
            r is Some <==> self@.keys is Some,
            r is Some ==> r->0 == self@.keys->0.len(),
    {
        match &self.keys {
            Some(keys) => Some(keys.len()),
            None => None,
        }
    }

    /// The seed under which the filter hashes.
    pub fn seed(&self) -> (r: u64)
        ensures
            r == self@.seed,
    {
        self.seed
    }

    /// The number of slots in each of the three segments.
    pub fn block_length(&self) -> (r: u32)
        ensures
            r == self@.block_length,
    {
        self.block_length
    }

    /// The fingerprint bytes, segment after segment.
    pub fn finger_prints(&self) -> (r: &Vec<u8>)
        ensures
            r@ == self@.finger_prints,
    {
        &self.finger_prints
    }

    /// The filter in its binary format: the header and the fingerprint bytes.
    pub fn to_bytes(&self) -> (buf: Vec<u8>)
        ensures
            buf@ == spec_encode(self@),
    {
        let mut buf: Vec<u8> = Vec::new();
        buf.push(0x5e);
        buf.push(0x54);
        buf.push(0x4c);
        buf.push(1);
        assert(buf@ =~= signature_v1());
        push_u64_be(&mut buf, self.seed);
        push_u32_be(&mut buf, self.block_length);
        push_u32_be(&mut buf, self.finger_prints.len() as u32);
        buf.extend_from_slice(self.finger_prints.as_slice());
        buf
    }

    /// The filter that a buffer in the binary format holds. It takes no keys.
    /// The buffer is refused if it is shorter than the header, if it does not
    /// begin with the signature, or if fewer fingerprint bytes follow the
    /// header than it announces.
    pub fn from_bytes(buf: Vec<u8>) -> (r: Result<Self, DecodeError>) where H: Default
        ensures
            decoded(r) == spec_decode(buf@),
    {
        // validate the buf first.
        if METADATA_LENGTH > buf.len() {
            return Err(DecodeError::TooShort);
        }
        if buf[0] != 0x5e || buf[1] != 0x54 || buf[2] != 0x4c || buf[3] != 1 {
            proof {
                let head = buf@.subrange(0, 4);
                assert(head[0] == buf[0] && head[1] == buf[1] && head[2] == buf[2] && head[3]
                    == buf[3]);
            }
            return Err(DecodeError::BadSignature);
        }
        assert(buf@.subrange(0, 4) =~= signature_v1());
        let fp_len = read_u32_be(&buf, 16) as usize;
        if buf.len() - METADATA_LENGTH < fp_len {
            return Err(DecodeError::Truncated);
        }
        let seed = read_u64_be(&buf, 4);
        let block_length = read_u32_be(&buf, 12);
        let mut buf = buf;
        let ghost whole = buf@;
        buf.truncate(METADATA_LENGTH + fp_len);
        let finger_prints = buf.split_off(METADATA_LENGTH);
        assert(finger_prints@ =~= whole.subrange(
            METADATA_LENGTH as int,
            METADATA_LENGTH + fp_len,
        ));
        Ok(Xor8 { keys: None, hash_builder: H::default(), seed, block_length, finger_prints })
    }
}

/// The four values that a structured encoding of a filter carries: what the
/// hash builder is written as, the seed, the block length and the
/// fingerprint bytes.
pub struct CborXor8 {
    pub hash_builder: Vec<u8>,
    pub seed: u64,
    pub block_length: u32,
    pub finger_prints: Vec<u8>,
}

impl<H> From<Xor8<H>> for CborXor8 where H: BuildHasher + Into<Vec<u8>> {
    fn from(val: Xor8<H>) -> (r: CborXor8)
        ensures
            r.seed == val@.seed,
            r.block_length == val@.block_length,
            r.finger_prints@ == val@.finger_prints,
    {
        CborXor8 {
            hash_builder: val.hash_builder.into(),
            seed: val.seed,
            block_length: val.block_length,
            finger_prints: val.finger_prints,
        }
    }
}

impl<H> FromSpecImpl<Xor8<H>> for CborXor8 where H: BuildHasher + Into<Vec<u8>> {
    open spec fn obeys_from_spec() -> bool {
        <H as IntoSpec<Vec<u8>>>::obeys_into_spec()
    }

    closed spec fn from_spec(val: Xor8<H>) -> CborXor8 {
        CborXor8 {
            hash_builder: val.hash_builder.into_spec(),
            seed: val.seed,
            block_length: val.block_length,
            finger_prints: val.finger_prints,
        }
    }
}

impl<H> FromSpecImpl<CborXor8> for Xor8<H> where H: Default + BuildHasher + From<Vec<u8>> {
    open spec fn obeys_from_spec() -> bool {
        <H as FromSpec<Vec<u8>>>::obeys_from_spec()
    }

    closed spec fn from_spec(val: CborXor8) -> Xor8<H> {
        Xor8 {
            keys: None,
            hash_builder: H::from_spec(val.hash_builder),
            seed: val.seed,
            block_length: val.block_length,
            finger_prints: val.finger_prints,
        }
    }
}

impl<H> From<CborXor8> for Xor8<H> where H: Default + BuildHasher + From<Vec<u8>> {
    fn from(val: CborXor8) -> (r: Xor8<H>)
        ensures
            r@ == (Xor8View {
                seed: val.seed,
                block_length: val.block_length,
                finger_prints: val.finger_prints@,
                keys: None,
            }),
    {
        Xor8 {
            keys: None,
            hash_builder: val.hash_builder.into(),
            seed: val.seed,
            block_length: val.block_length,
            finger_prints: val.finger_prints,
        }
    }
}

} // verus!
