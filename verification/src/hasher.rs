//! The hasher that turns a key into the 64-bit digest that the filter stores.

use std::collections::hash_map::DefaultHasher;
use std::hash::{BuildHasher, Hash};
use vstd::prelude::*;
use vstd::std_specs::convert::FromSpecImpl;

verus! {

/// `std::hash::BuildHasherDefault`, carried as a value that nothing is known
/// of.
#[verifier::external_type_specification]
#[verifier::external_body]
#[verifier::reject_recursive_types(H)]
pub struct ExStdBuildHasherDefault<H>(std::hash::BuildHasherDefault<H>);

/// Wrapper type for [std::hash::BuildHasherDefault], the hash builder that a
/// filter uses where none is supplied. Its hashers are not seeded, so digests
/// agree across processes.
pub struct BuildHasherDefault {
    hasher: std::hash::BuildHasherDefault<DefaultHasher>,
}

/// `Default::default` of `std::hash::BuildHasherDefault`. Nothing is claimed
/// of the value.
#[verifier::external_body]
fn std_build_hasher_default() -> (hasher: std::hash::BuildHasherDefault<DefaultHasher>) {
    std::hash::BuildHasherDefault::<DefaultHasher>::default()
}

impl Default for BuildHasherDefault {
    fn default() -> (r: Self) {
        BuildHasherDefault { hasher: std_build_hasher_default() }
    }
}

/// The hash builder has no state to write down: it is written as no bytes.
impl From<BuildHasherDefault> for Vec<u8> {
    fn from(_hash_builder: BuildHasherDefault) -> (bytes: Vec<u8>)
        ensures
            bytes@ == Seq::<u8>::empty(),
    {
        Vec::new()
    }
}

impl FromSpecImpl<BuildHasherDefault> for Vec<u8> {
    open spec fn obeys_from_spec() -> bool {
        false
    }

    open spec fn from_spec(_hash_builder: BuildHasherDefault) -> Vec<u8> {
        arbitrary()
    }
}

/// Whatever the bytes, the hash builder read from them is the default one.
impl From<Vec<u8>> for BuildHasherDefault {
    fn from(_bytes: Vec<u8>) -> (r: BuildHasherDefault) {
        BuildHasherDefault { hasher: std_build_hasher_default() }
    }
}

impl FromSpecImpl<Vec<u8>> for BuildHasherDefault {
    open spec fn obeys_from_spec() -> bool {
        false
    }

    open spec fn from_spec(_bytes: Vec<u8>) -> BuildHasherDefault {
        arbitrary()
    }
}

impl BuildHasher for BuildHasherDefault {
    type Hasher = DefaultHasher;

    /// `BuildHasher::build_hasher` of `std::hash::BuildHasherDefault`, which
    /// hands out the default value of the hasher type: a `DefaultHasher` that
    /// nothing has been written to.
    #[verifier::external_body]
    fn build_hasher(&self) -> (hasher: DefaultHasher)
        ensures
            hasher@ == Seq::<Seq<u8>>::empty(),
    {
        self.hasher.build_hasher()
    }
}

/// `BuildHasher::hash_one`: the digest of one key by a fresh hasher of the
/// builder. What it returns depends on the builder and on the key's `Hash`
/// impl, and with a seeded builder on the process: nothing is claimed of it.
#[verifier::external_body]
pub(crate) fn digest<H: BuildHasher, T: ?Sized + Hash>(hash_builder: &H, key: &T) -> (d: u64) {
    hash_builder.hash_one(key)
}

} // verus!
