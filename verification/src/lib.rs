//! A xor filter: an immutable probabilistic set of 64-bit key digests that
//! answers membership queries with no false negatives, using three one-byte
//! fingerprint slots per key.

pub mod codec;
pub mod construct;
pub mod equality;
pub mod filter;
pub mod hasher;
pub mod hashing;
pub mod model;
pub mod peel;
pub mod soundness;
pub mod theorems;

pub use crate::codec::DecodeError;
pub use crate::filter::{CborXor8, Xor8};
pub use crate::hasher::BuildHasherDefault;
