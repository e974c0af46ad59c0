//! Equality of filters: two filters are equal when they answer alike, whatever
//! their hash builders and pending keys.

use std::hash::BuildHasher;
use vstd::prelude::*;
use vstd::std_specs::cmp::PartialEqSpecImpl;
use crate::filter::Xor8;

verus! {

impl<H> PartialEq for Xor8<H> where H: BuildHasher {
    fn eq(&self, other: &Self) -> (r: bool) {
        let equal = self.seed() == other.seed() && self.block_length() == other.block_length()
            && self.finger_prints() == other.finger_prints();
        proof {
            if equal {
                assert(self@.finger_prints =~= other@.finger_prints);
            }
        }
        equal
    }
}

impl<H> PartialEqSpecImpl for Xor8<H> where H: BuildHasher {
    open spec fn obeys_eq_spec() -> bool {
        true
    }

    open spec fn eq_spec(&self, other: &Self) -> bool {
        &&& self@.seed == other@.seed
        &&& self@.block_length == other@.block_length
        &&& self@.finger_prints == other@.finger_prints
    }
}

} // verus!
