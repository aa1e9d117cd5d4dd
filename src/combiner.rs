//! The hash capability a tree is built with: a digest for a block and a digest
//! for an ordered pair of child digests.
use std::collections::hash_map::DefaultHasher;
use std::hash::Hasher;
use vstd::bytes::{spec_u64_to_le_bytes, u64_to_le_bytes};
use vstd::prelude::*;
use vstd::std_specs::hash::DefaultHasherAdditionalSpecFns;
use vstd::wrapping::u64_specs::{wrapping_add, wrapping_mul};

verus! {

/// A deterministic, total pair of hash functions for blocks of type `T`.
///
/// The spec functions are the behaviour of the combiner; the executable
/// methods must compute exactly them.
pub trait HashCombiner<T> {
    /// Digest of a single block.
    spec fn spec_leaf_hash(&self, data: T) -> u64;

    /// Digest of a branch from its left and right child digests, in that order.
    spec fn spec_combine(&self, left: u64, right: u64) -> u64;

    fn leaf_hash(&self, data: &T) -> (r: u64)
        ensures
            r == self.spec_leaf_hash(*data),
    ;

    fn combine(&self, left: u64, right: u64) -> (r: u64)
        ensures
            r == self.spec_combine(left, right),
    ;
}

/// A transparent combiner on `u64` blocks: a block is its own digest and a
/// branch is `left * multiplier + right`, wrapping at 2^64.
#[derive(Clone, Copy, Debug, PartialEq, Eq, Structural)]
pub struct LinearCombiner {
    pub multiplier: u64,
}

impl LinearCombiner {
    pub fn new(multiplier: u64) -> (r: Self)
        ensures
            r.multiplier == multiplier,
    {
        LinearCombiner { multiplier }
    }
}

impl HashCombiner<u64> for LinearCombiner {
    open spec fn spec_leaf_hash(&self, data: u64) -> u64 {
        data
    }

    open spec fn spec_combine(&self, left: u64, right: u64) -> u64 {
        wrapping_add(wrapping_mul(left, self.multiplier), right)
    }

    fn leaf_hash(&self, data: &u64) -> (r: u64) {
        *data
    }

    fn combine(&self, left: u64, right: u64) -> (r: u64) {
        left.wrapping_mul(self.multiplier).wrapping_add(right)
    }
}

/// The combiner built on std's `DefaultHasher` (SipHash with fixed keys):
/// a `u64` block is hashed as its eight little-endian bytes, a byte block as
/// its bytes, and a branch as the bytes of the left digest followed by those
/// of the right digest.
#[derive(Clone, Copy, Debug, PartialEq, Eq, Structural)]
pub struct SipCombiner;

impl SipCombiner {
    pub fn new() -> (r: Self) {
        SipCombiner
    }
}

impl HashCombiner<u64> for SipCombiner {
    open spec fn spec_leaf_hash(&self, data: u64) -> u64 {
        DefaultHasher::spec_finish(seq![spec_u64_to_le_bytes(data)])
    }

    open spec fn spec_combine(&self, left: u64, right: u64) -> u64 {
        DefaultHasher::spec_finish(seq![spec_u64_to_le_bytes(left), spec_u64_to_le_bytes(right)])
    }

    fn leaf_hash(&self, data: &u64) -> (r: u64) {
        let mut hasher = DefaultHasher::new();
        let bytes = u64_to_le_bytes(*data);
        hasher.write(bytes.as_slice());
        proof {
            assert(hasher@ =~= seq![spec_u64_to_le_bytes(*data)]);
        }
        hasher.finish()
    }

    fn combine(&self, left: u64, right: u64) -> (r: u64) {
        let mut hasher = DefaultHasher::new();
        let left_bytes = u64_to_le_bytes(left);
        let right_bytes = u64_to_le_bytes(right);
        hasher.write(left_bytes.as_slice());
        hasher.write(right_bytes.as_slice());
        proof {
            assert(hasher@ =~= seq![spec_u64_to_le_bytes(left), spec_u64_to_le_bytes(right)]);
        }
        hasher.finish()
    }
}

impl HashCombiner<Vec<u8>> for SipCombiner {
    open spec fn spec_leaf_hash(&self, data: Vec<u8>) -> u64 {
        DefaultHasher::spec_finish(seq![data@])
    }

    open spec fn spec_combine(&self, left: u64, right: u64) -> u64 {
        DefaultHasher::spec_finish(seq![spec_u64_to_le_bytes(left), spec_u64_to_le_bytes(right)])
    }

    fn leaf_hash(&self, data: &Vec<u8>) -> (r: u64) {
        let mut hasher = DefaultHasher::new();
        hasher.write(data.as_slice());
        proof {
            assert(hasher@ =~= seq![data@]);
        }
        hasher.finish()
    }

    fn combine(&self, left: u64, right: u64) -> (r: u64) {
        <SipCombiner as HashCombiner<u64>>::combine(self, left, right)
    }
}

} // verus!
