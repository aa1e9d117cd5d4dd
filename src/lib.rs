//! An append-only Merkle tree over a sequence of blocks, built one push at a time.
pub mod combiner;
pub mod laws;
pub mod model;
pub mod node;
pub mod tree;
