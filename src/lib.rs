//! A binary hash tree (Merkle tree) over ordered text blocks, with a validator
//! that recomputes every digest and detects tampered leaves.

pub mod digest;
pub mod model;
pub mod merkle_tree;
pub use merkle_tree::{Leaf, MerkleTree};
