//! A Bloom filter whose bit positions come from the extendable output of BLAKE3.
//!
//! Items are handed to the filter as the bytes that identify them (for a Rust value, the bytes
//! its `Hash` implementation writes). The hasher, seeded once, takes in those bytes; its
//! extendable output, read as machine words, names the bits that the item sets or tests.

pub mod bloom;
pub mod calc;
pub mod filter;
pub mod laws;
pub mod xof;

pub use crate::bloom::{calc_indices, BuildableStorage, CustomBloom, SliceBloom};
pub use crate::calc::{clamp_cell_count, clamp_hash_count};
pub use crate::xof::{Blake3, Hasher};
