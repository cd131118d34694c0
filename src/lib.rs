//! A blocked Bloom filter over caller-supplied 32-bit key hashes.
//!
//! Each key sets and tests bits inside a single 64-byte block, so every
//! insertion and lookup touches one cache line.
pub mod bits;
pub mod filter;
pub mod mapping;
pub mod sizing;

pub use filter::{BlockedBloomFilter, FrozenBloomFilter, InvalidLayout};
pub use sizing::calc_bytes;
