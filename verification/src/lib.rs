//! Data-integrity and proof-of-access core of a blockchain storage node.
//!
//! Four components build on a shared data model: the chunk/transaction
//! value types with their hashing and encoding ([`chunk`], [`hash`],
//! [`u256`], [`db_cache`]), merkle inclusion-path checking ([`merkle`]),
//! interval-addressed partition storage with per-chunk state tracking
//! ([`storage_provider`]), the ingress validator that accepts transaction
//! headers and chunks ([`mempool`]), and the partition mining engine that
//! searches stored chunks for a difficulty-beating hash ([`mining`]).

#![verifier::loop_isolation(false)]

use vstd::prelude::*;

pub mod app_state;
pub mod chunk;
pub mod db_cache;
pub mod h256_map;
pub mod hash;
pub mod mempool;
pub mod merkle;
pub mod mining;
pub mod numeric;
pub mod storage_provider;
pub mod u256;

verus! {

/// Size in bytes of a full data chunk; only the last chunk of a
/// transaction's data may be smaller.
pub const CHUNK_SIZE: u64 = 262144;

} // verus!
