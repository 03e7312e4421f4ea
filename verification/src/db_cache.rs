//! Cached ingress records and their persisted encoding.
//!
//! Data that is not yet well confirmed is held in cache records: the data
//! roots seen at header ingress and the chunks that passed path validation.
//! The chunk index entry has a fixed binary encoding — the index in
//! big-endian order first, so that raw byte order sorts entries by index —
//! bounded by the storage engine's maximum record size.

use vstd::prelude::*;

use crate::chunk::{Chunk, ChunkPathHash, TxRelativeChunkIndex, TxRelativeChunkOffset};
use crate::hash::H256;
use crate::numeric::{
    be_value, lemma_be_lt_lex, lex_lt, spec_u32_to_be_bytes, u32_to_be_bytes, u64_from_be_bytes,
};
use crate::CHUNK_SIZE;

verus! {

/// The maximum size of an encoded index record, set by the storage
/// engine's key-size limit.
pub const MAX_INDEX_RECORD_SIZE: usize = 511;

/// A data root seen in a valid transaction header, with the transactions
/// that share it. `data_size` is authoritative for every chunk validated
/// against this root.
#[derive(Clone, Debug)]
pub struct CachedDataRoot {
    /// Creation time in milliseconds.
    pub timestamp: u128,
    /// Total size in bytes of the data represented by the data root.
    pub data_size: u64,
    /// The ids of all transactions that carry this data root.
    pub txid_set: Vec<H256>,
}

/// A chunk that passed path validation, keyed by its chunk path hash. The
/// payload is optional: the bytes may be known only to live in partition
/// storage.
#[derive(Clone, Debug)]
pub struct CachedChunk {
    pub chunk: Option<Vec<u8>>,
    pub data_path: Vec<u8>,
}

impl From<Chunk> for CachedChunk {
    fn from(value: Chunk) -> (r: Self) {
        CachedChunk { chunk: Some(value.bytes), data_path: value.data_path }
    }
}

impl vstd::std_specs::convert::FromSpecImpl<Chunk> for CachedChunk {
    open spec fn obeys_from_spec() -> bool {
        true
    }

    open spec fn from_spec(t: Chunk) -> Self {
        CachedChunk { chunk: Some(t.bytes), data_path: t.data_path }
    }
}

/// Index metadata for a cached chunk: what a range scan over indices needs
/// to find the chunk data.
#[derive(Clone, Copy, Debug)]
pub struct CachedChunkIndexMetadata {
    pub chunk_path_hash: ChunkPathHash,
}

/// An index entry: the chunk's tx-relative index, then its metadata.
#[derive(Clone, Copy, Debug)]
pub struct CachedChunkIndexEntry {
    pub index: TxRelativeChunkIndex,
    pub meta: CachedChunkIndexMetadata,
}

impl From<CachedChunkIndexEntry> for CachedChunkIndexMetadata {
    fn from(value: CachedChunkIndexEntry) -> (r: Self) {
        value.meta
    }
}

impl vstd::std_specs::convert::FromSpecImpl<CachedChunkIndexEntry> for CachedChunkIndexMetadata {
    open spec fn obeys_from_spec() -> bool {
        true
    }

    open spec fn from_spec(t: CachedChunkIndexEntry) -> Self {
        t.meta
    }
}

impl CachedChunkIndexEntry {
    /// The encoded record: four big-endian index bytes, then the metadata
    /// bytes. The index comes first and uncompressed so that byte order
    /// over whole records equals index order.
    pub open spec fn encoding(&self) -> Seq<u8> {
        spec_u32_to_be_bytes(self.index) + self.meta.chunk_path_hash@
    }

    /// Appends the encoded record to `buf` and returns the number of bytes
    /// written, which stays within the maximum record size.
    pub fn to_compact(&self, buf: &mut Vec<u8>) -> (n: usize)
        ensures
            final(buf)@ == old(buf)@ + self.encoding(),
            n == self.encoding().len(),
            n <= MAX_INDEX_RECORD_SIZE,
    {
        let index_bytes = u32_to_be_bytes(self.index);
        buf.extend_from_slice(index_bytes.as_slice());
        buf.extend_from_slice(self.meta.chunk_path_hash.bytes.as_slice());
        proof {
            assert(buf@ =~= old(buf)@ + self.encoding());
        }
        index_bytes.len() + 32
    }

    /// Reads one record back from the front of `buf`, returning the entry
    /// and the remainder of the buffer.
    pub fn from_compact(buf: &[u8]) -> (r: (Self, &[u8]))
        requires
            buf@.len() >= 36,
        ensures
            r.0.index == be_value(buf@.subrange(0, 4)),
            r.0.meta.chunk_path_hash@ == buf@.subrange(4, 36),
            r.1@ == buf@.skip(36),
    {
        proof {
            crate::numeric::lemma_be_value_bound(buf@.subrange(0, 4));
            crate::numeric::lemma_pow256_4();
        }
        let index = u64_from_be_bytes(vstd::slice::slice_subrange(buf, 0, 4)) as u32;
        let hash = H256::from_slice(vstd::slice::slice_subrange(buf, 4, 36));
        let rest = vstd::slice::slice_subrange(buf, 36, buf.len());
        proof {
            assert(buf@.subrange(36, buf@.len() as int) =~= buf@.skip(36));
        }
        (
            CachedChunkIndexEntry {
                index,
                meta: CachedChunkIndexMetadata { chunk_path_hash: hash },
            },
            rest,
        )
    }
}

/// Decoding returns exactly the fields that were encoded: the record is a
/// faithful round trip.
pub proof fn lemma_index_entry_roundtrip(e: CachedChunkIndexEntry)
    ensures
        e.encoding().len() == 36,
        be_value(e.encoding().subrange(0, 4)) == e.index,
        e.encoding().subrange(4, 36) == e.meta.chunk_path_hash@,
{
    assert(e.encoding().subrange(0, 4) =~= spec_u32_to_be_bytes(e.index));
    assert(e.encoding().subrange(4, 36) =~= e.meta.chunk_path_hash@);
    lemma_spec_u32_be_value(e.index);
}

/// The encoding is order-preserving: a smaller index gives a record that is
/// smaller in raw byte order, so range scans over encoded entries yield
/// ascending index order.
pub proof fn lemma_index_encoding_preserves_order(e1: CachedChunkIndexEntry, e2: CachedChunkIndexEntry)
    requires
        e1.index < e2.index,
    ensures
        lex_lt(e1.encoding(), e2.encoding()),
{
    let a = spec_u32_to_be_bytes(e1.index);
    let b = spec_u32_to_be_bytes(e2.index);
    lemma_spec_u32_be_value(e1.index);
    lemma_spec_u32_be_value(e2.index);
    lemma_be_lt_lex(a, b);
    lemma_lex_lt_prefix(a, b, e1.meta.chunk_path_hash@, e2.meta.chunk_path_hash@);
}

/// The big-endian bytes of a `u32` read back as the same value.
proof fn lemma_spec_u32_be_value(x: u32)
    ensures
        be_value(spec_u32_to_be_bytes(x)) == x,
{
    let s = spec_u32_to_be_bytes(x);
    crate::numeric::lemma_be_value4(s);
    assert(be_value(s) == (((x >> 24) as u8 * 256 + (x >> 16) as u8) * 256 + (x >> 8) as u8) * 256
        + x as u8);
    assert(x == ((((x >> 24) as u8) * 256 + ((x >> 16) as u8)) * 256 + ((x >> 8) as u8)) * 256 + (
    x as u8)) by (bit_vector);
}

/// Byte order decided on a strict prefix stands whatever follows it.
proof fn lemma_lex_lt_prefix(a: Seq<u8>, b: Seq<u8>, sa: Seq<u8>, sb: Seq<u8>)
    requires
        a.len() == b.len(),
        lex_lt(a, b),
    ensures
        lex_lt(a + sa, b + sb),
    decreases a.len(),
{
    if a.len() == 0 {
    } else {
        assert((a + sa).first() == a.first());
        assert((b + sb).first() == b.first());
        if a.first() == b.first() {
            lemma_lex_lt_prefix(a.drop_first(), b.drop_first(), sa, sb);
            assert((a + sa).drop_first() =~= a.drop_first() + sa);
            assert((b + sb).drop_first() =~= b.drop_first() + sb);
        }
    }
}

/// Converts a chunk's tx-relative end offset to its 0-based index: the
/// index is `ceil(offset / CHUNK_SIZE) - 1`, so offset `CHUNK_SIZE` maps to
/// index 0. An offset of zero has no chunk before it and is rejected.
pub fn chunk_offset_to_index(offset: TxRelativeChunkOffset) -> (r: Option<TxRelativeChunkIndex>)
    ensures
        match r {
            Some(index) => offset > 0 && index == ((offset as int) + (CHUNK_SIZE as int) - 1) / (
            CHUNK_SIZE as int) - 1,
            None => offset == 0,
        },
{
    if offset == 0 {
        return None;
    }
    let div: u64 = ((offset as u64) + CHUNK_SIZE - 1) / CHUNK_SIZE;
    Some((div - 1) as u32)
}

} // verus!
