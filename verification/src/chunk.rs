//! Chunk value types shared by ingress, storage and mining.

use vstd::prelude::*;

use crate::hash::{hash_sha256, sha256_of, H256};

verus! {

/// A chunk's tx-relative offset. The offset is the exclusive end bound of
/// the chunk, not its start: the first chunk of a transaction has offset
/// `CHUNK_SIZE`, not 0.
pub type TxRelativeChunkOffset = u32;

/// The digest of a chunk's data path, the key under which a verified chunk
/// is cached.
pub type ChunkPathHash = H256;

/// The root of the merkle tree over all of a transaction's chunk data.
pub type DataRoot = H256;

/// The 0-indexed position of a chunk relative to the first chunk of the
/// transaction's data.
pub type TxRelativeChunkIndex = u32;

/// An unverified chunk as received: consumed by ingress validation.
#[derive(Debug)]
pub struct Chunk {
    /// The root hash the chunk claims membership of; matched against the
    /// data root cached at header ingress.
    pub data_root: DataRoot,
    /// Declared total size of the transaction data this chunk belongs to;
    /// tells the last chunk apart from interior ones.
    pub data_size: u64,
    /// Raw bytes of the merkle proof connecting the data root and the
    /// chunk hash.
    pub data_path: Vec<u8>,
    /// The chunk payload, exactly `CHUNK_SIZE` bytes long unless it is the
    /// transaction's last chunk.
    pub bytes: Vec<u8>,
    /// Offset of the chunk in the transaction's data, measured to the
    /// chunk's last byte, not its first.
    pub offset: TxRelativeChunkOffset,
}

/// An owned copy of a byte buffer.
pub fn copy_bytes(src: &Vec<u8>) -> (r: Vec<u8>)
    ensures
        r@ == src@,
{
    let mut r: Vec<u8> = Vec::new();
    let n = src.len();
    let mut i: usize = 0;
    while i < n
        invariant
            i <= n,
            n == src@.len(),
            r@ == src@.take(i as int),
        decreases n - i,
    {
        r.push(src[i]);
        proof {
            assert(src@.take(i + 1) =~= src@.take(i as int).push(src@[i as int]));
        }
        i += 1;
    }
    proof {
        assert(src@.take(n as int) =~= src@);
    }
    r
}

/// An owned copy of an optional byte buffer.
pub fn copy_opt_bytes(src: &Option<Vec<u8>>) -> (r: Option<Vec<u8>>)
    ensures
        match r {
            Some(v) => *src matches Some(s) && v@ == s@,
            None => *src is None,
        },
{
    match src {
        Some(s) => Some(copy_bytes(s)),
        None => None,
    }
}

/// A buffer of `len` zero bytes.
pub fn zero_bytes(len: usize) -> (r: Vec<u8>)
    ensures
        r@ == Seq::new(len as nat, |i: int| 0u8),
{
    let mut r: Vec<u8> = Vec::new();
    let mut i: usize = 0;
    while i < len
        invariant
            i <= len,
            r@.len() == i,
            forall|j: int| 0 <= j < i ==> r@[j] == 0u8,
        decreases len - i,
    {
        r.push(0u8);
        i += 1;
    }
    proof {
        assert(r@ =~= Seq::new(len as nat, |i: int| 0u8));
    }
    r
}

impl Chunk {
    /// The key under which this chunk is cached: the digest of its data
    /// path.
    pub fn chunk_path_hash(&self) -> (r: ChunkPathHash)
        ensures
            r@ == sha256_of(self.data_path@),
    {
        Chunk::hash_data_path(&self.data_path)
    }

    pub fn hash_data_path(data_path: &Vec<u8>) -> (r: ChunkPathHash)
        ensures
            r@ == sha256_of(data_path@),
    {
        hash_sha256(data_path.as_slice())
    }
}

} // verus!
