//! Merkle inclusion-path verification.
//!
//! A data path links a chunk's content hash to a transaction's data root.
//! A path is a run of 96-byte branch records — left child id, right child
//! id, and a 32-byte big-endian note giving the end offset of the left
//! subtree — followed by one 64-byte leaf record holding the chunk's data
//! hash and its end offset. A node's id is the digest of the digests of its
//! record's fields. Validation walks the records from the root, checks that
//! each record hashes to the id expected of it, and descends towards the
//! target offset; the leaf record yields the chunk hash the path commits to.

use vstd::prelude::*;
use vstd::slice::slice_subrange;

use crate::hash::{bytes_eq, hash_sha256, sha256_of, H256};
use crate::numeric::{
    be_value, lemma_all_zero_value, lemma_be_value_append, lemma_nonzero_be_value, lemma_pow256_8,
    pow256,
};

verus! {

/// Result of a successful path validation: the chunk content hash the path
/// commits to at the target offset.
pub struct ValidatePathResult {
    pub leaf_hash: H256,
}

/// The chunk hash that `path` proves for `target` below the node id
/// `expected`, or `None` when some record does not hash to the id expected
/// of it or the path is malformed.
pub open spec fn merkle_leaf_of(expected: Seq<u8>, path: Seq<u8>, target: nat) -> Option<Seq<u8>>
    decreases path.len(),
{
    if path.len() == 64 {
        let data_hash = path.subrange(0, 32);
        let note = path.subrange(32, 64);
        if sha256_of(sha256_of(data_hash) + sha256_of(note)) == expected {
            Some(data_hash)
        } else {
            None
        }
    } else if path.len() >= 160 && (path.len() - 64) % 96 == 0 {
        let left = path.subrange(0, 32);
        let right = path.subrange(32, 64);
        let note = path.subrange(64, 96);
        if sha256_of(sha256_of(left) + sha256_of(right) + sha256_of(note)) == expected {
            if target <= be_value(note) {
                merkle_leaf_of(left, path.skip(96), target)
            } else {
                merkle_leaf_of(right, path.skip(96), target)
            }
        } else {
            None
        }
    } else {
        None
    }
}

/// Id of a leaf record: the digest of its two fields' digests.
fn node_id2(a: &H256, b: &H256) -> (r: H256)
    ensures
        r@ == sha256_of(a@ + b@),
{
    let mut cat: Vec<u8> = Vec::new();
    cat.extend_from_slice(a.bytes.as_slice());
    cat.extend_from_slice(b.bytes.as_slice());
    proof {
        assert(cat@ =~= a@ + b@);
    }
    hash_sha256(cat.as_slice())
}

/// Id of a branch record: the digest of its three fields' digests.
fn node_id3(a: &H256, b: &H256, c: &H256) -> (r: H256)
    ensures
        r@ == sha256_of(a@ + b@ + c@),
{
    let mut cat: Vec<u8> = Vec::new();
    cat.extend_from_slice(a.bytes.as_slice());
    cat.extend_from_slice(b.bytes.as_slice());
    cat.extend_from_slice(c.bytes.as_slice());
    proof {
        assert(cat@ =~= a@ + b@ + c@);
    }
    hash_sha256(cat.as_slice())
}

/// Decides whether `target` is at most the note value, a 32-byte big-endian
/// integer that may exceed the `u64` range.
fn target_le_note(target: u64, note: &[u8]) -> (r: bool)
    requires
        note@.len() == 32,
    ensures
        r == (target as nat <= be_value(note@)),
{
    let ghost hi = note@.subrange(0, 24);
    let ghost lo = note@.subrange(24, 32);
    proof {
        assert(note@ =~= hi + lo);
        lemma_be_value_append(hi, lo);
        lemma_pow256_8();
    }
    let mut i: usize = 0;
    while i < 24
        invariant
            i <= 24,
            note@.len() == 32,
            hi == note@.subrange(0, 24),
            lo == note@.subrange(24, 32),
            be_value(note@) == be_value(hi) * pow256(8) + be_value(lo),
            pow256(8) == 0x10000000000000000,
            forall|j: int| 0 <= j < i ==> note@[j] == 0,
        decreases 24 - i,
    {
        if note[i] != 0 {
            proof {
                assert(hi[i as int] != 0);
                lemma_nonzero_be_value(hi, i as int);
                assert(be_value(hi) * pow256(8) >= pow256(8)) by (nonlinear_arith)
                    requires
                        be_value(hi) >= 1,
                        pow256(8) >= 0,
                ;
            }
            return true;
        }
        i += 1;
    }
    let lo64 = crate::numeric::u64_from_be_bytes(slice_subrange(note, 24, 32));
    proof {
        assert(forall|j: int| 0 <= j < hi.len() ==> hi[j] == 0);
        lemma_all_zero_value(hi);
    }
    target <= lo64
}

/// Recomputes a merkle inclusion path against `root_hash` with
/// `target_offset` as the leaf position, returning the chunk hash the path
/// commits to, or `None` when the path is structurally invalid for this
/// root and offset.
pub fn validate_path(root_hash: &H256, path_buff: &Vec<u8>, target_offset: u64) -> (r: Option<
    ValidatePathResult,
>)
    ensures
        match r {
            Some(res) => merkle_leaf_of(root_hash@, path_buff@, target_offset as nat) == Some(
                res.leaf_hash@,
            ),
            None => merkle_leaf_of(root_hash@, path_buff@, target_offset as nat) is None,
        },
{
    let n = path_buff.len();
    if n < 64 || (n - 64) % 96 != 0 {
        return None;
    }
    let mut expected: H256 = *root_hash;
    let mut i: usize = 0;
    proof {
        assert(path_buff@.skip(0) =~= path_buff@);
    }
    while n - i > 64
        invariant
            i + 64 <= n,
            n == path_buff@.len(),
            (n - i - 64) % 96 == 0,
            merkle_leaf_of(root_hash@, path_buff@, target_offset as nat) == merkle_leaf_of(
                expected@,
                path_buff@.skip(i as int),
                target_offset as nat,
            ),
        decreases n - i,
    {
        let ghost rest = path_buff@.skip(i as int);
        proof {
            assert(rest.len() == n - i);
            assert(rest.len() > 64 && (rest.len() - 64) % 96 == 0);
            assert(rest.len() >= 160);
        }
        let left = slice_subrange(path_buff.as_slice(), i, i + 32);
        let right = slice_subrange(path_buff.as_slice(), i + 32, i + 64);
        let note = slice_subrange(path_buff.as_slice(), i + 64, i + 96);
        proof {
            assert(rest.subrange(0, 32) =~= path_buff@.subrange(i as int, i as int + 32));
            assert(rest.subrange(32, 64) =~= path_buff@.subrange(i as int + 32, i as int + 64));
            assert(rest.subrange(64, 96) =~= path_buff@.subrange(i as int + 64, i as int + 96));
        }
        let hl = hash_sha256(left);
        let hr = hash_sha256(right);
        let hn = hash_sha256(note);
        let id = node_id3(&hl, &hr, &hn);
        if !bytes_eq(id.bytes.as_slice(), expected.bytes.as_slice()) {
            proof {
                assert(merkle_leaf_of(expected@, rest, target_offset as nat) is None);
            }
            return None;
        }
        let go_left = target_le_note(target_offset, note);
        proof {
            assert(rest.skip(96) =~= path_buff@.skip(i as int + 96));
        }
        if go_left {
            expected = H256::from_slice(left);
        } else {
            expected = H256::from_slice(right);
        }
        i += 96;
    }
    let ghost rest = path_buff@.skip(i as int);
    proof {
        assert(rest.len() == 64);
    }
    let data_hash = slice_subrange(path_buff.as_slice(), i, i + 32);
    let note = slice_subrange(path_buff.as_slice(), i + 32, i + 64);
    proof {
        assert(rest.subrange(0, 32) =~= path_buff@.subrange(i as int, i as int + 32));
        assert(rest.subrange(32, 64) =~= path_buff@.subrange(i as int + 32, i as int + 64));
    }
    let hd = hash_sha256(data_hash);
    let hn = hash_sha256(note);
    let id = node_id2(&hd, &hn);
    if bytes_eq(id.bytes.as_slice(), expected.bytes.as_slice()) {
        Some(ValidatePathResult { leaf_hash: H256::from_slice(data_hash) })
    } else {
        None
    }
}

} // verus!
