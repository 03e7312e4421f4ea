//! 32-byte hash values and the SHA-256 digest primitive.

use vstd::prelude::*;

verus! {

/// The SHA-256 digest of a byte sequence. The digest itself is far too
/// involved to state here; all that the rest of the crate relies on is that
/// it is a pure function of the input bytes, 32 bytes wide (see
/// [`hash_sha256`]).
pub uninterp spec fn sha256_of(data: Seq<u8>) -> Seq<u8>;

/// A 32-byte value: a SHA-256 digest, a data root, a transaction id, or a
/// partition hash.
#[derive(Clone, Copy, Debug)]
pub struct H256 {
    pub bytes: [u8; 32],
}

impl View for H256 {
    type V = Seq<u8>;

    open spec fn view(&self) -> Seq<u8> {
        self.bytes@
    }
}

impl H256 {
    pub fn new(bytes: [u8; 32]) -> (r: Self)
        ensures
            r@ == bytes@,
    {
        H256 { bytes }
    }

    /// Copies a 32-byte slice into a hash value.
    pub fn from_slice(b: &[u8]) -> (r: Self)
        requires
            b@.len() == 32,
        ensures
            r@ == b@,
    {
        let mut bytes = [0u8; 32];
        let mut i: usize = 0;
        while i < 32
            invariant
                i <= 32,
                b@.len() == 32,
                forall|j: int| 0 <= j < i ==> bytes@[j] == b@[j],
            decreases 32 - i,
        {
            bytes[i] = b[i];
            i += 1;
        }
        proof {
            assert(bytes@ =~= b@);
        }
        H256 { bytes }
    }

    /// Byte-for-byte equality of two hash values.
    pub fn eq_hash(&self, other: &H256) -> (r: bool)
        ensures
            r == (self@ == other@),
    {
        let mut i: usize = 0;
        while i < 32
            invariant
                i <= 32,
                forall|j: int| 0 <= j < i ==> self.bytes@[j] == other.bytes@[j],
            decreases 32 - i,
        {
            if self.bytes[i] != other.bytes[i] {
                assert(self@[i as int] != other@[i as int]);
                return false;
            }
            i += 1;
        }
        proof {
            assert(self@ =~= other@);
        }
        true
    }
}

/// Byte-for-byte equality of two byte slices.
pub fn bytes_eq(a: &[u8], b: &[u8]) -> (r: bool)
    ensures
        r == (a@ == b@),
{
    if a.len() != b.len() {
        proof {
            assert(a@.len() != b@.len());
        }
        return false;
    }
    let n = a.len();
    let mut i: usize = 0;
    while i < n
        invariant
            i <= n,
            n == a@.len(),
            n == b@.len(),
            forall|j: int| 0 <= j < i ==> a@[j] == b@[j],
        decreases n - i,
    {
        if a[i] != b[i] {
            assert(a@[i as int] != b@[i as int]);
            return false;
        }
        i += 1;
    }
    proof {
        assert(a@ =~= b@);
    }
    true
}

/// Relies on `openssl::sha::sha256`: computes the SHA-256 digest of `data`,
/// a pure function of the input bytes alone, returned as a 32-byte array.
#[verifier::external_body]
pub fn hash_sha256(data: &[u8]) -> (r: H256)
    ensures
        r@ == sha256_of(data@),
        r@.len() == 32,
{
    H256 { bytes: openssl::sha::sha256(data) }
}

} // verus!
