//! 256-bit unsigned integers, used for mining difficulty and candidate
//! hash values.

use vstd::prelude::*;

use crate::numeric::{le_value, lemma_le_value_append, pow256};

verus! {

/// An unsigned 256-bit integer held as four 64-bit limbs, least significant
/// limb first.
#[derive(Clone, Copy, Debug)]
pub struct U256 {
    pub limbs: [u64; 4],
}

impl U256 {
    /// The mathematical value: limb `i` carries weight `2^(64*i)`.
    pub open spec fn value(self) -> nat {
        (self.limbs@[0] + pow256(8) * (self.limbs@[1] + pow256(8) * (self.limbs@[2] + pow256(8)
            * self.limbs@[3]))) as nat
    }

    pub fn zero() -> (r: Self)
        ensures
            r.value() == 0,
    {
        let limbs = [0u64; 4];
        proof {
            assert(limbs@ =~= Seq::new(4, |i: int| 0u64));
        }
        let r = U256 { limbs };
        proof {
            assert(r.limbs@[0] == 0);
            assert(pow256(8) * 0 == 0);
            assert(r.value() == 0);
        }
        r
    }

    /// Reads a 32-byte buffer as a little-endian 256-bit integer.
    pub fn from_little_endian(bytes: &[u8]) -> (r: Self)
        requires
            bytes@.len() == 32,
        ensures
            r.value() == le_value(bytes@),
    {
        let l0: u64 = crate::numeric::u64_from_le_bytes(vstd::slice::slice_subrange(bytes, 0, 8));
        let l1: u64 = crate::numeric::u64_from_le_bytes(vstd::slice::slice_subrange(bytes, 8, 16));
        let l2: u64 = crate::numeric::u64_from_le_bytes(vstd::slice::slice_subrange(bytes, 16, 24));
        let l3: u64 = crate::numeric::u64_from_le_bytes(vstd::slice::slice_subrange(bytes, 24, 32));
        let r = U256 { limbs: [l0, l1, l2, l3] };
        proof {
            let s = bytes@;
            let p0 = s.subrange(0, 8);
            let p1 = s.subrange(8, 16);
            let p2 = s.subrange(16, 24);
            let p3 = s.subrange(24, 32);
            assert(s =~= p0 + (p1 + (p2 + p3)));
            lemma_le_value_append(p2, p3);
            assert(p1 + (p2 + p3) =~= p1 + p2 + p3);
            lemma_le_value_append(p1, p2 + p3);
            lemma_le_value_append(p0, p1 + (p2 + p3));
            assert((p1 + (p2 + p3)).len() == 24);
            assert((p2 + p3).len() == 16);
            assert(r.limbs@[0] == l0 && r.limbs@[1] == l1 && r.limbs@[2] == l2 && r.limbs@[3]
                == l3);
            assert(le_value(s) == le_value(p0) + pow256(8) * (le_value(p1) + pow256(8) * (le_value(
                p2,
            ) + pow256(8) * le_value(p3))));
        }
        r
    }

    /// Limb-wise comparison, most significant limb first.
    pub fn ge(&self, other: &U256) -> (r: bool)
        ensures
            r == (self.value() >= other.value()),
    {
        proof {
            lemma_u256_cmp(*self, *other);
            lemma_u256_cmp(*other, *self);
        }
        if self.limbs[3] != other.limbs[3] {
            return self.limbs[3] > other.limbs[3];
        }
        if self.limbs[2] != other.limbs[2] {
            return self.limbs[2] > other.limbs[2];
        }
        if self.limbs[1] != other.limbs[1] {
            return self.limbs[1] > other.limbs[1];
        }
        self.limbs[0] >= other.limbs[0]
    }
}

/// A value weighted by `p` dominates any remainder below `p`.
proof fn lemma_weighted_cmp(x: nat, y: nat, ha: nat, hb: nat, p: nat)
    by (nonlinear_arith)
    requires
        x < p,
        y < p,
        ha > hb,
    ensures
        x + p * ha > y + p * hb,
{
}

/// Comparing two 256-bit values limb by limb from the top decides their
/// order.
proof fn lemma_u256_cmp(a: U256, b: U256)
    ensures
        a.limbs@[3] > b.limbs@[3] ==> a.value() > b.value(),
        a.limbs@[3] == b.limbs@[3] && a.limbs@[2] > b.limbs@[2] ==> a.value() > b.value(),
        a.limbs@[3] == b.limbs@[3] && a.limbs@[2] == b.limbs@[2] && a.limbs@[1] > b.limbs@[1]
            ==> a.value() > b.value(),
        a.limbs@[3] == b.limbs@[3] && a.limbs@[2] == b.limbs@[2] && a.limbs@[1] == b.limbs@[1]
            && a.limbs@[0] > b.limbs@[0] ==> a.value() > b.value(),
        a.limbs@[3] == b.limbs@[3] && a.limbs@[2] == b.limbs@[2] && a.limbs@[1] == b.limbs@[1]
            && a.limbs@[0] == b.limbs@[0] ==> a.value() == b.value(),
{
    crate::numeric::lemma_pow256_8();
    let p = pow256(8);
    let a0 = a.limbs@[0] as nat;
    let a1 = a.limbs@[1] as nat;
    let a2 = a.limbs@[2] as nat;
    let a3 = a.limbs@[3] as nat;
    let b0 = b.limbs@[0] as nat;
    let b1 = b.limbs@[1] as nat;
    let b2 = b.limbs@[2] as nat;
    let b3 = b.limbs@[3] as nat;
    let ta = (a2 + p * a3) as nat;
    let tb = (b2 + p * b3) as nat;
    let ua = (a1 + p * ta) as nat;
    let ub = (b1 + p * tb) as nat;
    assert(a.value() == a0 + p * ua);
    assert(b.value() == b0 + p * ub);
    if a3 > b3 {
        lemma_weighted_cmp(a2, b2, a3, b3, p);
        lemma_weighted_cmp(a1, b1, ta, tb, p);
        lemma_weighted_cmp(a0, b0, ua, ub, p);
    } else if a3 == b3 && a2 > b2 {
        lemma_weighted_cmp(a1, b1, ta, tb, p);
        lemma_weighted_cmp(a0, b0, ua, ub, p);
    } else if a3 == b3 && a2 == b2 && a1 > b1 {
        lemma_weighted_cmp(a0, b0, ua, ub, p);
    }
}

} // verus!
