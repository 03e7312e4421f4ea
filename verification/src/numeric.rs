//! Numeric interpretation of byte sequences.
//!
//! Merkle path notes and the compact index encoding are big-endian;
//! candidate mining hashes are little-endian. Both interpretations are
//! defined here as spec functions, with the conversion routines the rest of
//! the crate uses.

use vstd::prelude::*;

verus! {

/// 256 raised to `n`: the weight of a byte at distance `n` from the least
/// significant position.
pub open spec fn pow256(n: nat) -> nat
    decreases n,
{
    if n == 0 {
        1
    } else {
        256 * pow256((n - 1) as nat)
    }
}

/// Value of `s` read as a big-endian unsigned integer (first byte most
/// significant).
pub open spec fn be_value(s: Seq<u8>) -> nat
    decreases s.len(),
{
    if s.len() == 0 {
        0nat
    } else {
        (be_value(s.drop_last()) * 256 + s.last()) as nat
    }
}

/// Value of `s` read as a little-endian unsigned integer (first byte least
/// significant).
pub open spec fn le_value(s: Seq<u8>) -> nat
    decreases s.len(),
{
    if s.len() == 0 {
        0nat
    } else {
        (s.first() + 256 * le_value(s.drop_first())) as nat
    }
}

pub proof fn lemma_be_value_bound(s: Seq<u8>)
    ensures
        be_value(s) < pow256(s.len()),
    decreases s.len(),
{
    if s.len() > 0 {
        lemma_be_value_bound(s.drop_last());
        let p = pow256((s.len() - 1) as nat);
        assert(be_value(s.drop_last()) <= p - 1);
        assert(be_value(s.drop_last()) * 256 <= (p - 1) * 256) by (nonlinear_arith)
            requires
                be_value(s.drop_last()) <= p - 1,
        ;
        assert(pow256(s.len()) == 256 * p);
    }
}

pub proof fn lemma_le_value_bound(s: Seq<u8>)
    ensures
        le_value(s) < pow256(s.len()),
    decreases s.len(),
{
    if s.len() > 0 {
        lemma_le_value_bound(s.drop_first());
        let p = pow256((s.len() - 1) as nat);
        assert(le_value(s.drop_first()) <= p - 1);
        assert(256 * le_value(s.drop_first()) <= 256 * (p - 1)) by (nonlinear_arith)
            requires
                le_value(s.drop_first()) <= p - 1,
        ;
        assert(pow256(s.len()) == 256 * p);
    }
}

/// Concatenation splits a big-endian value: the left part carries the weight
/// of the right part's width.
pub proof fn lemma_be_value_append(a: Seq<u8>, b: Seq<u8>)
    ensures
        be_value(a + b) == be_value(a) * pow256(b.len()) + be_value(b),
    decreases b.len(),
{
    if b.len() == 0 {
        assert(a + b =~= a);
        assert(be_value(b) == 0);
        assert(pow256(b.len()) == 1);
        assert(be_value(a) * 1 == be_value(a)) by (nonlinear_arith);
    } else {
        lemma_be_value_append(a, b.drop_last());
        assert((a + b).drop_last() =~= a + b.drop_last());
        assert((a + b).last() == b.last());
        let x = be_value(a);
        let y = be_value(b.drop_last());
        let p = pow256((b.len() - 1) as nat);
        assert(be_value(a + b) == (x * p + y) * 256 + b.last());
        assert((x * p + y) * 256 == x * (p * 256) + y * 256) by (nonlinear_arith);
        assert(pow256(b.len()) == 256 * p);
        assert(x * (p * 256) == x * pow256(b.len())) by (nonlinear_arith)
            requires
                pow256(b.len()) == 256 * p,
        ;
        assert(be_value(b) == y * 256 + b.last());
    }
}

/// Concatenation splits a little-endian value: the right part carries the
/// weight of the left part's width.
pub proof fn lemma_le_value_append(a: Seq<u8>, b: Seq<u8>)
    ensures
        le_value(a + b) == le_value(a) + pow256(a.len()) * le_value(b),
    decreases a.len(),
{
    if a.len() == 0 {
        assert(a + b =~= b);
        assert(le_value(a) == 0);
        assert(pow256(a.len()) == 1);
        assert(1 * le_value(b) == le_value(b)) by (nonlinear_arith);
    } else {
        lemma_le_value_append(a.drop_first(), b);
        assert((a + b).drop_first() =~= a.drop_first() + b);
        assert((a + b).first() == a.first());
        let y = le_value(a.drop_first());
        let z = le_value(b);
        let p = pow256((a.len() - 1) as nat);
        assert(le_value(a + b) == a.first() + 256 * (y + p * z));
        assert(256 * (y + p * z) == 256 * y + (256 * p) * z) by (nonlinear_arith);
        assert(pow256(a.len()) == 256 * p);
        assert(le_value(a) == a.first() + 256 * y);
    }
}

/// A sequence of zero bytes has value zero in either reading.
pub proof fn lemma_all_zero_value(s: Seq<u8>)
    requires
        forall|i: int| 0 <= i < s.len() ==> s[i] == 0,
    ensures
        be_value(s) == 0,
        le_value(s) == 0,
    decreases s.len(),
{
    if s.len() > 0 {
        assert(forall|i: int| 0 <= i < s.drop_last().len() ==> s.drop_last()[i] == 0);
        assert(forall|i: int| 0 <= i < s.drop_first().len() ==> s.drop_first()[i] == 0);
        lemma_all_zero_value(s.drop_last());
        lemma_all_zero_value(s.drop_first());
    }
}

/// A sequence holding a nonzero byte has a nonzero big-endian value.
pub proof fn lemma_nonzero_be_value(s: Seq<u8>, i: int)
    requires
        0 <= i < s.len(),
        s[i] != 0,
    ensures
        be_value(s) >= 1,
    decreases s.len(),
{
    if i == s.len() - 1 {
        assert(s.last() != 0);
    } else {
        lemma_nonzero_be_value(s.drop_last(), i);
        assert(be_value(s.drop_last()) * 256 >= 256) by (nonlinear_arith)
            requires
                be_value(s.drop_last()) >= 1,
        ;
    }
}

/// Reads at most eight bytes as a big-endian integer.
pub fn u64_from_be_bytes(b: &[u8]) -> (r: u64)
    requires
        b@.len() <= 8,
    ensures
        r as nat == be_value(b@),
{
    let mut acc: u64 = 0;
    let mut i: usize = 0;
    proof {
        assert(b@.take(0) =~= Seq::<u8>::empty());
    }
    while i < b.len()
        invariant
            i <= b@.len() <= 8,
            acc as nat == be_value(b@.take(i as int)),
        decreases b@.len() - i,
    {
        proof {
            lemma_be_value_bound(b@.take(i as int));
            lemma_pow256_le_7(i as nat);
            assert(b@.take(i as int + 1).drop_last() =~= b@.take(i as int));
            assert(b@.take(i as int + 1).last() == b@[i as int]);
        }
        acc = acc * 256 + (b[i] as u64);
        i += 1;
    }
    proof {
        assert(b@.take(b@.len() as int) =~= b@);
    }
    acc
}

/// Reads at most eight bytes as a little-endian integer.
pub fn u64_from_le_bytes(b: &[u8]) -> (r: u64)
    requires
        b@.len() <= 8,
    ensures
        r as nat == le_value(b@),
{
    let mut acc: u64 = 0;
    let mut i: usize = b.len();
    proof {
        assert(b@.skip(b@.len() as int) =~= Seq::<u8>::empty());
    }
    while i > 0
        invariant
            i <= b@.len() <= 8,
            acc as nat == le_value(b@.skip(i as int)),
        decreases i,
    {
        i -= 1;
        proof {
            lemma_le_value_bound(b@.skip(i as int + 1));
            lemma_pow256_le_7((b@.len() - i - 1) as nat);
            assert(b@.skip(i as int).drop_first() =~= b@.skip(i as int + 1));
            assert(b@.skip(i as int).first() == b@[i as int]);
        }
        acc = (b[i] as u64) + acc * 256;
    }
    proof {
        assert(b@.skip(0) =~= b@);
    }
    acc
}

/// Strict lexicographic order on byte sequences: the order raw records
/// sort under when compared byte by byte.
pub open spec fn lex_lt(a: Seq<u8>, b: Seq<u8>) -> bool
    decreases a.len(),
{
    if a.len() == 0 {
        b.len() > 0
    } else if b.len() == 0 {
        false
    } else {
        a.first() < b.first() || (a.first() == b.first() && lex_lt(a.drop_first(), b.drop_first()))
    }
}

/// `be_value` decomposed at the front: the first byte carries the weight of
/// the remaining width.
pub proof fn lemma_be_value_front(s: Seq<u8>)
    requires
        s.len() > 0,
    ensures
        be_value(s) == s.first() * pow256((s.len() - 1) as nat) + be_value(s.drop_first()),
{
    let head = s.subrange(0, 1);
    let tail = s.drop_first();
    assert(s =~= head + tail);
    lemma_be_value_append(head, tail);
    assert(head.drop_last() =~= Seq::<u8>::empty());
    assert(be_value(Seq::<u8>::empty()) == 0);
    assert(head.last() == s.first());
    assert(be_value(head) == be_value(head.drop_last()) * 256 + head.last());
    assert(be_value(head) == s.first());
}

/// Big-endian order of equal-width sequences is exactly their raw byte
/// order.
pub proof fn lemma_be_lt_lex(a: Seq<u8>, b: Seq<u8>)
    requires
        a.len() == b.len(),
        be_value(a) < be_value(b),
    ensures
        lex_lt(a, b),
    decreases a.len(),
{
    if a.len() == 0 {
        assert(false);
    } else {
        lemma_be_value_front(a);
        lemma_be_value_front(b);
        let p = pow256((a.len() - 1) as nat);
        if a.first() > b.first() {
            lemma_be_value_bound(b.drop_first());
            assert(a.first() * p >= (b.first() + 1) * p) by (nonlinear_arith)
                requires
                    a.first() >= b.first() + 1,
                    p >= 0,
            ;
            assert((b.first() + 1) * p == b.first() * p + p) by (nonlinear_arith);
            assert(false);
        } else if a.first() == b.first() {
            assert(a.first() * p == b.first() * p);
            lemma_be_lt_lex(a.drop_first(), b.drop_first());
        }
    }
}

/// Spells out `be_value` on a four-byte sequence.
pub proof fn lemma_be_value4(s: Seq<u8>)
    requires
        s.len() == 4,
    ensures
        be_value(s) == ((s[0] * 256 + s[1]) * 256 + s[2]) * 256 + s[3],
{
    let s3 = s.drop_last();
    let s2 = s3.drop_last();
    let s1 = s2.drop_last();
    let s0 = s1.drop_last();
    assert(s0 =~= Seq::<u8>::empty());
    assert(be_value(s0) == 0);
    assert(s1.last() == s[0]);
    assert(be_value(s1) == s[0]);
    assert(s2.last() == s[1]);
    assert(be_value(s2) == s[0] * 256 + s[1]);
    assert(s3.last() == s[2]);
    assert(be_value(s3) == (s[0] * 256 + s[1]) * 256 + s[2]);
    assert(s.last() == s[3]);
}

/// Spells out `le_value` on a four-byte sequence.
proof fn lemma_le_value4(s: Seq<u8>)
    requires
        s.len() == 4,
    ensures
        le_value(s) == s[0] + 256 * (s[1] + 256 * (s[2] + 256 * s[3])),
{
    let s1 = s.drop_first();
    let s2 = s1.drop_first();
    let s3 = s2.drop_first();
    let s4 = s3.drop_first();
    assert(s4 =~= Seq::<u8>::empty());
    assert(le_value(s4) == 0);
    assert(s3.first() == s[3]);
    assert(le_value(s3) == s[3]);
    assert(s2.first() == s[2]);
    assert(le_value(s2) == s[2] + 256 * s[3]);
    assert(s1.first() == s[1]);
    assert(le_value(s1) == s[1] + 256 * (s[2] + 256 * s[3]));
    assert(s.first() == s[0]);
}

/// The four big-endian bytes of `x`.
pub open spec fn spec_u32_to_be_bytes(x: u32) -> Seq<u8> {
    seq![(x >> 24) as u8, (x >> 16) as u8, (x >> 8) as u8, x as u8]
}

/// Writes `x` as four big-endian bytes.
pub fn u32_to_be_bytes(x: u32) -> (r: Vec<u8>)
    ensures
        r@.len() == 4,
        r@ == spec_u32_to_be_bytes(x),
        be_value(r@) == x,
{
    let b3: u8 = ((x >> 24) & 0xff) as u8;
    let b2: u8 = ((x >> 16) & 0xff) as u8;
    let b1: u8 = ((x >> 8) & 0xff) as u8;
    let b0: u8 = (x & 0xff) as u8;
    let mut r: Vec<u8> = Vec::new();
    r.push(b3);
    r.push(b2);
    r.push(b1);
    r.push(b0);
    proof {
        let s = r@;
        assert(s =~= seq![b3, b2, b1, b0]);
        lemma_be_value4(s);
        assert(((x >> 24) & 0xff) < 256 && ((x >> 16) & 0xff) < 256 && ((x >> 8) & 0xff) < 256 && (
        x & 0xff) < 256) by (bit_vector);
        assert(x == (((((x >> 24) & 0xff) * 256 + ((x >> 16) & 0xff)) * 256 + ((x >> 8) & 0xff))
            * 256 + (x & 0xff))) by (bit_vector);
        assert(((x >> 24) & 0xff) as u8 == (x >> 24) as u8 && ((x >> 16) & 0xff) as u8 == (x >> 16)
            as u8 && ((x >> 8) & 0xff) as u8 == (x >> 8) as u8 && (x & 0xff) as u8 == x as u8)
            by (bit_vector);
        assert(s =~= spec_u32_to_be_bytes(x));
    }
    r
}

/// The four little-endian bytes of `x`.
pub open spec fn spec_u32_to_le_bytes(x: u32) -> Seq<u8> {
    seq![x as u8, (x >> 8) as u8, (x >> 16) as u8, (x >> 24) as u8]
}

/// Writes `x` as four little-endian bytes.
pub fn u32_to_le_bytes(x: u32) -> (r: Vec<u8>)
    ensures
        r@.len() == 4,
        r@ == spec_u32_to_le_bytes(x),
        le_value(r@) == x,
{
    let b0: u8 = (x & 0xff) as u8;
    let b1: u8 = ((x >> 8) & 0xff) as u8;
    let b2: u8 = ((x >> 16) & 0xff) as u8;
    let b3: u8 = ((x >> 24) & 0xff) as u8;
    let mut r: Vec<u8> = Vec::new();
    r.push(b0);
    r.push(b1);
    r.push(b2);
    r.push(b3);
    proof {
        let s = r@;
        assert(s =~= seq![b0, b1, b2, b3]);
        lemma_le_value4(s);
        assert(((x >> 24) & 0xff) < 256 && ((x >> 16) & 0xff) < 256 && ((x >> 8) & 0xff) < 256 && (
        x & 0xff) < 256) by (bit_vector);
        assert(x == ((x & 0xff) + 256 * (((x >> 8) & 0xff) + 256 * (((x >> 16) & 0xff) + 256 * ((x
            >> 24) & 0xff))))) by (bit_vector);
        assert(((x >> 24) & 0xff) as u8 == (x >> 24) as u8 && ((x >> 16) & 0xff) as u8 == (x >> 16)
            as u8 && ((x >> 8) & 0xff) as u8 == (x >> 8) as u8 && (x & 0xff) as u8 == x as u8)
            by (bit_vector);
        assert(s =~= spec_u32_to_le_bytes(x));
    }
    r
}

/// The weight of the fifth byte position is exactly `2^32`.
pub proof fn lemma_pow256_4()
    ensures
        pow256(4) == 0x100000000,
{
    assert(pow256(0) == 1);
    assert(pow256(1) == 256 * pow256(0));
    assert(pow256(2) == 256 * pow256(1));
    assert(pow256(3) == 256 * pow256(2));
    assert(pow256(4) == 256 * pow256(3));
}

/// The weight of the ninth byte position is exactly `2^64`.
pub proof fn lemma_pow256_8()
    ensures
        pow256(8) == 0x10000000000000000,
{
    assert(pow256(0) == 1);
    assert(pow256(1) == 256 * pow256(0));
    assert(pow256(2) == 256 * pow256(1));
    assert(pow256(3) == 256 * pow256(2));
    assert(pow256(4) == 256 * pow256(3));
    assert(pow256(5) == 256 * pow256(4));
    assert(pow256(6) == 256 * pow256(5));
    assert(pow256(7) == 256 * pow256(6));
    assert(pow256(8) == 256 * pow256(7));
}

/// `pow256` of a small exponent stays below the `u64` range with a byte to
/// spare.
proof fn lemma_pow256_le_7(n: nat)
    requires
        n <= 8,
    ensures
        n < 8 ==> pow256(n) <= 0x100000000000000,
        pow256(n) <= 0x10000000000000000,
{
    assert(pow256(0) == 1);
    assert(pow256(1) == 256 * pow256(0));
    assert(pow256(2) == 256 * pow256(1));
    assert(pow256(3) == 256 * pow256(2));
    assert(pow256(4) == 256 * pow256(3));
    assert(pow256(5) == 256 * pow256(4));
    assert(pow256(6) == 256 * pow256(5));
    assert(pow256(7) == 256 * pow256(6));
    assert(pow256(8) == 256 * pow256(7));
}

} // verus!
