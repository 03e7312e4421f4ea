//! The compact index-entry encoding and the offset/index conversion.

use irys_core::db_cache::{
    chunk_offset_to_index, CachedChunkIndexEntry, CachedChunkIndexMetadata,
    MAX_INDEX_RECORD_SIZE,
};
use irys_core::hash::H256;
use irys_core::numeric::{u32_to_be_bytes, u64_from_be_bytes, u64_from_le_bytes};
use irys_core::u256::U256;

fn entry(index: u32, tag: u8) -> CachedChunkIndexEntry {
    CachedChunkIndexEntry {
        index,
        meta: CachedChunkIndexMetadata { chunk_path_hash: H256::new([tag; 32]) },
    }
}

#[test]
fn index_entry_roundtrip() {
    let e = entry(7, 9);
    let mut buf: Vec<u8> = Vec::new();
    let n = e.to_compact(&mut buf);
    assert_eq!(n, 36);
    assert!(n <= MAX_INDEX_RECORD_SIZE);
    assert_eq!(buf.len(), 36);
    assert_eq!(&buf[0..4], &[0, 0, 0, 7]);

    let (decoded, rest) = CachedChunkIndexEntry::from_compact(&buf);
    assert_eq!(decoded.index, 7);
    assert_eq!(decoded.meta.chunk_path_hash.bytes, [9u8; 32]);
    assert!(rest.is_empty());
}

#[test]
fn index_entry_encoding_appends() {
    let mut buf: Vec<u8> = vec![0xaa, 0xbb];
    let n = entry(1, 2).to_compact(&mut buf);
    assert_eq!(n, 36);
    assert_eq!(buf.len(), 38);
    assert_eq!(&buf[0..2], &[0xaa, 0xbb]);
}

#[test]
fn index_encoding_sorts_by_index() {
    // Raw byte order over encoded records equals index order, including
    // across byte boundaries of the big-endian index.
    let cases = [(0u32, 1u32), (1, 255), (255, 256), (256, 257), (65535, 65536), (1, 0x01000000)];
    for (a, b) in cases {
        let mut ba: Vec<u8> = Vec::new();
        let mut bb: Vec<u8> = Vec::new();
        entry(a, 0xff).to_compact(&mut ba);
        entry(b, 0x00).to_compact(&mut bb);
        assert!(ba < bb, "encoding of {} should sort below {}", a, b);
    }
}

#[test]
fn offset_index_roundtrip() {
    const CS: u32 = 262144;
    // Offsets are end bounds: the first chunk ends at CHUNK_SIZE.
    assert_eq!(chunk_offset_to_index(CS), Some(0));
    assert_eq!(chunk_offset_to_index(CS + 1), Some(1));
    assert_eq!(chunk_offset_to_index(2 * CS), Some(1));
    assert_eq!(chunk_offset_to_index(2 * CS + 1), Some(2));
    assert_eq!(chunk_offset_to_index(1), Some(0));
    // A zero offset has no chunk before it.
    assert_eq!(chunk_offset_to_index(0), None);
}

#[test]
fn endian_helpers() {
    assert_eq!(u32_to_be_bytes(0x01020304), vec![1, 2, 3, 4]);
    assert_eq!(u64_from_be_bytes(&[1, 2, 3, 4]), 0x01020304);
    assert_eq!(u64_from_le_bytes(&[4, 3, 2, 1]), 0x01020304);
    assert_eq!(u64_from_be_bytes(&[]), 0);
}

#[test]
fn u256_comparison_across_limbs() {
    let mut low = [0u8; 32];
    low[0] = 9;
    let mut high = [0u8; 32];
    high[31] = 1;
    let a = U256::from_little_endian(&low);
    let b = U256::from_little_endian(&high);
    assert!(b.ge(&a));
    assert!(!a.ge(&b));
    assert!(a.ge(&a));
    assert!(a.ge(&U256::zero()));
}
