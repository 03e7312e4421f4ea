//! Transaction and chunk ingress behaviour, end to end against real
//! SHA-256 merkle paths.

use irys_core::chunk::Chunk;
use irys_core::hash::{hash_sha256, H256};
use irys_core::mempool::{
    ChunkIngressError, ChunkIngressMessage, GetBestMempoolTxs, IrysTransactionHeader,
    MempoolActor, TxIngressError, TxIngressMessage,
};
use irys_core::CHUNK_SIZE;

const CS: usize = CHUNK_SIZE as usize;

fn id_of(tag: u8) -> H256 {
    let mut b = [0u8; 32];
    b[0] = tag;
    H256::new(b)
}

/// A 32-byte big-endian note holding `offset`.
fn note_bytes(offset: u64) -> Vec<u8> {
    let mut v = vec![0u8; 24];
    v.extend_from_slice(&offset.to_be_bytes());
    v
}

fn leaf_id(data_hash: &H256, note: &[u8]) -> H256 {
    let mut cat = Vec::new();
    cat.extend_from_slice(&hash_sha256(&data_hash.bytes).bytes);
    cat.extend_from_slice(&hash_sha256(note).bytes);
    hash_sha256(&cat)
}

fn branch_id(left: &H256, right: &H256, note: &[u8]) -> H256 {
    let mut cat = Vec::new();
    cat.extend_from_slice(&hash_sha256(&left.bytes).bytes);
    cat.extend_from_slice(&hash_sha256(&right.bytes).bytes);
    cat.extend_from_slice(&hash_sha256(note).bytes);
    hash_sha256(&cat)
}

/// 2.5 chunks of deterministic data, split into three chunks, with a
/// merkle path for each: two branch levels over three leaves.
struct TestTx {
    root: H256,
    data_size: u64,
    chunks: Vec<Vec<u8>>,
    offsets: Vec<u64>,
    paths: Vec<Vec<u8>>,
}

fn build_test_tx() -> TestTx {
    let data_size = (CS * 2 + CS / 2) as u64;
    let mut data = vec![0u8; data_size as usize];
    for (i, b) in data.iter_mut().enumerate() {
        *b = (i % 251) as u8;
    }
    let chunks: Vec<Vec<u8>> = vec![
        data[0..CS].to_vec(),
        data[CS..2 * CS].to_vec(),
        data[2 * CS..].to_vec(),
    ];
    let offsets: Vec<u64> = vec![CS as u64, 2 * CS as u64, data_size];

    let data_hashes: Vec<H256> = chunks.iter().map(|c| hash_sha256(c)).collect();
    let leaves: Vec<H256> = (0..3)
        .map(|i| leaf_id(&data_hashes[i], &note_bytes(offsets[i])))
        .collect();
    let b01 = branch_id(&leaves[0], &leaves[1], &note_bytes(offsets[0]));
    let root = branch_id(&b01, &leaves[2], &note_bytes(offsets[1]));

    let root_record = |p: &mut Vec<u8>| {
        p.extend_from_slice(&b01.bytes);
        p.extend_from_slice(&leaves[2].bytes);
        p.extend_from_slice(&note_bytes(offsets[1]));
    };
    let left_record = |p: &mut Vec<u8>| {
        p.extend_from_slice(&leaves[0].bytes);
        p.extend_from_slice(&leaves[1].bytes);
        p.extend_from_slice(&note_bytes(offsets[0]));
    };

    let mut paths = Vec::new();
    for i in 0..3 {
        let mut p = Vec::new();
        root_record(&mut p);
        if i < 2 {
            left_record(&mut p);
        }
        p.extend_from_slice(&data_hashes[i].bytes);
        p.extend_from_slice(&note_bytes(offsets[i]));
        paths.push(p);
    }

    TestTx { root, data_size, chunks, offsets, paths }
}

fn header_for(tx: &TestTx, tag: u8) -> IrysTransactionHeader {
    IrysTransactionHeader {
        id: id_of(tag),
        data_root: tx.root,
        data_size: tx.data_size,
        signature: vec![7u8; 65],
    }
}

fn chunk_msg(tx: &TestTx, i: usize) -> ChunkIngressMessage {
    ChunkIngressMessage(Chunk {
        data_root: tx.root,
        data_size: tx.data_size,
        data_path: tx.paths[i].clone(),
        bytes: tx.chunks[i].clone(),
        offset: tx.offsets[i] as u32,
    })
}

#[test]
fn post_transaction_and_chunks() {
    let tx = build_test_tx();
    let mut mempool = MempoolActor::new();

    let result = mempool.handle_tx_ingress(TxIngressMessage(header_for(&tx, 1)), true, 1_000);
    assert!(matches!(result, Ok(())));

    // The data root is retrievable by its root hash.
    let cached = mempool.get_cached_data_root(&tx.root);
    assert!(cached.is_some());
    assert_eq!(cached.unwrap().data_size, tx.data_size);

    // Post every chunk in order; each becomes retrievable by the hash of
    // its data path.
    for i in 0..3 {
        let result = mempool.handle_chunk_ingress(chunk_msg(&tx, i));
        assert!(matches!(result, Ok(())));

        let key = Chunk::hash_data_path(&tx.paths[i]);
        let cached_chunk = mempool.get_cached_chunk(&key);
        assert!(cached_chunk.is_some());
        let entry = cached_chunk.unwrap();
        assert_eq!(entry.data_path, tx.paths[i]);
        assert_eq!(entry.chunk.as_ref().unwrap(), &tx.chunks[i]);
    }
}

#[test]
fn idempotent_root_caching_two_headers() {
    let tx = build_test_tx();
    let mut mempool = MempoolActor::new();

    assert!(mempool
        .handle_tx_ingress(TxIngressMessage(header_for(&tx, 1)), true, 111)
        .is_ok());

    // Second header: same root, distinct id, different declared size; the
    // first-recorded size and timestamp stay authoritative.
    let mut h2 = header_for(&tx, 2);
    h2.data_size = tx.data_size + 5;
    assert!(mempool.handle_tx_ingress(TxIngressMessage(h2), true, 222).is_ok());

    let entry = mempool.get_cached_data_root(&tx.root).unwrap();
    assert_eq!(entry.data_size, tx.data_size);
    assert_eq!(entry.timestamp, 111);
    assert_eq!(entry.txid_set.len(), 2);
    assert_eq!(entry.txid_set[0].bytes, id_of(1).bytes);
    assert_eq!(entry.txid_set[1].bytes, id_of(2).bytes);
}

#[test]
fn replay_rejection_skips_signature_check() {
    let tx = build_test_tx();
    let mut mempool = MempoolActor::new();
    let mut signature_checks: u32 = 0;

    // The driver pattern: consult tx_is_known first and verify the
    // signature only for unseen ids.
    for _attempt in 0..3 {
        let header = header_for(&tx, 1);
        let sig_valid = if !mempool.tx_is_known(&header.id) {
            signature_checks += 1;
            true
        } else {
            false
        };
        let result = mempool.handle_tx_ingress(TxIngressMessage(header), sig_valid, 99);
        if _attempt == 0 {
            assert!(matches!(result, Ok(())));
        } else {
            assert!(matches!(result, Err(TxIngressError::Skipped)));
        }
    }
    assert_eq!(signature_checks, 1);
}

#[test]
fn invalid_signature_is_terminal() {
    let tx = build_test_tx();
    let mut mempool = MempoolActor::new();

    let result = mempool.handle_tx_ingress(TxIngressMessage(header_for(&tx, 1)), false, 5);
    assert!(matches!(result, Err(TxIngressError::InvalidSignature)));
    assert!(mempool.get_cached_data_root(&tx.root).is_none());

    // The id is now terminally Invalid: even a valid-signature resubmission
    // is skipped.
    let result = mempool.handle_tx_ingress(TxIngressMessage(header_for(&tx, 1)), true, 6);
    assert!(matches!(result, Err(TxIngressError::Skipped)));
}

#[test]
fn sizing_rule_boundary() {
    let tx = build_test_tx();
    let mut mempool = MempoolActor::new();
    assert!(mempool
        .handle_tx_ingress(TxIngressMessage(header_for(&tx, 1)), true, 1)
        .is_ok());

    // An interior chunk one byte short of CHUNK_SIZE is rejected.
    let mut short = chunk_msg(&tx, 0);
    short.0.bytes.pop();
    let result = mempool.handle_chunk_ingress(short);
    assert!(matches!(result, Err(ChunkIngressError::InvalidChunkSize)));

    // A final chunk longer than CHUNK_SIZE is rejected.
    let mut long = chunk_msg(&tx, 2);
    long.0.bytes = vec![0u8; CS + 1];
    let result = mempool.handle_chunk_ingress(long);
    assert!(matches!(result, Err(ChunkIngressError::InvalidChunkSize)));

    // The true final chunk, smaller than CHUNK_SIZE, is accepted.
    let result = mempool.handle_chunk_ingress(chunk_msg(&tx, 2));
    assert!(matches!(result, Ok(())));
}

#[test]
fn chunk_against_unknown_root_is_rejected() {
    let tx = build_test_tx();
    let mut mempool = MempoolActor::new();
    // No header was posted for this root.
    let result = mempool.handle_chunk_ingress(chunk_msg(&tx, 0));
    assert!(matches!(result, Err(ChunkIngressError::InvalidDataHash)));
}

#[test]
fn invalid_proof_is_rejected() {
    let tx = build_test_tx();
    let mut mempool = MempoolActor::new();
    assert!(mempool
        .handle_tx_ingress(TxIngressMessage(header_for(&tx, 1)), true, 1)
        .is_ok());

    let mut garbled = chunk_msg(&tx, 0);
    garbled.0.data_path = vec![1, 2, 3, 4];
    let result = mempool.handle_chunk_ingress(garbled);
    assert!(matches!(result, Err(ChunkIngressError::InvalidProof)));
}

#[test]
fn declared_size_mismatch_is_rejected() {
    let tx = build_test_tx();
    let mut mempool = MempoolActor::new();
    assert!(mempool
        .handle_tx_ingress(TxIngressMessage(header_for(&tx, 1)), true, 1)
        .is_ok());

    let mut wrong_size = chunk_msg(&tx, 0);
    wrong_size.0.data_size += 1;
    let result = mempool.handle_chunk_ingress(wrong_size);
    assert!(matches!(result, Err(ChunkIngressError::InvalidDataHash)));
}

#[test]
fn payload_hash_mismatch_is_rejected() {
    let tx = build_test_tx();
    let mut mempool = MempoolActor::new();
    assert!(mempool
        .handle_tx_ingress(TxIngressMessage(header_for(&tx, 1)), true, 1)
        .is_ok());

    // Right length, wrong bytes: the path's leaf hash does not match.
    let mut tampered = chunk_msg(&tx, 0);
    tampered.0.bytes[0] ^= 0xff;
    let result = mempool.handle_chunk_ingress(tampered);
    assert!(matches!(result, Err(ChunkIngressError::InvalidDataHash)));

    // The rejected chunk was not cached, and the root stays usable.
    let key = Chunk::hash_data_path(&tx.paths[0]);
    assert!(mempool.get_cached_chunk(&key).is_none());
    let result = mempool.handle_chunk_ingress(chunk_msg(&tx, 0));
    assert!(matches!(result, Ok(())));
}

#[test]
fn pending_transactions_in_arrival_order() {
    let tx = build_test_tx();
    let mut mempool = MempoolActor::new();
    assert!(mempool
        .handle_tx_ingress(TxIngressMessage(header_for(&tx, 3)), true, 1)
        .is_ok());
    assert!(mempool
        .handle_tx_ingress(TxIngressMessage(header_for(&tx, 1)), true, 2)
        .is_ok());

    let pending = mempool.get_best_mempool_txs(GetBestMempoolTxs);
    assert_eq!(pending.len(), 2);
    assert_eq!(pending[0].id.bytes, id_of(3).bytes);
    assert_eq!(pending[1].id.bytes, id_of(1).bytes);
    assert_eq!(pending[0].data_size, tx.data_size);
}

#[test]
fn known_sha256_test_vectors() {
    // SHA-256 of the empty string and of "abc", as published by NIST.
    let empty = hash_sha256(b"");
    let expect_empty: [u8; 32] = [
        0xe3, 0xb0, 0xc4, 0x42, 0x98, 0xfc, 0x1c, 0x14, 0x9a, 0xfb, 0xf4, 0xc8, 0x99, 0x6f,
        0xb9, 0x24, 0x27, 0xae, 0x41, 0xe4, 0x64, 0x9b, 0x93, 0x4c, 0xa4, 0x95, 0x99, 0x1b,
        0x78, 0x52, 0xb8, 0x55,
    ];
    assert_eq!(empty.bytes, expect_empty);

    let abc = hash_sha256(b"abc");
    let expect_abc: [u8; 32] = [
        0xba, 0x78, 0x16, 0xbf, 0x8f, 0x01, 0xcf, 0xea, 0x41, 0x41, 0x40, 0xde, 0x5d, 0xae,
        0x22, 0x23, 0xb0, 0x03, 0x61, 0xa3, 0x96, 0x17, 0x7a, 0x9c, 0xb4, 0x10, 0xff, 0x61,
        0xf2, 0x00, 0x15, 0xad,
    ];
    assert_eq!(abc.bytes, expect_abc);

    // Through the library's public chunk-path hashing.
    let path: Vec<u8> = b"abc".to_vec();
    assert_eq!(Chunk::hash_data_path(&path).bytes, expect_abc);
}
