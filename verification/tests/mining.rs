//! Mining engine and partition storage behaviour.

use irys_core::hash::{hash_sha256, H256};
use irys_core::mining::{
    compute_candidate, pick_recall_range_index, Address, MiningControl, PartitionMiningActor,
    Seed, SimpleRNG, SolutionContext, StorageConfig,
};
use irys_core::numeric::u32_to_le_bytes;
use irys_core::storage_provider::{
    ie, ChunkState, PartitionStorageProvider, StorageError, StorageProvider,
};
use irys_core::u256::U256;

fn h256_of(tag: u8) -> H256 {
    let mut b = [0u8; 32];
    b[31] = tag;
    H256::new(b)
}

fn test_address() -> Address {
    Address { bytes: [0xab; 20] }
}

fn small_config() -> StorageConfig {
    StorageConfig { chunk_size: 32, num_chunks_in_partition: 4, num_chunks_in_recall_range: 2 }
}

/// A 4-chunk partition, zero-packed, with all chunks written as data and
/// the same paths indexed for them.
fn data_partition(partition_hash: Option<H256>) -> PartitionStorageProvider {
    let chunk_count = 4;
    let chunk_size = 32;
    let chunk_data = vec![0u8; chunk_size];
    let tx_path = vec![4u8, 3, 2, 1];
    let data_path = vec![4u8, 3, 2, 1];

    let mut storage = PartitionStorageProvider::new(chunk_count, partition_hash);
    storage.pack_with_zeros(chunk_size);
    storage
        .index_transaction_data(ie(0, chunk_count as u32), tx_path, data_path)
        .unwrap();
    storage
        .write_chunks(
            vec![chunk_data.clone(); chunk_count],
            ie(0, chunk_count as u32),
            ChunkState::Packed,
            ChunkState::Data,
        )
        .unwrap();
    storage
}

#[test]
fn test_solution() {
    let partition_hash = h256_of(0x51);
    let mining_address = test_address();
    let chunk_count: u32 = 4;
    let tx_path = [4u8, 3, 2, 1];
    let data_path = [4u8, 3, 2, 1];

    let storage = data_partition(Some(partition_hash));
    let miner = PartitionMiningActor::new(mining_address, small_config(), true);

    // Difficulty starts at zero, so the first chunk of the recall range
    // qualifies immediately.
    let seed = Seed(h256_of(0x77));
    let result = miner.handle_mining_seed(&storage, seed).unwrap();
    let solution: SolutionContext = result.expect("a solution should be found at zero difficulty");

    assert_eq!(partition_hash.bytes, solution.partition_hash.bytes, "Not expected partition");
    assert!(solution.chunk_offset < chunk_count * 2, "Not expected offset");
    assert_eq!(mining_address.bytes, solution.mining_address.bytes, "Not expected address");
    assert_eq!(Some(tx_path.to_vec()), solution.tx_path, "Not expected tx path");
    assert_eq!(Some(data_path.to_vec()), solution.data_path, "Not expected data path");
    assert_eq!(solution.chunk, vec![0u8; 32]);
}

#[test]
fn mining_disabled_ignores_seed() {
    let storage = data_partition(Some(h256_of(1)));
    let miner = PartitionMiningActor::new(test_address(), small_config(), false);
    let result = miner.handle_mining_seed(&storage, Seed(h256_of(2))).unwrap();
    assert!(result.is_none());
}

#[test]
fn unassigned_partition_is_not_mined() {
    let storage = data_partition(None);
    let miner = PartitionMiningActor::new(test_address(), small_config(), true);
    let result = miner.handle_mining_seed(&storage, Seed(h256_of(2))).unwrap();
    assert!(result.is_none());
}

#[test]
fn difficulty_update_is_last_writer_wins() {
    let storage = data_partition(Some(h256_of(9)));
    let mut miner = PartitionMiningActor::new(test_address(), small_config(), true);

    // An unreachable difficulty suppresses solutions.
    miner.handle_difficulty_update(U256 { limbs: [u64::MAX; 4] });
    let result = miner.handle_mining_seed(&storage, Seed(h256_of(3))).unwrap();
    assert!(result.is_none());

    // The next update unconditionally replaces it.
    miner.handle_difficulty_update(U256::zero());
    let result = miner.handle_mining_seed(&storage, Seed(h256_of(3))).unwrap();
    assert!(result.is_some());
}

#[test]
fn mining_control_switch() {
    let storage = data_partition(Some(h256_of(9)));
    let mut miner = PartitionMiningActor::new(test_address(), small_config(), true);

    miner.handle_mining_control(MiningControl(false));
    assert!(miner.handle_mining_seed(&storage, Seed(h256_of(4))).unwrap().is_none());

    miner.handle_mining_control(MiningControl(true));
    assert!(miner.handle_mining_seed(&storage, Seed(h256_of(4))).unwrap().is_some());
}

#[test]
fn mining_determinism() {
    let seed = h256_of(0x42);
    let partition_hash = h256_of(0x43);
    let config = small_config();

    // The recall range index is a pure function of seed, partition hash
    // and geometry: repeated invocations agree.
    let first = pick_recall_range_index(&seed, &partition_hash, &config);
    let second = pick_recall_range_index(&seed, &partition_hash, &config);
    assert_eq!(first, second);
    assert!(first < config.num_chunks_in_partition / config.num_chunks_in_recall_range);

    // The whole search agrees too.
    let storage = data_partition(Some(partition_hash));
    let miner = PartitionMiningActor::new(test_address(), config, true);
    let a = miner.handle_mining_seed(&storage, Seed(seed)).unwrap().unwrap();
    let b = miner.handle_mining_seed(&storage, Seed(seed)).unwrap().unwrap();
    assert_eq!(a.chunk_offset, b.chunk_offset);
}

#[test]
fn difficulty_boundary() {
    let chunk_bytes = vec![5u8; 32];
    let offset: u32 = 3;
    let seed = h256_of(0x66);

    // Rebuild the candidate digest by hand.
    let mut cat = Vec::new();
    cat.extend_from_slice(&chunk_bytes);
    let le = u32_to_le_bytes(offset);
    cat.extend_from_slice(&le);
    cat.extend_from_slice(&seed.bytes);
    let digest = hash_sha256(&cat);

    let candidate = compute_candidate(&chunk_bytes, offset, &seed);

    // A difficulty exactly equal to the candidate qualifies: the
    // comparison is at-or-above.
    let exact = U256::from_little_endian(&digest.bytes);
    assert!(candidate.ge(&exact));

    // One above the candidate does not.
    let mut above_bytes = digest.bytes;
    for b in above_bytes.iter_mut() {
        if *b < 0xff {
            *b += 1;
            break;
        } else {
            *b = 0;
        }
    }
    let above = U256::from_little_endian(&above_bytes);
    assert!(!candidate.ge(&above));
}

#[test]
fn simple_rng_is_deterministic() {
    let mut a = SimpleRNG::new(1234);
    let mut b = SimpleRNG::new(1234);
    assert_eq!(a.next(), b.next());
    assert_eq!(a.next(), b.next());
    let mut c = SimpleRNG::new(1235);
    let _ = c.next();
    assert_ne!(a.seed, 1234);

    // One xorshift step of 1, worked out by hand:
    // 1 ^ (1 << 13) = 0x2001; 0x2001 ^ (0x2001 >> 17) = 0x2001;
    // 0x2001 ^ (0x2001 << 5) = 0x42021.
    assert_eq!(SimpleRNG::new(1).next(), 0x42021);
}

#[test]
fn recall_range_index_formula() {
    let seed = h256_of(0x42);
    let partition_hash = h256_of(0x43);
    let config = small_config();

    // Recompute the selection independently: the low 32 bits of the
    // digest of seed and partition hash, one generator step, then the
    // window count.
    let mut cat = Vec::new();
    cat.extend_from_slice(&seed.bytes);
    cat.extend_from_slice(&partition_hash.bytes);
    let digest = hash_sha256(&cat);
    let rng_seed = u32::from_be_bytes(digest.bytes[28..32].try_into().unwrap());
    let mut x = rng_seed;
    x ^= x << 13;
    x ^= x >> 17;
    x ^= x << 5;
    let count = config.num_chunks_in_partition / config.num_chunks_in_recall_range;
    let expected = x % count;

    assert_eq!(pick_recall_range_index(&seed, &partition_hash, &config), expected);
}

#[test]
fn state_guarded_write() {
    let mut storage = PartitionStorageProvider::new(2, None);
    storage.pack_with_zeros(8);
    storage
        .write_chunks(
            vec![vec![1u8; 8], vec![2u8; 8]],
            ie(0, 2),
            ChunkState::Packed,
            ChunkState::Data,
        )
        .unwrap();

    // A write whose expected state does not match the tracked state fails
    // with StateMismatch and leaves storage unmodified.
    let result = storage.write_chunks(
        vec![vec![9u8; 8], vec![9u8; 8]],
        ie(0, 2),
        ChunkState::Packed,
        ChunkState::Data,
    );
    assert!(matches!(result, Err(StorageError::StateMismatch)));

    let chunks = storage.read_chunks(ie(0, 2), None).unwrap();
    assert_eq!(chunks.len(), 2);
    assert_eq!(chunks[0].1, vec![1u8; 8]);
    assert_eq!(chunks[1].1, vec![2u8; 8]);
    assert!(matches!(chunks[0].2, ChunkState::Data));
}

#[test]
fn read_with_expected_state_mismatch() {
    let mut storage = PartitionStorageProvider::new(2, None);
    storage.pack_with_zeros(8);
    let result = storage.read_chunks(ie(0, 2), Some(ChunkState::Data));
    assert!(matches!(result, Err(StorageError::StateMismatch)));
    let ok = storage.read_chunks(ie(0, 2), Some(ChunkState::Packed));
    assert_eq!(ok.unwrap().len(), 2);
}

#[test]
fn unwritten_chunks_are_left_out() {
    let mut storage = PartitionStorageProvider::new(4, None);
    // Only the first two chunks are written.
    storage
        .write_chunks(
            vec![vec![1u8; 8], vec![2u8; 8]],
            ie(0, 2),
            ChunkState::Uninitialized,
            ChunkState::Data,
        )
        .unwrap();
    let chunks = storage.read_chunks(ie(0, 4), None).unwrap();
    assert_eq!(chunks.len(), 2);
    assert_eq!(chunks[0].0, 0);
    assert_eq!(chunks[1].0, 1);
}

#[test]
fn partial_write_is_rejected() {
    let mut storage = PartitionStorageProvider::new(4, None);
    // One chunk for a two-chunk interval: rejected, not truncated.
    let result = storage.write_chunks(
        vec![vec![1u8; 8]],
        ie(0, 2),
        ChunkState::Uninitialized,
        ChunkState::Data,
    );
    assert!(matches!(result, Err(StorageError::InvalidInterval)));
    // The interval must also stay inside the partition.
    let result = storage.write_chunks(
        vec![vec![1u8; 8]; 3],
        ie(3, 6),
        ChunkState::Uninitialized,
        ChunkState::Data,
    );
    assert!(matches!(result, Err(StorageError::InvalidInterval)));
}

#[test]
fn provider_registration_is_additive_only() {
    let mut provider = StorageProvider::new(None);
    provider
        .add_provider(7, PartitionStorageProvider::new(2, None))
        .unwrap();
    let result = provider.add_provider(7, PartitionStorageProvider::new(3, None));
    assert!(matches!(result, Err(StorageError::AlreadyExists)));

    assert!(provider.get_part_storage_provider(7).is_ok());
    let result = provider.get_part_storage_provider(8);
    assert!(matches!(result, Err(StorageError::PartitionNotFound)));
}

#[test]
fn provider_routes_reads_and_writes() {
    let mut provider = StorageProvider::new(None);
    provider
        .add_provider(1, PartitionStorageProvider::new(2, None))
        .unwrap();

    let result = provider.read_chunks(2, ie(0, 2), None);
    assert!(matches!(result, Err(StorageError::PartitionNotFound)));
    let result = provider.write_chunks(
        2,
        ie(0, 1),
        vec![vec![0u8; 4]],
        ChunkState::Uninitialized,
        ChunkState::Data,
    );
    assert!(matches!(result, Err(StorageError::PartitionNotFound)));

    provider
        .write_chunks(1, ie(0, 1), vec![vec![9u8; 4]], ChunkState::Uninitialized, ChunkState::Data)
        .unwrap();
    let chunks = provider.read_chunks(1, ie(0, 2), None).unwrap();
    assert_eq!(chunks.len(), 1);
    assert_eq!(chunks[0].1, vec![9u8; 4]);
}
