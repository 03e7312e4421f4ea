//! The partition mining engine.
//!
//! One engine runs per assigned partition. On each broadcast seed it
//! derives a pseudo-random recall range from the seed and the partition
//! hash, reads that range from partition storage, hashes every returned
//! chunk against its absolute offset and the seed, and hands back the
//! first chunk — in ascending offset order — whose candidate hash, read as
//! a little-endian integer, reaches the current difficulty. Difficulty
//! updates and the mining on/off switch are separate events; forwarding a
//! found solution to the block producer is the surrounding node's concern.

use vstd::prelude::*;
use vstd::slice::slice_subrange;

use crate::chunk::copy_bytes;
use crate::hash::{hash_sha256, sha256_of, H256};
use crate::numeric::{
    be_value, le_value, lemma_be_value_bound, lemma_pow256_4, spec_u32_to_le_bytes, u32_to_le_bytes,
    u64_from_be_bytes,
};
use crate::storage_provider::{
    ie, read_entry_ok, read_offsets, ChunkSlot, PartitionStorageProvider, StorageError,
};
use crate::u256::U256;

verus! {

/// The 20-byte account address that a found solution credits.
#[derive(Clone, Copy, Debug)]
pub struct Address {
    pub bytes: [u8; 20],
}

impl View for Address {
    type V = Seq<u8>;

    open spec fn view(&self) -> Seq<u8> {
        self.bytes@
    }
}

/// One xorshift step: the whole state transition of the recall-range
/// generator.
pub open spec fn xorshift32(x: u32) -> u32 {
    let a = x ^ (x << 13);
    let b = a ^ (a >> 17);
    b ^ (b << 5)
}

/// A small deterministic pseudo-random generator: every draw is a pure
/// function of the seed, so a search seeded the same way lands on the
/// same recall range.
#[derive(Clone, Copy, Debug)]
pub struct SimpleRNG {
    pub seed: u32,
}

impl SimpleRNG {
    pub fn new(seed: u32) -> (r: Self)
        ensures
            r.seed == seed,
    {
        SimpleRNG { seed }
    }

    pub fn next(&mut self) -> (r: u32)
        ensures
            r == xorshift32(old(self).seed),
            final(self).seed == r,
    {
        let mut x = self.seed;
        x = x ^ (x << 13u32);
        x = x ^ (x >> 17u32);
        x = x ^ (x << 5u32);
        self.seed = x;
        x
    }
}

/// A broadcast mining seed.
#[derive(Clone, Copy, Debug)]
pub struct Seed(pub H256);

impl Seed {
    pub fn into_inner(self) -> (r: H256)
        ensures
            r == self.0,
    {
        self.0
    }
}

/// Message type for switching mining on or off.
#[derive(Clone, Copy, Debug)]
pub struct MiningControl(pub bool);

impl MiningControl {
    pub fn into_inner(self) -> (r: bool)
        ensures
            r == self.0,
    {
        self.0
    }
}

/// A qualifying chunk, packaged for the block producer. The two paths are
/// absent for capacity chunks that carry no transaction data.
#[derive(Debug)]
pub struct SolutionContext {
    pub partition_hash: H256,
    pub chunk_offset: u32,
    pub mining_address: Address,
    pub tx_path: Option<Vec<u8>>,
    pub data_path: Option<Vec<u8>>,
    pub chunk: Vec<u8>,
}

/// The storage geometry a mining engine works against.
#[derive(Clone, Copy, Debug)]
pub struct StorageConfig {
    pub chunk_size: u64,
    pub num_chunks_in_partition: u32,
    pub num_chunks_in_recall_range: u32,
}

impl StorageConfig {
    /// Recall ranges are non-empty and fit the partition at least once.
    pub open spec fn wf(&self) -> bool {
        &&& self.num_chunks_in_recall_range > 0
        &&& self.num_chunks_in_recall_range <= self.num_chunks_in_partition
    }
}

/// Reads a 32-byte hash as a little-endian 256-bit integer.
pub fn hash_to_number(hash: &[u8]) -> (r: U256)
    requires
        hash@.len() == 32,
    ensures
        r.value() == le_value(hash@),
{
    U256::from_little_endian(hash)
}

/// The 32-bit generator seed for one search: the low bits of the digest
/// of the mining seed and the partition hash together.
pub open spec fn rng_seed_of(mining_seed: Seq<u8>, partition_hash: Seq<u8>) -> nat {
    be_value(sha256_of(mining_seed + partition_hash).subrange(28, 32))
}

fn derive_rng_seed(mining_seed: &H256, partition_hash: &H256) -> (r: u32)
    ensures
        r == rng_seed_of(mining_seed@, partition_hash@),
{
    let mut cat: Vec<u8> = Vec::new();
    cat.extend_from_slice(mining_seed.bytes.as_slice());
    cat.extend_from_slice(partition_hash.bytes.as_slice());
    proof {
        assert(cat@ =~= mining_seed@ + partition_hash@);
    }
    let digest = hash_sha256(cat.as_slice());
    let low = slice_subrange(digest.bytes.as_slice(), 28, 32);
    proof {
        lemma_be_value_bound(low@);
        lemma_pow256_4();
    }
    u64_from_be_bytes(low) as u32
}

/// Which recall range one seed selects: a pure function of the seed, the
/// partition hash, and the storage geometry — each seed independently
/// re-samples the whole partition.
pub open spec fn recall_range_index_spec(
    mining_seed: Seq<u8>,
    partition_hash: Seq<u8>,
    config: StorageConfig,
) -> int {
    xorshift32(rng_seed_of(mining_seed, partition_hash) as u32) as int % (
    config.num_chunks_in_partition as int / config.num_chunks_in_recall_range as int)
}

/// Picks the recall range for one search attempt.
pub fn pick_recall_range_index(
    mining_seed: &H256,
    partition_hash: &H256,
    config: &StorageConfig,
) -> (r: u32)
    requires
        config.wf(),
    ensures
        r == recall_range_index_spec(mining_seed@, partition_hash@, *config),
        r < config.num_chunks_in_partition / config.num_chunks_in_recall_range,
{
    let rng_seed = derive_rng_seed(mining_seed, partition_hash);
    let mut rng = SimpleRNG::new(rng_seed);
    let count = config.num_chunks_in_partition / config.num_chunks_in_recall_range;
    proof {
        lemma_div_at_least_one(
            config.num_chunks_in_partition as int,
            config.num_chunks_in_recall_range as int,
        );
    }
    rng.next() % count
}

/// A divisor no larger than the dividend divides it at least once.
proof fn lemma_div_at_least_one(a: int, b: int)
    requires
        0 < b <= a,
    ensures
        a / b >= 1,
{
    let c = a / b;
    vstd::arithmetic::div_mod::lemma_fundamental_div_mod(a, b);
    vstd::arithmetic::div_mod::lemma_mod_bound(a, b);
    assert(b * c == a - a % b);
    assert(b * c > 0 ==> c > 0) by (nonlinear_arith)
        requires
            b > 0,
    ;
}

/// The candidate value of a chunk under a seed: its payload, its absolute
/// offset in little-endian bytes, and the seed, digested and read as a
/// little-endian integer.
pub open spec fn candidate_value(chunk_bytes: Seq<u8>, offset: u32, mining_seed: Seq<u8>) -> nat {
    le_value(sha256_of(chunk_bytes + spec_u32_to_le_bytes(offset) + mining_seed))
}

/// A stored chunk qualifies when its candidate value reaches the
/// difficulty: at or above, not strictly above.
pub open spec fn chunk_qualifies(
    slots: Seq<ChunkSlot>,
    o: int,
    mining_seed: Seq<u8>,
    difficulty: U256,
) -> bool {
    candidate_value(slots[o].bytes@, o as u32, mining_seed) >= difficulty.value()
}

/// Computes the candidate hash of one chunk under a seed.
pub fn compute_candidate(chunk_bytes: &Vec<u8>, offset: u32, mining_seed: &H256) -> (r: U256)
    ensures
        r.value() == candidate_value(chunk_bytes@, offset, mining_seed@),
{
    let mut cat: Vec<u8> = Vec::new();
    cat.extend_from_slice(chunk_bytes.as_slice());
    let offset_bytes = u32_to_le_bytes(offset);
    cat.extend_from_slice(offset_bytes.as_slice());
    cat.extend_from_slice(mining_seed.bytes.as_slice());
    proof {
        assert(cat@ =~= chunk_bytes@ + spec_u32_to_le_bytes(offset) + mining_seed@);
    }
    let digest = hash_sha256(cat.as_slice());
    hash_to_number(digest.bytes.as_slice())
}

/// The interval one recall range covers, clamped to the partition.
pub open spec fn recall_window_lo(idx: int, config: StorageConfig) -> int {
    idx * config.num_chunks_in_recall_range as int
}

pub open spec fn recall_window_hi(idx: int, config: StorageConfig, n: int) -> int {
    if recall_window_lo(idx, config) + config.num_chunks_in_recall_range as int <= n {
        recall_window_lo(idx, config) + config.num_chunks_in_recall_range as int
    } else {
        n
    }
}

/// What one search attempt may return, given the engine's state and the
/// storage it reads: nothing when the partition is unassigned or no stored
/// chunk of the seed's recall range qualifies, else the first qualifying
/// chunk of the range with its indexed paths.
pub open spec fn mine_outcome_ok(
    miner: PartitionMiningActor,
    storage: PartitionStorageProvider,
    mining_seed: Seq<u8>,
    r: Result<Option<SolutionContext>, StorageError>,
) -> bool {
    match storage.partition_hash_spec() {
        None => r == Ok::<Option<SolutionContext>, StorageError>(None),
        Some(ph) => {
            let idx = recall_range_index_spec(mining_seed, ph@, miner.config_spec());
            let lo = recall_window_lo(idx, miner.config_spec());
            let hi = recall_window_hi(idx, miner.config_spec(), storage@.len() as int);
            let offs = read_offsets(storage@, lo, hi, None);
            match r {
                Ok(None) => forall|j: int|
                    0 <= j < offs.len() ==> !chunk_qualifies(
                        storage@,
                        #[trigger] offs[j],
                        mining_seed,
                        miner.difficulty_spec(),
                    ),
                Ok(Some(sol)) => exists|j: int|
                    {
                        &&& 0 <= j < offs.len()
                        &&& chunk_qualifies(storage@, #[trigger] offs[j], mining_seed,
                        miner.difficulty_spec())
                        &&& forall|k: int|
                            0 <= k < j ==> !chunk_qualifies(
                                storage@,
                                #[trigger] offs[k],
                                mining_seed,
                                miner.difficulty_spec(),
                            )
                        &&& sol.partition_hash@ == ph@
                        &&& sol.mining_address@ == miner.mining_address_spec()@
                        &&& sol.chunk_offset == offs[j]
                        &&& sol.chunk@ == storage@[offs[j]].bytes@
                        &&& match sol.tx_path {
                            Some(t) => storage.paths_view()[offs[j]].0 matches Some(t0) && t@
                                == t0@,
                            None => storage.paths_view()[offs[j]].0 is None,
                        }
                        &&& match sol.data_path {
                            Some(d) => storage.paths_view()[offs[j]].1 matches Some(d0) && d@
                                == d0@,
                            None => storage.paths_view()[offs[j]].1 is None,
                        }
                    },
                Err(_) => false,
            }
        },
    }
}

/// The mining engine of one partition: the identity a solution credits,
/// the on/off switch, the last difficulty heard, and the partition's
/// storage geometry.
pub struct PartitionMiningActor {
    mining_address: Address,
    should_mine: bool,
    difficulty: U256,
    config: StorageConfig,
}

impl PartitionMiningActor {
    pub closed spec fn mining_address_spec(&self) -> Address {
        self.mining_address
    }

    pub closed spec fn should_mine_spec(&self) -> bool {
        self.should_mine
    }

    pub closed spec fn difficulty_spec(&self) -> U256 {
        self.difficulty
    }

    pub closed spec fn config_spec(&self) -> StorageConfig {
        self.config
    }

    /// A fresh engine. Difficulty starts at zero — every candidate
    /// qualifies — until the first difficulty broadcast arrives.
    pub fn new(mining_address: Address, config: StorageConfig, start_mining: bool) -> (r: Self)
        requires
            config.wf(),
        ensures
            r.mining_address_spec() == mining_address,
            r.should_mine_spec() == start_mining,
            r.difficulty_spec().value() == 0,
            r.config_spec() == config,
    {
        PartitionMiningActor {
            mining_address,
            should_mine: start_mining,
            difficulty: U256::zero(),
            config,
        }
    }

    /// A difficulty broadcast replaces the stored difficulty
    /// unconditionally: the last writer wins, there is no staleness
    /// check.
    pub fn handle_difficulty_update(&mut self, new_difficulty: U256)
        ensures
            final(self).difficulty_spec() == new_difficulty,
            final(self).mining_address_spec() == old(self).mining_address_spec(),
            final(self).should_mine_spec() == old(self).should_mine_spec(),
            final(self).config_spec() == old(self).config_spec(),
    {
        self.difficulty = new_difficulty;
    }

    /// Switches mining on or off; nothing else moves. The switch takes
    /// effect from the next seed on.
    pub fn handle_mining_control(&mut self, control: MiningControl)
        ensures
            final(self).should_mine_spec() == control.0,
            final(self).mining_address_spec() == old(self).mining_address_spec(),
            final(self).difficulty_spec() == old(self).difficulty_spec(),
            final(self).config_spec() == old(self).config_spec(),
    {
        let should_mine = control.into_inner();
        self.should_mine = should_mine;
    }

    /// A broadcast seed: with mining switched off the seed is ignored,
    /// otherwise one search attempt runs and its outcome — a solution or
    /// none — is handed back for the caller to forward.
    pub fn handle_mining_seed(&self, storage: &PartitionStorageProvider, msg: Seed) -> (r: Result<
        Option<SolutionContext>,
        StorageError,
    >)
        requires
            self.config_spec().wf(),
            storage.wf(),
        ensures
            !self.should_mine_spec() ==> r == Ok::<Option<SolutionContext>, StorageError>(None),
            self.should_mine_spec() ==> mine_outcome_ok(*self, *storage, msg.0@, r),
    {
        if !self.should_mine {
            return Ok(None);
        }
        let seed = msg.into_inner();
        self.mine_partition_with_seed(storage, &seed)
    }

    /// One search attempt: derive the recall range from the seed and the
    /// partition hash, read it, and return the first stored chunk whose
    /// candidate hash reaches the difficulty, with the paths indexed for
    /// it. Finding no qualifying chunk is a normal outcome, not an error.
    pub fn mine_partition_with_seed(
        &self,
        storage: &PartitionStorageProvider,
        mining_seed: &H256,
    ) -> (r: Result<Option<SolutionContext>, StorageError>)
        requires
            self.config_spec().wf(),
            storage.wf(),
        ensures
            mine_outcome_ok(*self, *storage, mining_seed@, r),
    {
        let partition_hash = match storage.partition_hash() {
            Some(p) => p,
            None => {
                // Nothing is assigned to this partition, so there is
                // nothing to mine.
                return Ok(None);
            },
        };

        let recall_range_index = pick_recall_range_index(mining_seed, &partition_hash, &self.config);

        let num_recall = self.config.num_chunks_in_recall_range;
        proof {
            lemma_recall_window_fits(
                self.config.num_chunks_in_partition,
                num_recall,
                recall_range_index,
            );
        }
        let start_chunk_offset: u32 = recall_range_index * num_recall;
        let read_range = ie(start_chunk_offset, start_chunk_offset + num_recall);

        let chunks = match storage.read_chunks(read_range, None) {
            Ok(chunks) => chunks,
            Err(_) => {
                proof {
                    assert(false);
                }
                return Ok(None);
            },
        };

        let ghost idx = recall_range_index_spec(mining_seed@, partition_hash@, self.config_spec());
        let ghost lo = recall_window_lo(idx, self.config_spec());
        let ghost hi = recall_window_hi(idx, self.config_spec(), storage@.len() as int);
        let ghost offs = read_offsets(storage@, lo, hi, None);
        proof {
            crate::storage_provider::lemma_read_offsets_in_range(storage@, lo, hi, None);
        }

        let n = chunks.len();
        let mut index: usize = 0;
        while index < n
            invariant
                index <= n,
                n == offs.len(),
                forall|k: int|
                    0 <= k < index ==> !chunk_qualifies(
                        storage@,
                        #[trigger] offs[k],
                        mining_seed@,
                        self.difficulty_spec(),
                    ),
            decreases n - index,
        {
            let chunk_offset = chunks[index].0;
            proof {
                assert(read_entry_ok(storage@, offs[index as int], chunks@[index as int]));
            }
            let candidate = compute_candidate(&chunks[index].1, chunk_offset, mining_seed);

            if candidate.ge(&self.difficulty) {
                // First qualifying chunk in ascending offset order: the
                // search stops here rather than hunt for a better one.
                let (tx_path, data_path) = match storage.read_tx_data_path(chunk_offset as u64) {
                    Ok(paths) => paths,
                    Err(_) => {
                        proof {
                            assert(false);
                        }
                        (None, None)
                    },
                };

                let solution = SolutionContext {
                    partition_hash,
                    chunk_offset,
                    mining_address: self.mining_address,
                    tx_path,
                    data_path,
                    chunk: copy_bytes(&chunks[index].1),
                };
                return Ok(Some(solution));
            }
            index += 1;
        }

        Ok(None)
    }
}

/// Difficulty boundary: a chunk whose candidate value equals the
/// difficulty exactly qualifies — the comparison is at-or-above, not
/// strictly above — and one below it does not.
pub proof fn lemma_difficulty_boundary(
    slots: Seq<ChunkSlot>,
    o: int,
    mining_seed: Seq<u8>,
    difficulty: U256,
)
    ensures
        candidate_value(slots[o].bytes@, o as u32, mining_seed) == difficulty.value()
            ==> chunk_qualifies(slots, o, mining_seed, difficulty),
        candidate_value(slots[o].bytes@, o as u32, mining_seed) < difficulty.value()
            ==> !chunk_qualifies(slots, o, mining_seed, difficulty),
{
}

/// A recall range selected by index stays within the partition.
proof fn lemma_recall_window_fits(npart: u32, nrecall: u32, idx: u32)
    requires
        nrecall > 0,
        nrecall <= npart,
        idx < npart as int / nrecall as int,
    ensures
        (idx + 1) * nrecall <= npart,
        idx * nrecall + nrecall <= npart,
{
    let a = npart as int;
    let b = nrecall as int;
    let c = a / b;
    vstd::arithmetic::div_mod::lemma_fundamental_div_mod(a, b);
    vstd::arithmetic::div_mod::lemma_mod_bound(a, b);
    assert(b * c <= a);
    assert((idx + 1) * b <= c * b) by (nonlinear_arith)
        requires
            idx + 1 <= c,
            b >= 0,
    ;
    assert(c * b == b * c) by (nonlinear_arith);
    assert((idx + 1) * b == idx * b + b) by (nonlinear_arith);
}

} // verus!
