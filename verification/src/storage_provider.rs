//! Interval-addressed partition storage with per-chunk state tracking.
//!
//! A partition holds a fixed run of chunk slots; every slot is in exactly
//! one [`ChunkState`] at a time. Reads and writes address closed-open
//! intervals of chunk indices, and a write carries an expected/new state
//! pair: the expected state is an optimistic guard — concurrent writers
//! retry on [`StorageError::StateMismatch`] rather than lock — and on
//! success exactly the written interval moves to the new state.

use std::collections::HashMap;
use vstd::prelude::*;

use crate::chunk::{copy_bytes, copy_opt_bytes, zero_bytes};
use crate::hash::H256;

verus! {

broadcast use vstd::std_specs::hash::group_hash_axioms;

/// Stable identifier of a storage partition.
pub type PartitionId = u64;

/// The state a chunk slot is in. Ingress only ever moves a range into
/// `Data`; packing moves capacity ranges from `Unpacked` to `Packed`.
#[derive(Clone, Copy, Debug, PartialEq, Eq, Structural)]
pub enum ChunkState {
    Uninitialized,
    Unpacked,
    Packed,
    Data,
}

/// A closed-open range `[start, end)` over chunk indices within one
/// partition.
#[derive(Clone, Copy, Debug, PartialEq, Eq, Structural)]
pub struct Interval {
    pub start: u32,
    pub end: u32,
}

impl Interval {
    pub open spec fn wf(&self) -> bool {
        self.start <= self.end
    }
}

/// Builds the closed-open interval `[start, end)`.
pub fn ie(start: u32, end: u32) -> (r: Interval)
    requires
        start <= end,
    ensures
        r.start == start,
        r.end == end,
        r.wf(),
{
    Interval { start, end }
}

/// Failures of the storage layer. `StateMismatch` is expected under
/// concurrent writers and asks the caller to re-read and retry.
#[derive(Clone, Copy, Debug, PartialEq, Eq, Structural)]
pub enum StorageError {
    /// The partition id is not registered.
    PartitionNotFound,
    /// Some chunk of the interval is not in the state the caller expected.
    StateMismatch,
    /// A partition with this id is already registered.
    AlreadyExists,
    /// The interval leaves the partition, or the chunks handed in do not
    /// fill it exactly: partial writes are rejected, not truncated.
    InvalidInterval,
}

/// One chunk slot of a partition: its tracked state and its payload.
#[derive(Debug)]
pub struct ChunkSlot {
    pub state: ChunkState,
    pub bytes: Vec<u8>,
}

/// Whether the slot at `o` appears in a read with this state filter: with
/// an expected state every slot of the interval is returned (the guard has
/// already held), without one only written slots are — storage never
/// fabricates data.
pub open spec fn slot_included(
    slots: Seq<ChunkSlot>,
    o: int,
    expected_state: Option<ChunkState>,
) -> bool {
    match expected_state {
        Some(_) => true,
        None => slots[o].state != ChunkState::Uninitialized,
    }
}

/// The ascending chunk offsets a read of `[lo, hi)` returns.
pub open spec fn read_offsets(
    slots: Seq<ChunkSlot>,
    lo: int,
    hi: int,
    expected_state: Option<ChunkState>,
) -> Seq<int>
    decreases hi - lo,
{
    if lo >= hi {
        Seq::empty()
    } else {
        read_offsets(slots, lo, hi - 1, expected_state) + (if slot_included(
            slots,
            hi - 1,
            expected_state,
        ) {
            seq![hi - 1]
        } else {
            Seq::empty()
        })
    }
}

/// Every offset a read returns lies inside the interval it was asked for.
pub proof fn lemma_read_offsets_in_range(
    slots: Seq<ChunkSlot>,
    lo: int,
    hi: int,
    expected_state: Option<ChunkState>,
)
    ensures
        forall|j: int|
            0 <= j < read_offsets(slots, lo, hi, expected_state).len() ==> lo <= #[trigger] read_offsets(
                slots,
                lo,
                hi,
                expected_state,
            )[j] < hi,
    decreases hi - lo,
{
    if lo < hi {
        lemma_read_offsets_in_range(slots, lo, hi - 1, expected_state);
        let pre = read_offsets(slots, lo, hi - 1, expected_state);
        let whole = read_offsets(slots, lo, hi, expected_state);
        assert forall|j: int| 0 <= j < whole.len() implies lo <= #[trigger] whole[j] < hi by {
            if j < pre.len() {
                assert(whole[j] == pre[j]);
            } else {
                assert(whole[j] == hi - 1);
            }
        }
    }
}

/// The offsets a read returns come in strictly ascending order.
pub proof fn lemma_read_offsets_ascending(
    slots: Seq<ChunkSlot>,
    lo: int,
    hi: int,
    expected_state: Option<ChunkState>,
)
    ensures
        forall|j: int, k: int|
            0 <= j < k < read_offsets(slots, lo, hi, expected_state).len()
                ==> #[trigger] read_offsets(slots, lo, hi, expected_state)[j]
                < #[trigger] read_offsets(slots, lo, hi, expected_state)[k],
    decreases hi - lo,
{
    if lo < hi {
        lemma_read_offsets_ascending(slots, lo, hi - 1, expected_state);
        lemma_read_offsets_in_range(slots, lo, hi - 1, expected_state);
        let pre = read_offsets(slots, lo, hi - 1, expected_state);
        let whole = read_offsets(slots, lo, hi, expected_state);
        assert forall|j: int, k: int| 0 <= j < k < whole.len() implies #[trigger] whole[j]
            < #[trigger] whole[k] by {
            assert(whole[j] == pre[j]);
            if k < pre.len() {
                assert(whole[k] == pre[k]);
            } else {
                assert(whole[k] == hi - 1);
            }
        }
    }
}

/// One returned read entry carries the offset, the slot's payload, and the
/// slot's state.
pub open spec fn read_entry_ok(slots: Seq<ChunkSlot>, o: int, e: (u32, Vec<u8>, ChunkState)) -> bool {
    &&& e.0 == o
    &&& e.1@ == slots[o].bytes@
    &&& e.2 == slots[o].state
}

/// What a successful read of `[lo, hi)` returns: one entry per included
/// offset, in ascending offset order.
pub open spec fn read_result_matches(
    slots: Seq<ChunkSlot>,
    lo: int,
    hi: int,
    expected_state: Option<ChunkState>,
    v: Seq<(u32, Vec<u8>, ChunkState)>,
) -> bool {
    let offs = read_offsets(slots, lo, hi, expected_state);
    &&& v.len() == offs.len()
    &&& forall|j: int| 0 <= j < v.len() ==> read_entry_ok(slots, offs[j], #[trigger] v[j])
}

/// Some chunk of `[lo, hi)` is not in the state the caller expected.
pub open spec fn state_mismatch_in(
    slots: Seq<ChunkSlot>,
    lo: int,
    hi: int,
    expected_state: Option<ChunkState>,
) -> bool {
    match expected_state {
        Some(es) => exists|o: int| lo <= o < hi && (#[trigger] slots[o]).state != es,
        None => false,
    }
}

/// A successful write of `chunks` to `[lo, hi)`: the written slots take the
/// new state and the handed-in payloads, all other slots are untouched.
pub open spec fn write_applies(
    old_slots: Seq<ChunkSlot>,
    new_slots: Seq<ChunkSlot>,
    lo: int,
    hi: int,
    chunks: Seq<Vec<u8>>,
    new_state: ChunkState,
) -> bool {
    &&& new_slots.len() == old_slots.len()
    &&& forall|o: int| 0 <= o < old_slots.len() && !(lo <= o < hi) ==> new_slots[o] == old_slots[o]
    &&& forall|o: int|
        lo <= o < hi ==> (#[trigger] new_slots[o]).state == new_state && new_slots[o].bytes@
            == chunks[o - lo]@
}

/// Chunk storage of a single partition: a fixed run of chunk slots, the
/// merkle paths indexed for them, and the partition hash assigned to it,
/// if any — an unassigned partition is never mined.
#[derive(Debug)]
pub struct PartitionStorageProvider {
    partition_hash: Option<H256>,
    slots: Vec<ChunkSlot>,
    paths: Vec<(Option<Vec<u8>>, Option<Vec<u8>>)>,
}

impl View for PartitionStorageProvider {
    type V = Seq<ChunkSlot>;

    closed spec fn view(&self) -> Seq<ChunkSlot> {
        self.slots@
    }
}

impl PartitionStorageProvider {
    /// The tx path and data path indexed for each chunk slot.
    pub closed spec fn paths_view(&self) -> Seq<(Option<Vec<u8>>, Option<Vec<u8>>)> {
        self.paths@
    }

    pub closed spec fn partition_hash_spec(&self) -> Option<H256> {
        self.partition_hash
    }

    /// One path entry per chunk slot.
    pub open spec fn wf(&self) -> bool {
        self.paths_view().len() == self@.len()
    }

    /// A fresh partition: every slot uninitialized, nothing indexed.
    pub fn new(num_chunks: usize, partition_hash: Option<H256>) -> (r: Self)
        ensures
            r.wf(),
            r@.len() == num_chunks,
            forall|o: int|
                0 <= o < num_chunks ==> (#[trigger] r@[o]).state == ChunkState::Uninitialized,
            forall|o: int|
                0 <= o < num_chunks ==> (#[trigger] r.paths_view()[o]).0 is None
                    && r.paths_view()[o].1 is None,
            r.partition_hash_spec() == partition_hash,
    {
        let mut slots: Vec<ChunkSlot> = Vec::new();
        let mut paths: Vec<(Option<Vec<u8>>, Option<Vec<u8>>)> = Vec::new();
        let mut o: usize = 0;
        while o < num_chunks
            invariant
                o <= num_chunks,
                slots@.len() == o,
                paths@.len() == o,
                forall|j: int| 0 <= j < o ==> (#[trigger] slots@[j]).state == ChunkState::Uninitialized,
                forall|j: int| 0 <= j < o ==> (#[trigger] paths@[j]).0 is None && paths@[j].1 is None,
            decreases num_chunks - o,
        {
            slots.push(ChunkSlot { state: ChunkState::Uninitialized, bytes: Vec::new() });
            paths.push((None, None));
            o += 1;
        }
        PartitionStorageProvider { partition_hash, slots, paths }
    }

    pub fn partition_hash(&self) -> (r: Option<H256>)
        ensures
            r == self.partition_hash_spec(),
    {
        self.partition_hash
    }

    pub fn num_chunks(&self) -> (r: usize)
        ensures
            r == self@.len(),
    {
        self.slots.len()
    }

    /// Reads the chunks of `read_interval`, clamped to the partition's
    /// capacity. With an expected state given, fails with `StateMismatch`
    /// if any chunk of the interval is in another state; without one,
    /// unwritten chunks are simply left out of the result.
    pub fn read_chunks(&self, read_interval: Interval, expected_state: Option<ChunkState>) -> (r:
        Result<Vec<(u32, Vec<u8>, ChunkState)>, StorageError>)
        requires
            read_interval.wf(),
        ensures
            ({
                let lo = read_interval.start as int;
                let hi = if read_interval.end as int <= self@.len() {
                    read_interval.end as int
                } else {
                    self@.len() as int
                };
                match r {
                    Ok(v) => !state_mismatch_in(self@, lo, hi, expected_state)
                        && read_result_matches(self@, lo, hi, expected_state, v@),
                    Err(e) => e == StorageError::StateMismatch && state_mismatch_in(
                        self@,
                        lo,
                        hi,
                        expected_state,
                    ),
                }
            }),
    {
        let lo = read_interval.start as usize;
        let n = self.slots.len();
        let hi = if (read_interval.end as usize) <= n {
            read_interval.end as usize
        } else {
            n
        };
        if let Some(es) = expected_state {
            let mut o = lo;
            while o < hi
                invariant
                    lo <= o,
                    hi <= self@.len(),
                    expected_state == Some(es),
                    forall|j: int| lo <= j < o ==> (#[trigger] self@[j]).state == es,
                decreases hi - o,
            {
                if self.slots[o].state != es {
                    return Err(StorageError::StateMismatch);
                }
                o += 1;
            }
        }
        let mut out: Vec<(u32, Vec<u8>, ChunkState)> = Vec::new();
        let mut o = lo;
        proof {
            assert(read_offsets(self@, lo as int, lo as int, expected_state) =~= Seq::empty());
        }
        while o < hi
            invariant
                lo <= o,
                hi <= self@.len(),
                o <= hi || o == lo,
                read_result_matches(self@, lo as int, o as int, expected_state, out@),
                match expected_state {
                    Some(es) => forall|j: int| lo <= j < hi ==> (#[trigger] self@[j]).state == es,
                    None => true,
                },
            decreases hi - o,
        {
            let keep = match expected_state {
                Some(_) => true,
                None => self.slots[o].state != ChunkState::Uninitialized,
            };
            if keep {
                let entry = (o as u32, copy_bytes(&self.slots[o].bytes), self.slots[o].state);
                out.push(entry);
            }
            proof {
                let offs_next = read_offsets(self@, lo as int, o + 1, expected_state);
                let offs = read_offsets(self@, lo as int, o as int, expected_state);
                if slot_included(self@, o as int, expected_state) {
                    assert(offs_next =~= offs + seq![o as int]);
                } else {
                    assert(offs_next =~= offs);
                }
            }
            o += 1;
        }
        Ok(out)
    }

    /// Writes `chunks` over `write_interval`, guarded by the expected
    /// state: the whole interval must currently be in `expected_state`,
    /// and on success exactly that interval moves to `new_state` with the
    /// handed-in payloads. On any failure the partition is unmodified.
    pub fn write_chunks(
        &mut self,
        chunks: Vec<Vec<u8>>,
        write_interval: Interval,
        expected_state: ChunkState,
        new_state: ChunkState,
    ) -> (r: Result<(), StorageError>)
        requires
            write_interval.wf(),
            old(self).wf(),
        ensures
            final(self).wf(),
            ({
                let lo = write_interval.start as int;
                let hi = write_interval.end as int;
                match r {
                    Ok(_) => {
                        &&& hi <= old(self)@.len()
                        &&& chunks@.len() == hi - lo
                        &&& forall|o: int|
                            lo <= o < hi ==> (#[trigger] old(self)@[o]).state == expected_state
                        &&& write_applies(old(self)@, final(self)@, lo, hi, chunks@, new_state)
                        &&& final(self).paths_view() == old(self).paths_view()
                        &&& final(self).partition_hash_spec() == old(self).partition_hash_spec()
                    },
                    Err(StorageError::InvalidInterval) => {
                        &&& *final(self) == *old(self)
                        &&& (hi > old(self)@.len() || chunks@.len() != hi - lo)
                    },
                    Err(StorageError::StateMismatch) => {
                        &&& *final(self) == *old(self)
                        &&& hi <= old(self)@.len()
                        &&& chunks@.len() == hi - lo
                        &&& state_mismatch_in(old(self)@, lo, hi, Some(expected_state))
                    },
                    Err(_) => false,
                }
            }),
    {
        let lo = write_interval.start as usize;
        let hi = write_interval.end as usize;
        if hi > self.slots.len() || chunks.len() != hi - lo {
            return Err(StorageError::InvalidInterval);
        }
        let mut o = lo;
        while o < hi
            invariant
                lo <= o,
                hi <= self@.len(),
                self == old(self),
                forall|j: int| lo <= j < o ==> (#[trigger] self@[j]).state == expected_state,
            decreases hi - o,
        {
            if self.slots[o].state != expected_state {
                return Err(StorageError::StateMismatch);
            }
            o += 1;
        }
        let ghost cs = chunks@;
        let mut chunks = chunks;
        let mut o = hi;
        while o > lo
            invariant
                lo <= o <= hi,
                hi <= self@.len(),
                self@.len() == old(self)@.len(),
                chunks@.len() == o - lo,
                chunks@ == cs.take(o - lo),
                cs.len() == hi - lo,
                self.paths_view() == old(self).paths_view(),
                self.partition_hash_spec() == old(self).partition_hash_spec(),
                old(self).wf(),
                forall|j: int| 0 <= j < o ==> self@[j] == old(self)@[j],
                forall|j: int| hi <= j < self@.len() ==> self@[j] == old(self)@[j],
                forall|j: int|
                    o <= j < hi ==> (#[trigger] self@[j]).state == new_state && self@[j].bytes@
                        == cs[j - lo]@,
            decreases o,
        {
            o -= 1;
            let b = match chunks.pop() {
                Some(b) => b,
                None => {
                    proof {
                        assert(false);
                    }
                    Vec::new()
                },
            };
            proof {
                assert(cs.take(o + 1 - lo).last() == cs[o - lo]);
                assert(cs.take(o + 1 - lo).drop_last() =~= cs.take(o - lo));
            }
            self.slots[o] = ChunkSlot { state: new_state, bytes: b };
        }
        Ok(())
    }

    /// Records the transaction-inclusion path and chunk merkle path for
    /// every chunk of `interval`, so mining can hand them out with a
    /// solution.
    pub fn index_transaction_data(
        &mut self,
        interval: Interval,
        tx_path: Vec<u8>,
        data_path: Vec<u8>,
    ) -> (r: Result<(), StorageError>)
        requires
            interval.wf(),
            old(self).wf(),
        ensures
            final(self).wf(),
            final(self)@ == old(self)@,
            final(self).partition_hash_spec() == old(self).partition_hash_spec(),
            ({
                let lo = interval.start as int;
                let hi = interval.end as int;
                match r {
                    Ok(_) => {
                        &&& hi <= old(self).paths_view().len()
                        &&& final(self).paths_view().len() == old(self).paths_view().len()
                        &&& forall|o: int|
                            0 <= o < old(self).paths_view().len() && !(lo <= o < hi)
                                ==> final(self).paths_view()[o] == old(self).paths_view()[o]
                        &&& forall|o: int|
                            lo <= o < hi ==> {
                                let p = #[trigger] final(self).paths_view()[o];
                                &&& p.0 matches Some(t) && t@ == tx_path@
                                &&& p.1 matches Some(d) && d@ == data_path@
                            }
                    },
                    Err(e) => {
                        &&& e == StorageError::InvalidInterval
                        &&& *final(self) == *old(self)
                        &&& hi > old(self).paths_view().len()
                    },
                }
            }),
    {
        let lo = interval.start as usize;
        let hi = interval.end as usize;
        if hi > self.paths.len() {
            return Err(StorageError::InvalidInterval);
        }
        let mut o = lo;
        while o < hi
            invariant
                lo <= o <= hi,
                hi <= self.paths_view().len(),
                self.paths_view().len() == old(self).paths_view().len(),
                self@ == old(self)@,
                self.partition_hash_spec() == old(self).partition_hash_spec(),
                old(self).wf(),
                forall|j: int|
                    0 <= j < self.paths_view().len() && !(lo <= j < o) ==> self.paths_view()[j]
                        == old(self).paths_view()[j],
                forall|j: int|
                    lo <= j < o ==> {
                        let p = #[trigger] self.paths_view()[j];
                        &&& p.0 matches Some(t) && t@ == tx_path@
                        &&& p.1 matches Some(d) && d@ == data_path@
                    },
            decreases hi - o,
        {
            let t = copy_bytes(&tx_path);
            let d = copy_bytes(&data_path);
            self.paths[o] = (Some(t), Some(d));
            o += 1;
        }
        Ok(())
    }

    /// The transaction path and data path indexed for the chunk at
    /// `chunk_offset`; both absent for capacity chunks that carry no
    /// transaction data.
    pub fn read_tx_data_path(&self, chunk_offset: u64) -> (r: Result<
        (Option<Vec<u8>>, Option<Vec<u8>>),
        StorageError,
    >)
        requires
            self.wf(),
        ensures
            match r {
                Ok(p) => {
                    &&& chunk_offset < self.paths_view().len()
                    &&& match p.0 {
                        Some(t) => self.paths_view()[chunk_offset as int].0 matches Some(t0) && t@
                            == t0@,
                        None => self.paths_view()[chunk_offset as int].0 is None,
                    }
                    &&& match p.1 {
                        Some(d) => self.paths_view()[chunk_offset as int].1 matches Some(d0) && d@
                            == d0@,
                        None => self.paths_view()[chunk_offset as int].1 is None,
                    }
                },
                Err(e) => e == StorageError::InvalidInterval && chunk_offset
                    >= self.paths_view().len(),
            },
    {
        if chunk_offset >= self.paths.len() as u64 {
            return Err(StorageError::InvalidInterval);
        }
        let o = chunk_offset as usize;
        let entry = &self.paths[o];
        Ok((copy_opt_bytes(&entry.0), copy_opt_bytes(&entry.1)))
    }

    /// Fills every slot with `chunk_size` zero bytes in the `Packed`
    /// state: the stand-in for entropy packing, which is outside this
    /// core.
    pub fn pack_with_zeros(&mut self, chunk_size: usize)
        requires
            old(self).wf(),
        ensures
            final(self).wf(),
            final(self)@.len() == old(self)@.len(),
            forall|o: int|
                0 <= o < final(self)@.len() ==> (#[trigger] final(self)@[o]).state
                    == ChunkState::Packed && final(self)@[o].bytes@ == Seq::new(
                    chunk_size as nat,
                    |i: int| 0u8,
                ),
            final(self).paths_view() == old(self).paths_view(),
            final(self).partition_hash_spec() == old(self).partition_hash_spec(),
    {
        let n = self.slots.len();
        let mut o: usize = 0;
        while o < n
            invariant
                o <= n,
                n == self@.len(),
                self@.len() == old(self)@.len(),
                self.paths_view() == old(self).paths_view(),
                self.partition_hash_spec() == old(self).partition_hash_spec(),
                old(self).wf(),
                forall|j: int|
                    0 <= j < o ==> (#[trigger] self@[j]).state == ChunkState::Packed
                        && self@[j].bytes@ == Seq::new(chunk_size as nat, |i: int| 0u8),
            decreases n - o,
        {
            let z = zero_bytes(chunk_size);
            self.slots[o] = ChunkSlot { state: ChunkState::Packed, bytes: z };
            o += 1;
        }
    }
}

/// Top-level storage: maps partition ids to their partition storage.
#[derive(Debug)]
pub struct StorageProvider {
    partition_providers: HashMap<PartitionId, PartitionStorageProvider>,
}

impl View for StorageProvider {
    type V = Map<PartitionId, PartitionStorageProvider>;

    closed spec fn view(&self) -> Map<PartitionId, PartitionStorageProvider> {
        self.partition_providers@
    }
}

impl StorageProvider {
    /// Every registered partition has one path entry per chunk slot.
    pub open spec fn wf(&self) -> bool {
        forall|id: PartitionId| self@.contains_key(id) ==> (#[trigger] self@[id]).wf()
    }

    pub fn new(partition_providers: Option<HashMap<PartitionId, PartitionStorageProvider>>) -> (r:
        Self)
        ensures
            r@ == match partition_providers {
                Some(m) => m@,
                None => Map::<PartitionId, PartitionStorageProvider>::empty(),
            },
    {
        match partition_providers {
            Some(partition_providers) => StorageProvider { partition_providers },
            None => StorageProvider { partition_providers: HashMap::new() },
        }
    }

    /// Registers a partition. Registration is additive only: an id that is
    /// already present is refused, not replaced.
    pub fn add_provider(&mut self, partition_id: PartitionId, storage: PartitionStorageProvider)
        -> (r: Result<(), StorageError>)
        ensures
            match r {
                Ok(_) => !old(self)@.contains_key(partition_id) && final(self)@ == old(
                    self,
                )@.insert(partition_id, storage),
                Err(e) => e == StorageError::AlreadyExists && old(self)@.contains_key(partition_id)
                    && final(self)@ == old(self)@,
            },
    {
        if self.partition_providers.contains_key(&partition_id) {
            return Err(StorageError::AlreadyExists);
        }
        self.partition_providers.insert(partition_id, storage);
        Ok(())
    }

    /// The partition storage registered under `partition_id`.
    pub fn get_part_storage_provider(&self, partition_id: PartitionId) -> (r: Result<
        &PartitionStorageProvider,
        StorageError,
    >)
        ensures
            match r {
                Ok(p) => self@.contains_key(partition_id) && *p == self@[partition_id],
                Err(e) => e == StorageError::PartitionNotFound && !self@.contains_key(partition_id),
            },
    {
        match self.partition_providers.get(&partition_id) {
            Some(p) => Ok(p),
            None => Err(StorageError::PartitionNotFound),
        }
    }

    /// Reads an interval of chunks from a partition; see
    /// [`PartitionStorageProvider::read_chunks`].
    pub fn read_chunks(
        &self,
        partition_id: PartitionId,
        read_interval: Interval,
        expected_state: Option<ChunkState>,
    ) -> (r: Result<Vec<(u32, Vec<u8>, ChunkState)>, StorageError>)
        requires
            read_interval.wf(),
        ensures
            ({
                let part = self@[partition_id];
                let lo = read_interval.start as int;
                let hi = if read_interval.end as int <= part@.len() {
                    read_interval.end as int
                } else {
                    part@.len() as int
                };
                match r {
                    Ok(v) => {
                        &&& self@.contains_key(partition_id)
                        &&& !state_mismatch_in(part@, lo, hi, expected_state)
                        &&& read_result_matches(part@, lo, hi, expected_state, v@)
                    },
                    Err(StorageError::PartitionNotFound) => !self@.contains_key(partition_id),
                    Err(StorageError::StateMismatch) => self@.contains_key(partition_id)
                        && state_mismatch_in(part@, lo, hi, expected_state),
                    Err(_) => false,
                }
            }),
    {
        let part = match self.partition_providers.get(&partition_id) {
            Some(p) => p,
            None => {
                return Err(StorageError::PartitionNotFound);
            },
        };
        part.read_chunks(read_interval, expected_state)
    }

    /// Writes a run of chunks to an interval in a partition; see
    /// [`PartitionStorageProvider::write_chunks`]. On any failure the
    /// storage is unmodified.
    pub fn write_chunks(
        &mut self,
        partition_id: PartitionId,
        write_interval: Interval,
        chunks: Vec<Vec<u8>>,
        expected_state: ChunkState,
        new_state: ChunkState,
    ) -> (r: Result<(), StorageError>)
        requires
            write_interval.wf(),
            old(self).wf(),
        ensures
            final(self).wf(),
            ({
                let lo = write_interval.start as int;
                let hi = write_interval.end as int;
                let old_part = old(self)@[partition_id];
                match r {
                    Ok(_) => {
                        &&& old(self)@.contains_key(partition_id)
                        &&& final(self)@ == old(self)@.insert(
                            partition_id,
                            final(self)@[partition_id],
                        )
                        &&& hi <= old_part@.len()
                        &&& chunks@.len() == hi - lo
                        &&& forall|o: int|
                            lo <= o < hi ==> (#[trigger] old_part@[o]).state == expected_state
                        &&& write_applies(
                            old_part@,
                            final(self)@[partition_id]@,
                            lo,
                            hi,
                            chunks@,
                            new_state,
                        )
                        &&& final(self)@[partition_id].paths_view() == old_part.paths_view()
                        &&& final(self)@[partition_id].partition_hash_spec()
                            == old_part.partition_hash_spec()
                    },
                    Err(StorageError::PartitionNotFound) => final(self)@ == old(self)@ && !old(
                        self,
                    )@.contains_key(partition_id),
                    Err(StorageError::InvalidInterval) => {
                        &&& final(self)@ == old(self)@
                        &&& old(self)@.contains_key(partition_id)
                        &&& (hi > old_part@.len() || chunks@.len() != hi - lo)
                    },
                    Err(StorageError::StateMismatch) => {
                        &&& final(self)@ == old(self)@
                        &&& old(self)@.contains_key(partition_id)
                        &&& state_mismatch_in(old_part@, lo, hi, Some(expected_state))
                    },
                    Err(_) => false,
                }
            }),
    {
        let part_opt = self.partition_providers.remove(&partition_id);
        match part_opt {
            None => {
                proof {
                    assert(self.partition_providers@ =~= old(self)@);
                }
                Err(StorageError::PartitionNotFound)
            },
            Some(mut part) => {
                let res = part.write_chunks(chunks, write_interval, expected_state, new_state);
                self.partition_providers.insert(partition_id, part);
                proof {
                    if res is Err {
                        assert(self.partition_providers@ =~= old(self)@);
                    } else {
                        assert(self.partition_providers@ =~= old(self)@.insert(
                            partition_id,
                            self.partition_providers@[partition_id],
                        ));
                    }
                }
                res
            },
        }
    }
}

} // verus!
