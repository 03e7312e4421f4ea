//! The ingress validator: oversees pending transactions and validation of
//! incoming transaction headers and chunks.
//!
//! Per transaction id the state machine is `Unseen -> {Valid, Invalid}`,
//! terminal: a replayed id is skipped before any signature work is spent on
//! it. Chunks carry no persisted state — every chunk submission is
//! validated afresh against the data root cached at header ingress.
//!
//! The signature check itself is outside this core: the driver asks
//! [`MempoolActor::tx_is_known`] first and computes the boolean signature
//! verdict only for unseen ids, then hands it to
//! [`MempoolActor::handle_tx_ingress`], which ignores it for known ids.

use vstd::prelude::*;

use crate::chunk::{copy_bytes, Chunk};
use crate::db_cache::{CachedChunk, CachedDataRoot};
use crate::h256_map::H256Map;
use crate::hash::{hash_sha256, sha256_of, H256};
use crate::merkle::{merkle_leaf_of, validate_path};
use crate::CHUNK_SIZE;

verus! {

/// A transaction header as submitted: its content hash, the merkle root of
/// its data, the declared total data size, and the signature over it.
#[derive(Debug)]
pub struct IrysTransactionHeader {
    pub id: H256,
    pub data_root: H256,
    pub data_size: u64,
    pub signature: Vec<u8>,
}

/// The fields of a header, as a mathematical value.
pub open spec fn header_view(h: IrysTransactionHeader) -> (Seq<u8>, Seq<u8>, u64, Seq<u8>) {
    (h.id@, h.data_root@, h.data_size, h.signature@)
}

/// An owned copy of a header.
pub fn copy_header(h: &IrysTransactionHeader) -> (r: IrysTransactionHeader)
    ensures
        header_view(r) == header_view(*h),
{
    IrysTransactionHeader {
        id: h.id,
        data_root: h.data_root,
        data_size: h.data_size,
        signature: copy_bytes(&h.signature),
    }
}

/// Message for when a new transaction is discovered by the node, either
/// through synchronization with peers or by a user posting it.
#[derive(Debug)]
pub struct TxIngressMessage(pub IrysTransactionHeader);

impl TxIngressMessage {
    pub fn into_inner(self) -> (r: IrysTransactionHeader)
        ensures
            r == self.0,
    {
        self.0
    }
}

/// Reasons why transaction ingress might fail.
#[derive(Clone, Copy, Debug, PartialEq, Eq, Structural)]
pub enum TxIngressError {
    /// The transaction's signature is invalid.
    InvalidSignature,
    /// The account does not have enough tokens to fund this transaction.
    /// Funding verification is a pending extension hook; this core never
    /// raises it.
    Unfunded,
    /// This transaction id is already in the cache.
    Skipped,
}

/// Message for when a new chunk is discovered by the node.
#[derive(Debug)]
pub struct ChunkIngressMessage(pub Chunk);

impl ChunkIngressMessage {
    pub fn into_inner(self) -> (r: Chunk)
        ensures
            r == self.0,
    {
        self.0
    }
}

/// Reasons why chunk ingress might fail.
#[derive(Clone, Copy, Debug, PartialEq, Eq, Structural)]
pub enum ChunkIngressError {
    /// The data path proof provided with the chunk is invalid.
    InvalidProof,
    /// The data hash does not match the chunk data.
    InvalidDataHash,
    /// Only the last chunk in a data root's tree may be smaller than
    /// `CHUNK_SIZE`.
    InvalidChunkSize,
    /// Some database error occurred when reading or writing the chunk.
    /// The in-memory caches of this core cannot fail, so this is never
    /// raised here.
    DatabaseError,
}

/// Message for getting transactions for block building.
#[derive(Debug)]
pub struct GetBestMempoolTxs;

/// An id among the ids of a set.
pub open spec fn id_in_seq(s: Seq<H256>, id: Seq<u8>) -> bool {
    exists|i: int| 0 <= i < s.len() && (#[trigger] s[i])@ == id
}

/// The interior/last-chunk sizing rule: a chunk that ends before the last
/// byte of the transaction data must be exactly `CHUNK_SIZE` long; the last
/// chunk must not exceed it.
pub open spec fn chunk_sizing_ok(chunk: Chunk) -> bool {
    if chunk.offset + 1 < chunk.data_size {
        chunk.bytes@.len() == CHUNK_SIZE
    } else {
        chunk.bytes@.len() <= CHUNK_SIZE
    }
}

/// The data-root cache after a valid header for `header.data_root` is
/// recorded: created with this header's id and size when the root is new,
/// otherwise the id appended to the existing entry's set — idempotent by
/// id — with timestamp and size kept from the first record.
pub open spec fn root_upsert(
    pre: Map<Seq<u8>, CachedDataRoot>,
    post: Map<Seq<u8>, CachedDataRoot>,
    header: IrysTransactionHeader,
    now_ms: u128,
) -> bool {
    let root = header.data_root@;
    &&& post.contains_key(root)
    &&& post == pre.insert(root, post[root])
    &&& if pre.contains_key(root) {
        let old_entry = pre[root];
        let new_entry = post[root];
        &&& new_entry.timestamp == old_entry.timestamp
        &&& new_entry.data_size == old_entry.data_size
        &&& if id_in_seq(old_entry.txid_set@, header.id@) {
            new_entry.txid_set@ == old_entry.txid_set@
        } else {
            new_entry.txid_set@ == old_entry.txid_set@.push(header.id)
        }
    } else {
        let new_entry = post[root];
        &&& new_entry.timestamp == now_ms
        &&& new_entry.data_size == header.data_size
        &&& new_entry.txid_set@ == seq![header.id]
    }
}

/// How accepting a valid header for an unseen id changes the validator:
/// the id becomes `Valid` with its header retained, the data-root cache is
/// upserted, and nothing else moves.
pub open spec fn tx_accept_transition(
    pre: MempoolActor,
    post: MempoolActor,
    header: IrysTransactionHeader,
    now_ms: u128,
) -> bool {
    &&& post.valid_map() == pre.valid_map().insert(header.id@, header)
    &&& post.valid_entry_seq() == pre.valid_entry_seq().push((header.id@, header))
    &&& post.invalid_seq() == pre.invalid_seq()
    &&& post.chunk_cache_map() == pre.chunk_cache_map()
    &&& root_upsert(pre.root_cache_map(), post.root_cache_map(), header, now_ms)
}

/// The mempool oversees pending transactions and validation of incoming
/// transactions and chunks. The data-root and chunk caches are held in
/// memory; handing them to a persistence engine is the surrounding node's
/// concern.
pub struct MempoolActor {
    valid_tx: H256Map<IrysTransactionHeader>,
    invalid_tx: Vec<H256>,
    data_root_cache: H256Map<CachedDataRoot>,
    chunk_cache: H256Map<CachedChunk>,
}

impl MempoolActor {
    /// Headers accepted as `Valid`, by transaction id.
    pub closed spec fn valid_map(&self) -> Map<Seq<u8>, IrysTransactionHeader> {
        self.valid_tx@
    }

    /// The accepted headers in arrival order.
    pub closed spec fn valid_entry_seq(&self) -> Seq<(Seq<u8>, IrysTransactionHeader)> {
        self.valid_tx.entry_seq()
    }

    /// Ids recorded as `Invalid`, in arrival order.
    pub closed spec fn invalid_seq(&self) -> Seq<H256> {
        self.invalid_tx@
    }

    /// The cached data roots, by root hash.
    pub closed spec fn root_cache_map(&self) -> Map<Seq<u8>, CachedDataRoot> {
        self.data_root_cache@
    }

    /// The cached chunks, by chunk path hash.
    pub closed spec fn chunk_cache_map(&self) -> Map<Seq<u8>, CachedChunk> {
        self.chunk_cache@
    }

    /// An id is known once it has reached either terminal state.
    pub open spec fn tx_known(&self, id: Seq<u8>) -> bool {
        self.valid_map().contains_key(id) || id_in_seq(self.invalid_seq(), id)
    }

    pub closed spec fn wf(&self) -> bool {
        &&& self.valid_tx.wf()
        &&& self.data_root_cache.wf()
        &&& self.chunk_cache.wf()
    }

    /// A fresh validator with empty caches.
    pub fn new() -> (r: Self)
        ensures
            r.wf(),
            r.valid_map() == Map::<Seq<u8>, IrysTransactionHeader>::empty(),
            r.valid_entry_seq() == Seq::<(Seq<u8>, IrysTransactionHeader)>::empty(),
            r.invalid_seq() == Seq::<H256>::empty(),
            r.root_cache_map() == Map::<Seq<u8>, CachedDataRoot>::empty(),
            r.chunk_cache_map() == Map::<Seq<u8>, CachedChunk>::empty(),
    {
        MempoolActor {
            valid_tx: H256Map::new(),
            invalid_tx: Vec::new(),
            data_root_cache: H256Map::new(),
            chunk_cache: H256Map::new(),
        }
    }

    /// Whether this id has already been processed to a terminal state.
    /// The driver consults this before spending signature verification on
    /// a submission.
    pub fn tx_is_known(&self, id: &H256) -> (r: bool)
        requires
            self.wf(),
        ensures
            r == self.tx_known(id@),
    {
        contains_id(&self.invalid_tx, id) || self.valid_tx.contains_key(id)
    }

    /// Handles a discovered transaction. `sig_valid` is the verdict of the
    /// external signature check over the header; for an already-known id
    /// it is ignored — the submission is skipped outright to keep replayed
    /// ids from costing repeated signature work.
    pub fn handle_tx_ingress(
        &mut self,
        tx_msg: TxIngressMessage,
        sig_valid: bool,
        now_ms: u128,
    ) -> (r: Result<(), TxIngressError>)
        requires
            old(self).wf(),
        ensures
            final(self).wf(),
            ({
                let header = tx_msg.0;
                if old(self).tx_known(header.id@) {
                    r == Err::<(), TxIngressError>(TxIngressError::Skipped) && *final(self) == *old(
                        self,
                    )
                } else if !sig_valid {
                    &&& r == Err::<(), TxIngressError>(TxIngressError::InvalidSignature)
                    &&& final(self).invalid_seq() == old(self).invalid_seq().push(header.id)
                    &&& final(self).valid_map() == old(self).valid_map()
                    &&& final(self).valid_entry_seq() == old(self).valid_entry_seq()
                    &&& final(self).root_cache_map() == old(self).root_cache_map()
                    &&& final(self).chunk_cache_map() == old(self).chunk_cache_map()
                } else {
                    &&& r == Ok::<(), TxIngressError>(())
                    &&& tx_accept_transition(*old(self), *final(self), header, now_ms)
                }
            }),
    {
        let header = tx_msg.into_inner();

        // A replayed id is skipped before any further work: reprocessing
        // already-judged transactions would let spam force repeated
        // CPU-intensive signature verification.
        if contains_id(&self.invalid_tx, &header.id) || self.valid_tx.contains_key(&header.id) {
            return Err(TxIngressError::Skipped);
        }

        if !sig_valid {
            self.invalid_tx.push(header.id);
            return Err(TxIngressError::InvalidSignature);
        }

        // Cache the data root; the entry is created on first sight of the
        // root and extended idempotently afterwards.
        let new_entry = match self.data_root_cache.get(&header.data_root) {
            Some(existing) => {
                let mut ids = copy_ids(&existing.txid_set);
                if !contains_id(&ids, &header.id) {
                    ids.push(header.id);
                }
                CachedDataRoot {
                    timestamp: existing.timestamp,
                    data_size: existing.data_size,
                    txid_set: ids,
                }
            },
            None => CachedDataRoot {
                timestamp: now_ms,
                data_size: header.data_size,
                txid_set: vec_of_one(header.id),
            },
        };
        self.data_root_cache.insert(header.data_root, new_entry);

        self.valid_tx.insert(header.id, header);
        Ok(())
    }

    /// Handles a discovered chunk: the cached data root is looked up by
    /// the chunk's declared root, the merkle path is validated with the
    /// chunk's end offset as the target, the declared size is cross-checked
    /// against the cached one, the sizing rule is enforced, and the
    /// recomputed payload hash must equal the leaf hash the path commits
    /// to. Only then is the chunk cached under its path hash. A rejected
    /// chunk leaves the validator unchanged, and never marks its data root
    /// invalid: a differently-shaped chunk may be submitted against the
    /// same root afterwards.
    pub fn handle_chunk_ingress(&mut self, chunk_msg: ChunkIngressMessage) -> (r: Result<
        (),
        ChunkIngressError,
    >)
        requires
            old(self).wf(),
        ensures
            final(self).wf(),
            ({
                let chunk = chunk_msg.0;
                let root_known = old(self).root_cache_map().contains_key(chunk.data_root@);
                let leaf = merkle_leaf_of(chunk.data_root@, chunk.data_path@, chunk.offset as nat);
                let size_match = root_known && old(self).root_cache_map()[chunk.data_root@].data_size
                    == chunk.data_size;
                match r {
                    Ok(_) => {
                        &&& root_known
                        &&& leaf matches Some(l) && l == sha256_of(chunk.bytes@)
                        &&& size_match
                        &&& chunk_sizing_ok(chunk)
                        &&& final(self).chunk_cache_map() == old(self).chunk_cache_map().insert(
                            sha256_of(chunk.data_path@),
                            final(self).chunk_cache_map()[sha256_of(chunk.data_path@)],
                        )
                        &&& ({
                            let entry = final(self).chunk_cache_map()[sha256_of(chunk.data_path@)];
                            &&& entry.chunk matches Some(b) && b@ == chunk.bytes@
                            &&& entry.data_path@ == chunk.data_path@
                        })
                        &&& final(self).valid_map() == old(self).valid_map()
                        &&& final(self).valid_entry_seq() == old(self).valid_entry_seq()
                        &&& final(self).invalid_seq() == old(self).invalid_seq()
                        &&& final(self).root_cache_map() == old(self).root_cache_map()
                    },
                    Err(ChunkIngressError::InvalidDataHash) => {
                        &&& *final(self) == *old(self)
                        &&& (!root_known || (leaf is Some && !size_match) || (leaf matches Some(l)
                            && size_match && chunk_sizing_ok(chunk) && l != sha256_of(
                            chunk.bytes@,
                        )))
                    },
                    Err(ChunkIngressError::InvalidProof) => {
                        &&& *final(self) == *old(self)
                        &&& root_known
                        &&& leaf is None
                    },
                    Err(ChunkIngressError::InvalidChunkSize) => {
                        &&& *final(self) == *old(self)
                        &&& root_known
                        &&& leaf is Some
                        &&& size_match
                        &&& !chunk_sizing_ok(chunk)
                    },
                    Err(ChunkIngressError::DatabaseError) => false,
                }
            }),
    {
        let chunk = chunk_msg.into_inner();

        // Check for a cached data root for this chunk: a root never seen
        // in a valid header authenticates nothing.
        let cached_data_size: u64 = match self.data_root_cache.get(&chunk.data_root) {
            Some(cached) => cached.data_size,
            None => {
                return Err(ChunkIngressError::InvalidDataHash);
            },
        };

        // Validate the data path, linking data_root -> leaf hash.
        let path_result = match validate_path(&chunk.data_root, &chunk.data_path, chunk.offset
            as u64) {
            Some(res) => res,
            None => {
                return Err(ChunkIngressError::InvalidProof);
            },
        };

        // The size declared by the chunk must match the size recorded in
        // the transaction header that introduced the root.
        if cached_data_size != chunk.data_size {
            return Err(ChunkIngressError::InvalidDataHash);
        }

        // Only the last chunk of the transaction data may be smaller than
        // CHUNK_SIZE; interior chunks must fill it exactly.
        let chunk_len = chunk.bytes.len() as u64;
        if (chunk.offset as u64) + 1 < chunk.data_size {
            if chunk_len != CHUNK_SIZE {
                return Err(ChunkIngressError::InvalidChunkSize);
            }
        } else {
            if chunk_len > CHUNK_SIZE {
                return Err(ChunkIngressError::InvalidChunkSize);
            }
        }

        // The leaf hash the path commits to must equal the hash of the
        // payload actually received.
        let payload_hash = hash_sha256(chunk.bytes.as_slice());
        if !payload_hash.eq_hash(&path_result.leaf_hash) {
            return Err(ChunkIngressError::InvalidDataHash);
        }

        // The chunk checks out: cache it under the hash of its data path.
        let key = chunk.chunk_path_hash();
        let entry = CachedChunk { chunk: Some(chunk.bytes), data_path: chunk.data_path };
        self.chunk_cache.insert(key, entry);
        Ok(())
    }

    /// The cached data root for `data_root`, if a valid header has
    /// introduced it.
    pub fn get_cached_data_root(&self, data_root: &H256) -> (r: Option<&CachedDataRoot>)
        requires
            self.wf(),
        ensures
            match r {
                Some(entry) => self.root_cache_map().contains_key(data_root@) && *entry
                    == self.root_cache_map()[data_root@],
                None => !self.root_cache_map().contains_key(data_root@),
            },
    {
        self.data_root_cache.get(data_root)
    }

    /// The cached chunk stored under `chunk_path_hash`, if any.
    pub fn get_cached_chunk(&self, chunk_path_hash: &H256) -> (r: Option<&CachedChunk>)
        requires
            self.wf(),
        ensures
            match r {
                Some(entry) => self.chunk_cache_map().contains_key(chunk_path_hash@) && *entry
                    == self.chunk_cache_map()[chunk_path_hash@],
                None => !self.chunk_cache_map().contains_key(chunk_path_hash@),
            },
    {
        self.chunk_cache.get(chunk_path_hash)
    }

    /// The pending valid transactions, in arrival order. Which of them are
    /// "best" for a block is the block producer's policy, not decided
    /// here.
    pub fn get_best_mempool_txs(&self, _msg: GetBestMempoolTxs) -> (r: Vec<IrysTransactionHeader>)
        requires
            self.wf(),
        ensures
            r@.len() == self.valid_entry_seq().len(),
            forall|i: int|
                0 <= i < r@.len() ==> header_view(#[trigger] r@[i]) == header_view(
                    self.valid_entry_seq()[i].1,
                ),
    {
        let mut out: Vec<IrysTransactionHeader> = Vec::new();
        let n = self.valid_tx.len();
        let mut i: usize = 0;
        while i < n
            invariant
                i <= n,
                n == self.valid_entry_seq().len(),
                out@.len() == i,
                forall|j: int|
                    0 <= j < i ==> header_view(#[trigger] out@[j]) == header_view(
                        self.valid_entry_seq()[j].1,
                    ),
            decreases n - i,
        {
            let entry = self.valid_tx.entry_at(i);
            out.push(copy_header(&entry.1));
            i += 1;
        }
        out
    }
}

/// Idempotent root caching: accepting two distinct valid headers that
/// share a data root yields one cached entry for that root, whose id set
/// holds both ids in arrival order and whose size and timestamp are those
/// recorded for the first header.
pub proof fn lemma_idempotent_root_caching(
    s0: MempoolActor,
    s1: MempoolActor,
    s2: MempoolActor,
    h1: IrysTransactionHeader,
    h2: IrysTransactionHeader,
    t1: u128,
    t2: u128,
)
    requires
        h1.data_root@ == h2.data_root@,
        h1.id@ != h2.id@,
        !s0.root_cache_map().contains_key(h1.data_root@),
        tx_accept_transition(s0, s1, h1, t1),
        tx_accept_transition(s1, s2, h2, t2),
    ensures
        s2.root_cache_map().contains_key(h1.data_root@),
        s2.root_cache_map().dom() == s0.root_cache_map().dom().insert(h1.data_root@),
        s2.root_cache_map()[h1.data_root@].data_size == h1.data_size,
        s2.root_cache_map()[h1.data_root@].timestamp == t1,
        s2.root_cache_map()[h1.data_root@].txid_set@ == seq![h1.id, h2.id],
        id_in_seq(s2.root_cache_map()[h1.data_root@].txid_set@, h1.id@),
        id_in_seq(s2.root_cache_map()[h1.data_root@].txid_set@, h2.id@),
{
    let root = h1.data_root@;
    let e1 = s1.root_cache_map()[root];
    let e2 = s2.root_cache_map()[root];
    assert(e1.txid_set@ == seq![h1.id]);
    assert(!id_in_seq(e1.txid_set@, h2.id@)) by {
        assert(e1.txid_set@.len() == 1);
        assert(e1.txid_set@[0] == h1.id);
    }
    assert(e2.txid_set@ == seq![h1.id].push(h2.id));
    assert(e2.txid_set@ =~= seq![h1.id, h2.id]);
    assert(e2.txid_set@[0] == h1.id);
    assert(e2.txid_set@[1] == h2.id);
    assert(s2.root_cache_map().dom() =~= s0.root_cache_map().dom().insert(root));
}

/// Replay rejection: once a header's id has reached a terminal state —
/// accepted as valid, or its id recorded invalid — the validator knows
/// the id, so a resubmission falls under the `Skipped` case of
/// [`MempoolActor::handle_tx_ingress`], whatever signature verdict is
/// handed in, and no signature work is owed for it.
pub proof fn lemma_replay_rejection(
    pre: MempoolActor,
    post: MempoolActor,
    header: IrysTransactionHeader,
    now_ms: u128,
)
    requires
        tx_accept_transition(pre, post, header, now_ms) || post.invalid_seq()
            == pre.invalid_seq().push(header.id),
    ensures
        post.tx_known(header.id@),
{
    if tx_accept_transition(pre, post, header, now_ms) {
        assert(post.valid_map().contains_key(header.id@));
    } else {
        let s = post.invalid_seq();
        assert(s[s.len() - 1] == header.id);
    }
}

/// Whether `id` occurs in `s`.
fn contains_id(s: &Vec<H256>, id: &H256) -> (r: bool)
    ensures
        r == id_in_seq(s@, id@),
{
    let n = s.len();
    let mut i: usize = 0;
    while i < n
        invariant
            i <= n,
            n == s@.len(),
            forall|j: int| 0 <= j < i ==> (#[trigger] s@[j])@ != id@,
        decreases n - i,
    {
        if s[i].eq_hash(id) {
            return true;
        }
        i += 1;
    }
    false
}

/// An owned copy of an id list.
fn copy_ids(src: &Vec<H256>) -> (r: Vec<H256>)
    ensures
        r@ == src@,
{
    let mut r: Vec<H256> = Vec::new();
    let n = src.len();
    let mut i: usize = 0;
    while i < n
        invariant
            i <= n,
            n == src@.len(),
            r@ == src@.take(i as int),
        decreases n - i,
    {
        r.push(src[i]);
        proof {
            assert(src@.take(i + 1) =~= src@.take(i as int).push(src@[i as int]));
        }
        i += 1;
    }
    proof {
        assert(src@.take(n as int) =~= src@);
    }
    r
}

/// A one-element id list.
fn vec_of_one(id: H256) -> (r: Vec<H256>)
    ensures
        r@ == seq![id],
{
    let mut r: Vec<H256> = Vec::new();
    r.push(id);
    proof {
        assert(r@ =~= seq![id]);
    }
    r
}

} // verus!
