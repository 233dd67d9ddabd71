//! The durable store of complete batches. Every stored entry's digest is the
//! canonical digest of its payload; the in-memory and durable byte counters
//! never exceed their quotas. When memory is short, payloads of batches with
//! the earliest expiry are evicted first — their metadata and durable copy
//! remain until expiry. Peer fragments are aggregated per author here, and a
//! completed peer batch is persisted and signed.

use vstd::prelude::*;
use crate::batch_aggregator::BatchAggregator;
use crate::digest::{compute_digest, digest_of, total_bytes};
use crate::table::{
    lemma_find_absent, lemma_find_cons, lemma_find_present, lemma_sum_by_nonneg,
    lemma_sum_by_push, lemma_sum_by_remove, sum_by, spec_find, Table,
};
use crate::types::{
    copy_payload, payload_view, BatchId, BatchInfo, Fragment, PeerId, PersistRequest,
    SerializedTransaction, SignedDigest,
};
use crate::validator_verifier::{signature_of, ValidatorSigner};

verus! {

/// One batch as stored: its metadata, the durable payload, and whether the
/// payload is also held in memory.
pub struct StoredBatch {
    pub info: BatchInfo,
    pub payload: Vec<SerializedTransaction>,
    pub in_memory: bool,
}

/// In-memory bytes an entry accounts for.
pub open spec fn mem_cost() -> spec_fn(StoredBatch) -> int {
    |b: StoredBatch| if b.in_memory { b.info.num_bytes as int } else { 0int }
}

/// Durable bytes an entry accounts for.
pub open spec fn db_cost() -> spec_fn(StoredBatch) -> int {
    |b: StoredBatch| b.info.num_bytes as int
}

/// A stored entry is internally consistent: right epoch, digest the canonical
/// digest of its payload, byte count exact.
pub open spec fn entry_ok(epoch: u64, b: StoredBatch) -> bool {
    &&& b.info.epoch == epoch
    &&& b.info.digest == digest_of(
        epoch,
        b.info.author,
        b.info.batch_id,
        payload_view(b.payload@),
    )
    &&& b.info.num_bytes == total_bytes(payload_view(b.payload@))
}

/// Evictions follow expiry order: among batches other than `except`, any
/// payload evicted from memory between the two states expires no later than
/// any payload still held in memory afterwards.
#[verifier::opaque]
pub open spec fn eviction_ordered(pre: BatchStore, post: BatchStore, except: Option<u64>) -> bool {
    forall|d1: u64, d2: u64|
        #![trigger pre.stored(d1), post.stored(d2)]
        Some(d1) != except && Some(d2) != except && pre.stored(d1) is Some && pre.stored(
            d1,
        )->Some_0.in_memory && post.stored(d1) is Some && !post.stored(d1)->Some_0.in_memory
            && post.stored(d2) is Some && post.stored(d2)->Some_0.in_memory ==> pre.stored(
            d1,
        )->Some_0.info.expiry.round <= post.stored(d2)->Some_0.info.expiry.round
}

/// The fragment meets an empty aggregation for its author: the author is new,
/// or the fragment announces a newer batch, which resets the in-progress one.
pub open spec fn fragment_starts_fresh(agg: Option<BatchAggregator>, batch_id: BatchId) -> bool {
    match agg {
        None => true,
        Some(a) => match a.current_batch_id() {
            Some(cur) => batch_id > cur,
            None => false,
        },
    }
}

/// What the author's aggregation already holds for the batch this fragment
/// joins.
pub open spec fn pre_acc(agg: Option<BatchAggregator>, batch_id: BatchId) -> Seq<Seq<u8>> {
    if fragment_starts_fresh(agg, batch_id) {
        Seq::empty()
    } else {
        match agg {
            Some(a) => a.acc_txns(),
            None => Seq::empty(),
        }
    }
}

/// The author's aggregation would ingest a fragment with these coordinates
/// (size permitting).
pub open spec fn fragment_accepted(
    agg: Option<BatchAggregator>,
    batch_id: BatchId,
    fragment_id: u64,
) -> bool {
    if fragment_starts_fresh(agg, batch_id) {
        fragment_id == 0
    } else {
        match agg {
            Some(a) => a.accepts(batch_id, fragment_id),
            None => false,
        }
    }
}

/// The fragment belongs to a batch the aggregation will not touch: an older
/// batch than the in-progress one, or a dead one.
pub open spec fn fragment_wrong_batch(agg: Option<BatchAggregator>, batch_id: BatchId) -> bool {
    !fragment_starts_fresh(agg, batch_id) && match agg {
        Some(a) => !a.batch_matches(batch_id),
        None => false,
    }
}

/// The batch's retention deadline has passed: its expiry round plus the grace
/// rounds lies before the committed round.
pub open spec fn expired(info: BatchInfo, grace: u64, committed_round: u64) -> bool {
    info.expiry.round + grace < committed_round
}

/// Why a persist request was refused.
#[derive(Clone, Copy, PartialEq, Eq, Structural, Debug)]
pub enum PersistError {
    /// The request's metadata carries another epoch.
    WrongEpoch,
    /// The digest or byte count does not match the payload.
    DigestMismatch,
    /// Storing the payload would exceed the durable quota.
    QuotaExceeded,
}

/// What an inbound fragment did to the store.
#[derive(Clone, Copy, PartialEq, Eq, Structural, Debug)]
pub enum FragmentOutcome {
    /// Dropped: wrong epoch, or rejected by aggregation.
    Ignored,
    /// Appended to the author's in-progress batch.
    Appended,
    /// Batch completed and persisted; the signature to send to its author.
    Stored(SignedDigest),
    /// Batch completed but persistence refused.
    Refused(PersistError),
}

/// Durable and in-memory batch state of one validator in one epoch.
pub struct BatchStore {
    epoch: u64,
    my_peer_id: PeerId,
    last_committed_round: u64,
    batch_expiry_grace_rounds: u64,
    max_batch_bytes: u64,
    memory_quota: u64,
    db_quota: u64,
    mem_used: u64,
    db_used: u64,
    batches: Table<StoredBatch>,
    aggregators: Table<BatchAggregator>,
    signer: ValidatorSigner,
}

impl BatchStore {
    pub closed spec fn spec_epoch(&self) -> u64 {
        self.epoch
    }

    pub closed spec fn spec_my_peer_id(&self) -> PeerId {
        self.my_peer_id
    }

    pub closed spec fn spec_last_committed_round(&self) -> u64 {
        self.last_committed_round
    }

    pub closed spec fn spec_grace(&self) -> u64 {
        self.batch_expiry_grace_rounds
    }

    pub closed spec fn spec_max_batch_bytes(&self) -> u64 {
        self.max_batch_bytes
    }

    pub closed spec fn spec_memory_quota(&self) -> u64 {
        self.memory_quota
    }

    pub closed spec fn spec_db_quota(&self) -> u64 {
        self.db_quota
    }

    pub closed spec fn spec_mem_used(&self) -> u64 {
        self.mem_used
    }

    pub closed spec fn spec_db_used(&self) -> u64 {
        self.db_used
    }

    /// The stored batch under this digest, if any.
    pub closed spec fn stored(&self, digest: u64) -> Option<StoredBatch> {
        self.batches.find(digest)
    }

    /// The stored entries, in insertion order.
    pub closed spec fn spec_entries(&self) -> Seq<(u64, StoredBatch)> {
        self.batches.entries()
    }

    pub closed spec fn agg_entries(&self) -> Seq<(u64, BatchAggregator)> {
        self.aggregators.entries()
    }

    /// The aggregation state for one author, if any.
    pub closed spec fn agg_for(&self, author: PeerId) -> Option<BatchAggregator> {
        self.aggregators.find(author)
    }

    /// Configuration and identity do not change over the store's lifetime.
    pub open spec fn same_config(&self, other: &BatchStore) -> bool {
        &&& self.spec_epoch() == other.spec_epoch()
        &&& self.spec_my_peer_id() == other.spec_my_peer_id()
        &&& self.spec_grace() == other.spec_grace()
        &&& self.spec_max_batch_bytes() == other.spec_max_batch_bytes()
        &&& self.spec_memory_quota() == other.spec_memory_quota()
        &&& self.spec_db_quota() == other.spec_db_quota()
    }

    pub closed spec fn wf(&self) -> bool {
        &&& self.batches.wf()
        &&& self.aggregators.wf()
        &&& forall|i: int|
            0 <= i < self.batches.entries().len() ==> (#[trigger] self.batches.entries()[i]).0
                == self.batches.entries()[i].1.info.digest && entry_ok(
                self.epoch,
                self.batches.entries()[i].1,
            )
        &&& self.mem_used == sum_by(self.batches.entries(), mem_cost())
        &&& self.db_used == sum_by(self.batches.entries(), db_cost())
        &&& self.mem_used <= self.memory_quota
        &&& self.db_used <= self.db_quota
        &&& forall|i: int|
            0 <= i < self.aggregators.entries().len() ==> (#[trigger] self.aggregators.entries()[
                i
            ]).0 == self.aggregators.entries()[i].1.author()
                && self.aggregators.entries()[i].1.wf() && self.aggregators.entries()[i].1.epoch()
                == self.epoch && self.aggregators.entries()[i].1.max_bytes()
                == self.max_batch_bytes
        &&& self.signer.peer == self.my_peer_id
    }

    /// The quotas are respected: in-memory and durable footprints never
    /// exceed their limits.
    pub proof fn lemma_quotas_respected(&self)
        requires
            self.wf(),
        ensures
            self.spec_mem_used() <= self.spec_memory_quota(),
            self.spec_db_used() <= self.spec_db_quota(),
    {
    }

    /// The public counters are exactly the sums over the stored entries, and
    /// a lookup is exactly a find over them.
    pub proof fn lemma_counters_match_entries(&self)
        requires
            self.wf(),
        ensures
            self.spec_mem_used() == sum_by(self.spec_entries(), mem_cost()),
            self.spec_db_used() == sum_by(self.spec_entries(), db_cost()),
            forall|d: u64| self.stored(d) == spec_find(self.spec_entries(), d),
    {
    }

    /// Every stored batch's digest is the canonical digest of its payload.
    pub proof fn lemma_stored_digest_canonical(&self, digest: u64)
        requires
            self.wf(),
            self.stored(digest) is Some,
        ensures
            self.stored(digest)->Some_0.info.digest == digest,
            entry_ok(self.spec_epoch(), self.stored(digest)->Some_0),
    {
        crate::table::lemma_find_index(self.batches.entries(), digest);
    }

    pub fn new(
        epoch: u64,
        last_committed_round: u64,
        my_peer_id: PeerId,
        max_batch_bytes: u64,
        memory_quota: u64,
        db_quota: u64,
        batch_expiry_grace_rounds: u64,
    ) -> (r: BatchStore)
        ensures
            r.wf(),
            r.spec_epoch() == epoch,
            r.spec_my_peer_id() == my_peer_id,
            r.spec_last_committed_round() == last_committed_round,
            r.spec_grace() == batch_expiry_grace_rounds,
            r.spec_max_batch_bytes() == max_batch_bytes,
            r.spec_memory_quota() == memory_quota,
            r.spec_db_quota() == db_quota,
            r.spec_mem_used() == 0,
            r.spec_db_used() == 0,
            forall|d: u64| r.stored(d) is None,
    {
        BatchStore {
            epoch,
            my_peer_id,
            last_committed_round,
            batch_expiry_grace_rounds,
            max_batch_bytes,
            memory_quota,
            db_quota,
            mem_used: 0,
            db_used: 0,
            batches: Table::new(),
            aggregators: Table::new(),
            signer: ValidatorSigner::new(my_peer_id),
        }
    }

    pub fn mem_used(&self) -> (r: u64)
        ensures
            r == self.spec_mem_used(),
    {
        self.mem_used
    }

    pub fn db_used(&self) -> (r: u64)
        ensures
            r == self.spec_db_used(),
    {
        self.db_used
    }

    /// The stored batch exists and its payload is held in memory.
    pub fn is_in_memory(&self, digest: u64) -> (r: bool)
        requires
            self.wf(),
        ensures
            r == (self.stored(digest) matches Some(b) && b.in_memory),
    {
        match self.batches.get(digest) {
            Some(b) => b.in_memory,
            None => false,
        }
    }

    pub fn contains_batch(&self, digest: u64) -> (r: bool)
        requires
            self.wf(),
        ensures
            r == (self.stored(digest) is Some),
    {
        self.batches.contains_key(digest)
    }

    /// The stored metadata of a batch, if any.
    pub fn get_info(&self, digest: u64) -> (r: Option<BatchInfo>)
        requires
            self.wf(),
        ensures
            match r {
                Some(info) => self.stored(digest) matches Some(b) && b.info == info,
                None => self.stored(digest) is None,
            },
    {
        match self.batches.get(digest) {
            Some(b) => Some(b.info),
            None => None,
        }
    }

    /// An inbound proof of store: a quorum has the batch, so a validator that
    /// does not hold it should fetch it to stay serviceable. Says whether a
    /// fetch is needed; the batch, if held, is retained until expiry anyway.
    pub fn handle_proof_of_store(&self, pos: &crate::types::ProofOfStore) -> (needs_fetch: bool)
        requires
            self.wf(),
        ensures
            needs_fetch == (self.stored(pos.info.digest) is None),
    {
        !self.contains_batch(pos.info.digest)
    }

    /// Read a batch's payload locally: from memory if cached, else from the
    /// durable copy. An evicted but unexpired batch is still produced here.
    pub fn get_batch_local(&self, digest: u64) -> (r: Option<Vec<SerializedTransaction>>)
        requires
            self.wf(),
        ensures
            match r {
                Some(p) => self.stored(digest) matches Some(b) && payload_view(p@) == payload_view(
                    b.payload@,
                ),
                None => self.stored(digest) is None,
            },
    {
        match self.batches.get(digest) {
            Some(b) => Some(copy_payload(&b.payload)),
            None => None,
        }
    }

    /// The key of an in-memory entry whose expiry round is least among all
    /// in-memory entries, if one exists.
    fn find_evict_candidate(&self) -> (r: Option<u64>)
        requires
            self.wf(),
        ensures
            match r {
                Some(k) => self.stored(k) matches Some(b) && b.in_memory && forall|i: int|
                    0 <= i < self.batches.entries().len() && (#[trigger] self.batches.entries()[
                        i
                    ].1).in_memory ==> b.info.expiry.round
                        <= self.batches.entries()[i].1.info.expiry.round,
                None => forall|i: int|
                    0 <= i < self.batches.entries().len() ==> !(#[trigger] self.batches.entries()[
                        i
                    ].1).in_memory,
            },
    {
        let n = self.batches.len();
        let mut best: Option<usize> = None;
        let mut i: usize = 0;
        while i < n
            invariant
                self.wf(),
                n == self.batches.entries().len(),
                i <= n,
                match best {
                    Some(bi) => bi < i && self.batches.entries()[bi as int].1.in_memory && forall|
                        j: int,
                    |
                        0 <= j < i && (#[trigger] self.batches.entries()[j].1).in_memory
                            ==> self.batches.entries()[bi as int].1.info.expiry.round
                            <= self.batches.entries()[j].1.info.expiry.round,
                    None => forall|j: int|
                        0 <= j < i ==> !(#[trigger] self.batches.entries()[j].1).in_memory,
                },
            decreases n - i,
        {
            if self.batches.at(i).1.in_memory {
                let better = match best {
                    Some(bi) => self.batches.at(i).1.info.expiry.round < self.batches.at(
                        bi,
                    ).1.info.expiry.round,
                    None => true,
                };
                if better {
                    best = Some(i);
                }
            }
            i = i + 1;
        }
        match best {
            Some(bi) => {
                let k = self.batches.at(bi).0;
                proof {
                    lemma_find_present(self.batches.entries(), bi as int);
                }
                Some(k)
            },
            None => None,
        }
    }

    /// Evict in-memory payloads, earliest expiry first, until `extra` more
    /// bytes fit in memory or nothing is left to evict. Metadata and durable
    /// copies are untouched. Returns whether `extra` bytes now fit.
    #[verifier::rlimit(60)]
    fn make_room(&mut self, extra: u64) -> (fits: bool)
        requires
            old(self).wf(),
        ensures
            final(self).wf(),
            final(self).same_config(old(self)),
            final(self).spec_last_committed_round() == old(self).spec_last_committed_round(),
            final(self).spec_db_used() == old(self).spec_db_used(),
            final(self).agg_entries() == old(self).agg_entries(),
            fits == (final(self).spec_mem_used() + extra <= final(self).spec_memory_quota()),
            old(self).spec_mem_used() + extra <= old(self).spec_memory_quota() ==> *final(self)
                == *old(self),
            forall|d: u64|
                #![trigger old(self).stored(d)]
                match old(self).stored(d) {
                    Some(b) => final(self).stored(d) matches Some(b2) && b2.info == b.info
                        && payload_view(b2.payload@) == payload_view(b.payload@) && (b2.in_memory
                        ==> b.in_memory),
                    None => final(self).stored(d) is None,
                },
            forall|d1: u64, d2: u64|
                #![trigger old(self).stored(d1), final(self).stored(d2)]
                old(self).stored(d1) is Some && old(self).stored(d1)->Some_0.in_memory && final(self).stored(d1) is Some && !final(self).stored(d1)->Some_0.in_memory && final(self).stored(d2) is Some && final(self).stored(d2)->Some_0.in_memory ==> old(self).stored(d1)->Some_0.info.expiry.round <= final(self).stored(d2)->Some_0.info.expiry.round,
    {
        let ghost pre = *self;
        let mut rounds = self.batches.len();
        while rounds > 0 && (extra > self.memory_quota || self.mem_used > self.memory_quota
            - extra)
            invariant
                pre == *old(self),
                self.wf(),
                self.same_config(&pre),
                self.spec_last_committed_round() == pre.spec_last_committed_round(),
                self.spec_db_used() == pre.spec_db_used(),
                self.agg_entries() == pre.agg_entries(),
                pre.spec_mem_used() + extra <= pre.spec_memory_quota() ==> *self == pre,
                forall|d: u64|
                    #![trigger pre.stored(d)]
                    match pre.stored(d) {
                        Some(b) => self.stored(d) matches Some(b2) && b2.info == b.info
                            && payload_view(b2.payload@) == payload_view(b.payload@) && (
                        b2.in_memory ==> b.in_memory),
                        None => self.stored(d) is None,
                    },
                forall|d1: u64, d2: u64|
                    #![trigger pre.stored(d1), self.stored(d2)]
                    pre.stored(d1) is Some && pre.stored(d1)->Some_0.in_memory && self.stored(
                        d1,
                    ) is Some && !self.stored(d1)->Some_0.in_memory && self.stored(d2) is Some
                        && self.stored(d2)->Some_0.in_memory ==> pre.stored(
                        d1,
                    )->Some_0.info.expiry.round <= self.stored(d2)->Some_0.info.expiry.round,
            decreases rounds,
        {
            let k = match self.find_evict_candidate() {
                Some(k) => k,
                None => {
                    proof {
                        reveal(eviction_ordered);
                    }
                    return false;
                },
            };
            let ghost step0 = *self;
            let ghost s0 = self.batches.entries();
            let mut b = match self.batches.remove_entry(k) {
                Some(b) => b,
                None => vstd::pervasive::unreached(),
            };
            proof {
                let i = choose|i: int|
                    0 <= i < s0.len() && s0[i].0 == k && self.batches.entries() == s0.remove(i);
                lemma_find_present(s0, i);
                assert(s0[i].1 == b);
                lemma_sum_by_remove(s0, i, mem_cost());
                lemma_sum_by_remove(s0, i, db_cost());
                lemma_sum_by_nonneg(self.batches.entries(), mem_cost());
                assert(forall|a: int| 0 <= a < i ==> self.batches.entries()[a] == s0[a]);
                assert(forall|a: int|
                    i <= a < self.batches.entries().len() ==> self.batches.entries()[a] == s0[a
                        + 1]);
            }
            let bytes = b.info.num_bytes;
            b.in_memory = false;
            let ghost s1 = self.batches.entries();
            self.batches.insert_new(k, b);
            proof {
                lemma_sum_by_push(s1, (k, b), mem_cost());
                lemma_sum_by_push(s1, (k, b), db_cost());
                assert(forall|a: int| 0 <= a < s1.len() ==> self.batches.entries()[a] == s1[a]);
                assert(self.batches.entries().last() == (k, b));
            }
            self.mem_used = self.mem_used - bytes;
            proof {
                let cand = step0.stored(k)->Some_0;
                assert forall|d1: u64, d2: u64|
                    pre.stored(d1) is Some && pre.stored(d1)->Some_0.in_memory && self.stored(
                        d1,
                    ) is Some && !self.stored(d1)->Some_0.in_memory && self.stored(d2) is Some
                        && self.stored(d2)->Some_0.in_memory implies pre.stored(
                    d1,
                )->Some_0.info.expiry.round <= self.stored(d2)->Some_0.info.expiry.round by {
                    assert(d2 != k);
                    assert(self.stored(d2) == step0.stored(d2));
                    crate::table::lemma_find_index(s0, d2);
                    let j = choose|j: int|
                        0 <= j < s0.len() && s0[j].0 == d2 && s0[j].1 == spec_find(s0, d2)->Some_0;
                    if d1 == k {
                        assert(cand.info.expiry.round <= s0[j].1.info.expiry.round);
                    } else {
                        assert(self.stored(d1) == step0.stored(d1));
                    }
                }
            }
            rounds = rounds - 1;
        }
        proof {
            reveal(eviction_ordered);
        }
        extra <= self.memory_quota && self.mem_used <= self.memory_quota - extra
    }

    /// The request is consistent: right epoch, digest the canonical digest of
    /// the payload, byte count exact.
    pub open spec fn request_valid(&self, request: PersistRequest) -> bool {
        &&& request.info.epoch == self.spec_epoch()
        &&& request.info.digest == digest_of(
            self.spec_epoch(),
            request.info.author,
            request.info.batch_id,
            payload_view(request.payload@),
        )
        &&& request.info.num_bytes == total_bytes(payload_view(request.payload@))
    }

    /// Persist a completed batch: verify the digest against the payload,
    /// enforce the durable quota, evict in-memory payloads if needed, store,
    /// and sign the metadata. A batch already stored under the same digest is
    /// not stored twice; its stored metadata is signed instead.
    #[verifier::rlimit(100)]
    pub fn persist(&mut self, request: PersistRequest) -> (r: Result<SignedDigest, PersistError>)
        requires
            old(self).wf(),
        ensures
            final(self).wf(),
            final(self).same_config(old(self)),
            final(self).spec_last_committed_round() == old(self).spec_last_committed_round(),
            final(self).agg_entries() == old(self).agg_entries(),
            r == Err::<SignedDigest, PersistError>(PersistError::WrongEpoch) <==> request.info.epoch
                != old(self).spec_epoch(),
            r == Err::<SignedDigest, PersistError>(PersistError::DigestMismatch) <==> request.info.epoch
                == old(self).spec_epoch() && !old(self).request_valid(request),
            r == Err::<SignedDigest, PersistError>(PersistError::QuotaExceeded) <==> old(self).request_valid(request) && old(self).stored(request.info.digest) is None && old(self).spec_db_used() + request.info.num_bytes > old(self).spec_db_quota(),
            r is Err ==> *final(self) == *old(self),
            old(self).spec_mem_used() + request.info.num_bytes <= old(self).spec_memory_quota()
                ==> forall|d: u64|
                d != request.info.digest ==> final(self).stored(d) == old(self).stored(d),
            eviction_ordered(*old(self), *final(self), Some(request.info.digest)),
            r matches Ok(sd) ==> {
                &&& sd.signer == old(self).spec_my_peer_id()
                &&& sd.signature == signature_of(old(self).spec_my_peer_id(), sd.info)
                &&& final(self).stored(request.info.digest) matches Some(b) && b.info == sd.info
                &&& sd.info.digest == request.info.digest
                &&& (old(self).stored(request.info.digest) is None && !final(self).stored(
                    request.info.digest,
                )->Some_0.in_memory ==> final(self).spec_mem_used() + request.info.num_bytes
                    > final(self).spec_memory_quota())
                &&& (old(self).stored(request.info.digest) is None && final(self).stored(
                    request.info.digest,
                )->Some_0.in_memory ==> final(self).spec_mem_used() >= request.info.num_bytes)
                &&& (old(self).stored(request.info.digest) is None ==> sd.info == request.info
                    && payload_view(
                    final(self).stored(request.info.digest)->Some_0.payload@,
                ) == payload_view(request.payload@))
                &&& (old(self).stored(request.info.digest) matches Some(b0) ==> *final(self)
                    == *old(self) && sd.info == b0.info)
            },
            forall|d: u64|
                #![trigger old(self).stored(d)]
                d != request.info.digest ==> match old(self).stored(d) {
                    Some(b) => final(self).stored(d) matches Some(b2) && b2.info == b.info
                        && payload_view(b2.payload@) == payload_view(b.payload@) && (b2.in_memory
                        ==> b.in_memory),
                    None => final(self).stored(d) is None,
                },
    {
        if request.info.epoch != self.epoch {
            proof {
                reveal(eviction_ordered);
            }
            return Err(PersistError::WrongEpoch);
        }
        let d = request.info.digest;
        let (digest, num_bytes) = match compute_digest(
            self.epoch,
            request.info.author,
            request.info.batch_id,
            &request.payload,
        ) {
            Some(pair) => pair,
            None => {
                proof {
                    reveal(eviction_ordered);
                }
                return Err(PersistError::DigestMismatch);
            },
        };
        if digest != d || num_bytes != request.info.num_bytes {
            proof {
                reveal(eviction_ordered);
            }
            return Err(PersistError::DigestMismatch);
        }
        match self.batches.find_index(d) {
            Some(i) => {
                let info = self.batches.at(i).1.info;
                proof {
                    lemma_find_present(self.batches.entries(), i as int);
                    reveal(eviction_ordered);
                }
                return Ok(self.signer.sign(&info));
            },
            None => {},
        }
        if num_bytes > self.db_quota - self.db_used {
            proof {
                reveal(eviction_ordered);
            }
            return Err(PersistError::QuotaExceeded);
        }
        let in_memory = self.make_room(num_bytes);
        let ghost mr_post = *self;
        let b = StoredBatch { info: request.info, payload: request.payload, in_memory };
        let ghost s1 = self.batches.entries();
        self.batches.insert_new(d, b);
        proof {
            lemma_sum_by_push(s1, (d, b), mem_cost());
            lemma_sum_by_push(s1, (d, b), db_cost());
            lemma_sum_by_nonneg(s1, mem_cost());
            assert(forall|a: int| 0 <= a < s1.len() ==> self.batches.entries()[a] == s1[a]);
            assert(self.batches.entries().last() == (d, b));
        }
        self.db_used = self.db_used + num_bytes;
        if in_memory {
            self.mem_used = self.mem_used + num_bytes;
        }
        proof {
            reveal(eviction_ordered);
            assert(eviction_ordered(*old(self), mr_post, None));
            assert forall|d1: u64, d2: u64|
                Some(d1) != Some(d) && Some(d2) != Some(d) && old(self).stored(d1) is Some && old(self).stored(d1)->Some_0.in_memory && self.stored(d1) is Some && !self.stored(
                    d1,
                )->Some_0.in_memory && self.stored(d2) is Some && self.stored(
                    d2,
                )->Some_0.in_memory implies old(self).stored(d1)->Some_0.info.expiry.round
                <= self.stored(d2)->Some_0.info.expiry.round by {
                assert(self.stored(d1) == mr_post.stored(d1));
                assert(self.stored(d2) == mr_post.stored(d2));
            }
        }
        Ok(self.signer.sign(&request.info))
    }

    /// Evict every batch whose retention deadline lies before the committed
    /// round, from memory and from the durable copy alike. Idempotent.
    pub fn clean(&mut self, committed_round: u64)
        requires
            old(self).wf(),
        ensures
            final(self).wf(),
            final(self).same_config(old(self)),
            final(self).spec_last_committed_round() == committed_round,
            final(self).agg_entries() == old(self).agg_entries(),
            forall|d: u64|
                final(self).stored(d) == match old(self).stored(d) {
                    Some(b) => if expired(b.info, old(self).spec_grace(), committed_round) {
                        None
                    } else {
                        Some(b)
                    },
                    None => None::<StoredBatch>,
                },
            final(self).spec_mem_used() <= old(self).spec_mem_used(),
            final(self).spec_db_used() <= old(self).spec_db_used(),
            final(self).spec_mem_used() == sum_by(final(self).spec_entries(), mem_cost()),
            final(self).spec_db_used() == sum_by(final(self).spec_entries(), db_cost()),
            (forall|d: u64| final(self).stored(d) is None) ==> final(self).spec_mem_used() == 0
                && final(self).spec_db_used() == 0,
    {
        let grace = self.batch_expiry_grace_rounds;
        let ghost gpre = *self;
        let mut rest = self.batches.take_all();
        let ghost all0 = rest@;
        let mut kept: Table<StoredBatch> = Table::new();
        let mut new_mem: u64 = 0;
        let mut new_db: u64 = 0;
        proof {
            assert(all0.skip(all0.len() as int) =~= Seq::<(u64, StoredBatch)>::empty());
            assert(all0.take(all0.len() as int) =~= all0);
        }
        while rest.len() > 0
            invariant
                kept.wf(),
                gpre.wf(),
                grace == gpre.spec_grace(),
                all0 == gpre.batches.entries(),
                crate::table::distinct_keys(all0),
                rest@ == all0.take(rest@.len() as int),
                rest@.len() <= all0.len(),
                forall|i: int|
                    0 <= i < all0.len() ==> (#[trigger] all0[i]).0 == all0[i].1.info.digest
                        && entry_ok(gpre.spec_epoch(), all0[i].1),
                forall|i: int|
                    0 <= i < kept.entries().len() ==> (#[trigger] kept.entries()[i]).0
                        == kept.entries()[i].1.info.digest && entry_ok(
                        gpre.spec_epoch(),
                        kept.entries()[i].1,
                    ),
                forall|k: u64|
                    kept.find(k) == match spec_find(all0.skip(rest@.len() as int), k) {
                        Some(b) => if expired(b.info, grace, committed_round) {
                            None
                        } else {
                            Some(b)
                        },
                        None => None::<StoredBatch>,
                    },
                new_mem == sum_by(kept.entries(), mem_cost()),
                new_db == sum_by(kept.entries(), db_cost()),
                new_db + sum_by(rest@, db_cost()) <= sum_by(all0, db_cost()),
                new_mem + sum_by(rest@, mem_cost()) <= sum_by(all0, mem_cost()),
            decreases rest@.len(),
        {
            let e = match rest.pop() {
                Some(e) => e,
                None => vstd::pervasive::unreached(),
            };
            let ghost t = rest@.len() as int;
            proof {
                assert(all0.take(t + 1).drop_last() =~= all0.take(t));
                assert(all0.take(t + 1).last() == all0[t]);
                assert(e == all0[t]);
                assert(all0.skip(t) =~= seq![all0[t]] + all0.skip(t + 1));
                lemma_find_cons(all0[t], all0.skip(t + 1));
                assert(forall|a: int|
                    0 <= a < all0.skip(t + 1).len() ==> #[trigger] all0.skip(t + 1)[a] == all0[t
                        + 1 + a]);
                lemma_find_absent(all0.skip(t + 1), e.0);
                lemma_sum_by_nonneg(rest@, mem_cost());
                lemma_sum_by_nonneg(rest@, db_cost());
                lemma_sum_by_nonneg(kept.entries(), mem_cost());
                lemma_sum_by_nonneg(kept.entries(), db_cost());
            }
            let (k, b) = e;
            let is_expired = (b.info.expiry.round as u128 + grace as u128) < (
            committed_round as u128);
            if !is_expired {
                let ghost s1 = kept.entries();
                let bytes = b.info.num_bytes;
                let cached = b.in_memory;
                kept.insert_new(k, b);
                proof {
                    lemma_sum_by_push(s1, (k, b), mem_cost());
                    lemma_sum_by_push(s1, (k, b), db_cost());
                }
                if cached {
                    new_mem = new_mem + bytes;
                }
                new_db = new_db + bytes;
            }
        }
        proof {
            assert(all0.skip(0) =~= all0);
            lemma_sum_by_nonneg(kept.entries(), mem_cost());
            lemma_sum_by_nonneg(kept.entries(), db_cost());
            if kept.entries().len() > 0 {
                lemma_find_present(kept.entries(), 0);
            }
        }
        self.batches = kept;
        self.mem_used = new_mem;
        self.db_used = new_db;
        self.last_committed_round = committed_round;
        proof {
            if self.batches.entries().len() > 0 {
                assert(self.stored(self.batches.entries()[0].0) is Some);
            }
        }
    }

    /// Ingest one peer fragment: aggregate per author; a newer batch id
    /// replaces the in-progress batch; the final fragment completes the
    /// batch, persists it, and signs its metadata for the author. Failures
    /// drop the author's in-progress batch silently.
    #[verifier::rlimit(100)]
    pub fn handle_fragment(&mut self, fragment: Fragment) -> (r: FragmentOutcome)
        requires
            old(self).wf(),
        ensures
            final(self).wf(),
            final(self).same_config(old(self)),
            final(self).spec_last_committed_round() == old(self).spec_last_committed_round(),
            fragment.epoch != old(self).spec_epoch() ==> r == FragmentOutcome::Ignored
                && *final(self) == *old(self),
            ({
                let a0 = old(self).agg_for(fragment.author);
                let inc = payload_view(fragment.payload@);
                let ok = fragment_accepted(a0, fragment.batch_id, fragment.fragment_id)
                    && total_bytes(pre_acc(a0, fragment.batch_id)) + total_bytes(inc) <= old(self).spec_max_batch_bytes();
                let assembled = pre_acc(a0, fragment.batch_id) + inc;
                let dg = digest_of(
                    old(self).spec_epoch(),
                    fragment.author,
                    fragment.batch_id,
                    assembled,
                );
                fragment.epoch == old(self).spec_epoch() ==> {
                    &&& (r == FragmentOutcome::Appended <==> ok && fragment.maybe_expiry is None)
                    &&& ((r is Stored || r is Refused) <==> ok && fragment.maybe_expiry is Some)
                    &&& (!ok ==> r == FragmentOutcome::Ignored)
                    &&& (r is Stored <==> ok && fragment.maybe_expiry is Some && (old(self).stored(
                        dg,
                    ) is Some || old(self).spec_db_used() + total_bytes(assembled) <= old(self).spec_db_quota()))
                    &&& (r matches FragmentOutcome::Refused(e) ==> e == PersistError::QuotaExceeded
                        && old(self).stored(dg) is None)
                    &&& (r matches FragmentOutcome::Stored(sd) ==> sd.info.digest == dg)
                    &&& (r == FragmentOutcome::Appended ==> (final(self).agg_for(fragment.author)
                        matches Some(a2) && a2.current_batch_id() == Some(fragment.batch_id)
                        && a2.next_fragment_id() == fragment.fragment_id + 1 && a2.acc_txns()
                        == assembled))
                    &&& ((r is Stored || r is Refused) ==> (final(self).agg_for(fragment.author)
                        matches Some(a2) && a2.current_batch_id() is None && a2.acc_txns()
                        == Seq::<Seq<u8>>::empty() && a2.is_dead(fragment.batch_id)))
                    &&& (fragment_wrong_batch(a0, fragment.batch_id) ==> final(self).agg_for(
                        fragment.author,
                    ) == a0)
                    &&& (!ok && !fragment_wrong_batch(a0, fragment.batch_id) ==> (final(self).agg_for(fragment.author) matches Some(a2) && a2.current_batch_id() is None
                        && a2.acc_txns() == Seq::<Seq<u8>>::empty() && a2.is_dead(
                        fragment.batch_id,
                    )))
                }
            }),
            forall|a: u64|
                a != fragment.author ==> final(self).agg_for(a) == old(self).agg_for(a),
            r matches FragmentOutcome::Stored(sd) ==> {
                &&& sd.signer == old(self).spec_my_peer_id()
                &&& sd.signature == signature_of(old(self).spec_my_peer_id(), sd.info)
                &&& final(self).stored(sd.info.digest) matches Some(b) && b.info == sd.info
                &&& (old(self).stored(sd.info.digest) is None ==> sd.info.author
                    == fragment.author && sd.info.batch_id == fragment.batch_id && Some(
                    sd.info.expiry,
                ) == fragment.maybe_expiry)
            },
            forall|d: u64|
                #![trigger old(self).stored(d)]
                old(self).stored(d) matches Some(b) ==> final(self).stored(d) matches Some(b2)
                    && b2.info == b.info && payload_view(b2.payload@) == payload_view(b.payload@),
            forall|d: u64|
                #![trigger final(self).stored(d)]
                old(self).stored(d) is None && final(self).stored(d) is Some ==> (r matches
                    FragmentOutcome::Stored(sd) && sd.info.digest == d),
    {
        if fragment.epoch != self.epoch {
            return FragmentOutcome::Ignored;
        }
        let author = fragment.author;
        let ghost apre = self.aggregators.entries();
        let mut agg = match self.aggregators.remove_entry(author) {
            Some(a) => a,
            None => BatchAggregator::new(self.epoch, author, self.max_batch_bytes),
        };
        proof {
            if spec_find(apre, author) is Some {
                let i = choose|i: int|
                    0 <= i < apre.len() && apre[i].0 == author && self.aggregators.entries()
                        == apre.remove(i);
                assert(forall|a: int|
                    0 <= a < i ==> self.aggregators.entries()[a] == apre[a]);
                assert(forall|a: int|
                    i <= a < self.aggregators.entries().len() ==> self.aggregators.entries()[a]
                        == apre[a + 1]);
                crate::table::lemma_find_index(apre, author);
            }
        }
        let needs_reset = match agg.current_id() {
            Some(cur) => fragment.batch_id > cur,
            None => false,
        };
        if needs_reset {
            agg.reset();
        }
        let mut pending: Option<PersistRequest> = None;
        let outcome = match fragment.maybe_expiry {
            None => {
                match agg.append_transactions(
                    fragment.batch_id,
                    fragment.fragment_id,
                    fragment.payload,
                ) {
                    Ok(()) => FragmentOutcome::Appended,
                    Err(_) => FragmentOutcome::Ignored,
                }
            },
            Some(expiry) => {
                match agg.end_batch(fragment.batch_id, fragment.fragment_id, fragment.payload) {
                    Err(_) => FragmentOutcome::Ignored,
                    Ok((num_bytes, payload, digest)) => {
                        let info = BatchInfo {
                            epoch: self.epoch,
                            author,
                            batch_id: fragment.batch_id,
                            digest,
                            expiry,
                            num_bytes,
                        };
                        pending = Some(PersistRequest { info, payload });
                        FragmentOutcome::Ignored
                    },
                }
            },
        };
        let ghost a1 = self.aggregators.entries();
        self.aggregators.insert_new(author, agg);
        proof {
            assert(forall|a: int|
                0 <= a < a1.len() ==> self.aggregators.entries()[a] == a1[a]);
            assert(self.aggregators.entries().last() == (author, agg));
        }
        match pending {
            None => outcome,
            Some(request) => {
                let ghost prep = *self;
                let ghost req = request;
                let r2 = match self.persist(request) {
                    Ok(sd) => FragmentOutcome::Stored(sd),
                    Err(e) => FragmentOutcome::Refused(e),
                };
                proof {
                    assert forall|d: u64| #![trigger old(self).stored(d)]
                        old(self).stored(d) is Some implies (self.stored(d) is Some && self.stored(
                        d,
                    )->Some_0.info == old(self).stored(d)->Some_0.info && payload_view(
                        self.stored(d)->Some_0.payload@,
                    ) == payload_view(old(self).stored(d)->Some_0.payload@)) by {
                        assert(prep.stored(d) == old(self).stored(d));
                    }
                    assert forall|d: u64| #![trigger self.stored(d)]
                        old(self).stored(d) is None && self.stored(d) is Some implies (r2 matches
                        FragmentOutcome::Stored(sd) && sd.info.digest == d) by {
                        assert(prep.stored(d) == old(self).stored(d));
                        if d != req.info.digest {
                            assert(self.stored(d) == prep.stored(d));
                        }
                    }
                }
                r2
            },
        }
    }
}

} // verus!
