//! Streams the fragments of one in-progress batch per author. The aggregator
//! holds the state of at most one batch at a time: the batch id, the next
//! expected fragment id, the accumulated payload and its byte count, and the
//! rolling hash state. Failures drop the in-progress batch; fragments of a
//! dropped or completed batch id are then ignored until a later id appears.

use vstd::prelude::*;
use crate::digest::{
    digest_of, hash_txns_from, lemma_hash_txns_push, lemma_total_bytes_concat,
    lemma_total_bytes_nonneg, total_bytes, DigestHasher, HASH_INIT,
};
use crate::types::{payload_view, BatchId, PeerId, SerializedTransaction};

verus! {

/// Why a fragment was not ingested.
#[derive(Clone, Copy, PartialEq, Eq, Structural, Debug)]
pub enum BatchAggregationError {
    /// The fragment id is not the next expected one.
    OutOfOrder,
    /// The fragment belongs to a stale, dropped or completed batch.
    WrongBatch,
    /// Ingesting the fragment would push the payload over the byte budget.
    SizeExceeded,
}

struct IncrementalBatchState {
    batch_id: BatchId,
    next_fragment_id: u64,
    num_bytes: u64,
    payload: Vec<SerializedTransaction>,
    hasher: DigestHasher,
}

/// Aggregation state of one author: at most one batch in progress at a time.
pub struct BatchAggregator {
    epoch: u64,
    author: PeerId,
    max_bytes: u64,
    state: Option<IncrementalBatchState>,
    /// Batch ids at or below this one are dead: dropped or completed.
    dead_below: Option<BatchId>,
}

impl BatchAggregator {
    pub closed spec fn epoch(&self) -> u64 {
        self.epoch
    }

    pub closed spec fn author(&self) -> PeerId {
        self.author
    }

    pub closed spec fn max_bytes(&self) -> u64 {
        self.max_bytes
    }

    /// The id of the batch in progress, if one is.
    pub closed spec fn current_batch_id(&self) -> Option<BatchId> {
        match self.state {
            Some(st) => Some(st.batch_id),
            None => None,
        }
    }

    /// The fragment id the in-progress batch expects next.
    pub closed spec fn next_fragment_id(&self) -> u64 {
        self.state->Some_0.next_fragment_id
    }

    /// The transactions accumulated for the in-progress batch.
    pub closed spec fn acc_txns(&self) -> Seq<Seq<u8>> {
        match self.state {
            Some(st) => payload_view(st.payload@),
            None => Seq::empty(),
        }
    }

    /// Highest dead batch id, if any: fragments at or below it are ignored.
    pub closed spec fn dead_bound(&self) -> Option<BatchId> {
        self.dead_below
    }

    /// This batch id is dead: a batch with it was dropped or completed.
    pub open spec fn is_dead(&self, batch_id: BatchId) -> bool {
        match self.dead_bound() {
            Some(bound) => batch_id <= bound,
            None => false,
        }
    }

    /// A fragment with these coordinates would be ingested (size permitting).
    pub open spec fn accepts(&self, batch_id: BatchId, fragment_id: u64) -> bool {
        match self.current_batch_id() {
            Some(cur) => batch_id == cur && fragment_id == self.next_fragment_id() && fragment_id
                < u64::MAX,
            None => !self.is_dead(batch_id) && fragment_id == 0,
        }
    }

    /// The accumulated payload plus `extra` bytes stays within the budget.
    pub open spec fn fits(&self, extra: int) -> bool {
        total_bytes(self.acc_txns()) + extra <= self.max_bytes()
    }

    pub closed spec fn wf(&self) -> bool {
        &&& match self.state {
            Some(st) => {
                &&& st.hasher@ == hash_txns_from(HASH_INIT, payload_view(st.payload@))
                &&& st.num_bytes == total_bytes(payload_view(st.payload@))
                &&& st.num_bytes <= self.max_bytes
                &&& match self.dead_below {
                    Some(bound) => bound < st.batch_id,
                    None => true,
                }
            },
            None => true,
        }
    }

    /// The aggregator holds fragments of exactly one batch at a time: idle
    /// means nothing is accumulated, and only the single in-progress batch id
    /// is accepted while one is current.
    pub proof fn lemma_single_batch(&self, other: BatchId, fragment_id: u64)
        ensures
            self.current_batch_id() is None ==> self.acc_txns() == Seq::<Seq<u8>>::empty(),
            self.current_batch_id() matches Some(cur) && other != cur ==> !self.accepts(
                other,
                fragment_id,
            ),
    {
    }

    pub fn new(epoch: u64, author: PeerId, max_bytes: u64) -> (r: BatchAggregator)
        ensures
            r.wf(),
            r.epoch() == epoch,
            r.author() == author,
            r.max_bytes() == max_bytes,
            r.current_batch_id() is None,
            r.dead_bound() is None,
            r.acc_txns() == Seq::<Seq<u8>>::empty(),
    {
        BatchAggregator { epoch, author, max_bytes, state: None, dead_below: None }
    }

    /// The id of the batch in progress, if one is.
    pub fn current_id(&self) -> (r: Option<BatchId>)
        ensures
            r == self.current_batch_id(),
    {
        match &self.state {
            Some(st) => Some(st.batch_id),
            None => None,
        }
    }

    /// Drop the in-progress batch, if any; its id becomes dead. Invoked when
    /// an incoming fragment signals a newer batch from the same author.
    pub fn reset(&mut self)
        requires
            old(self).wf(),
        ensures
            final(self).wf(),
            final(self).epoch() == old(self).epoch(),
            final(self).author() == old(self).author(),
            final(self).max_bytes() == old(self).max_bytes(),
            final(self).current_batch_id() is None,
            final(self).acc_txns() == Seq::<Seq<u8>>::empty(),
            final(self).dead_bound() == match old(self).current_batch_id() {
                Some(cur) => Some(cur),
                None => old(self).dead_bound(),
            },
    {
        match &self.state {
            Some(st) => {
                self.dead_below = Some(st.batch_id);
                self.state = None;
            },
            None => {},
        }
    }

    /// Ingest one fragment of a batch. Accepted only if the fragment belongs
    /// to the in-progress batch (or starts a new, non-dead one) and carries
    /// the next expected fragment id; the accumulated payload must stay
    /// within the byte budget. A rejected out-of-order or oversized fragment
    /// drops the in-progress batch; a fragment of a wrong batch changes
    /// nothing.
    pub fn append_transactions(
        &mut self,
        batch_id: BatchId,
        fragment_id: u64,
        payload: Vec<SerializedTransaction>,
    ) -> (r: Result<(), BatchAggregationError>)
        requires
            old(self).wf(),
        ensures
            final(self).wf(),
            final(self).epoch() == old(self).epoch(),
            final(self).author() == old(self).author(),
            final(self).max_bytes() == old(self).max_bytes(),
            r is Ok <==> old(self).accepts(batch_id, fragment_id) && old(self).fits(
                total_bytes(payload_view(payload@)),
            ),
            r is Ok ==> {
                &&& final(self).current_batch_id() == Some(batch_id)
                &&& final(self).next_fragment_id() == fragment_id + 1
                &&& final(self).acc_txns() == old(self).acc_txns() + payload_view(payload@)
                &&& final(self).dead_bound() == old(self).dead_bound()
            },
            r == Err::<(), BatchAggregationError>(BatchAggregationError::WrongBatch) <==> !old(self).batch_matches(batch_id),
            r == Err::<(), BatchAggregationError>(BatchAggregationError::WrongBatch) ==> *final(self) == *old(self),
            r == Err::<(), BatchAggregationError>(BatchAggregationError::OutOfOrder) <==> old(self).batch_matches(batch_id) && !old(self).accepts(batch_id, fragment_id),
            r == Err::<(), BatchAggregationError>(BatchAggregationError::SizeExceeded) <==> old(self).accepts(batch_id, fragment_id) && !old(self).fits(
                total_bytes(payload_view(payload@)),
            ),
            r is Err && !(r == Err::<(), BatchAggregationError>(
                BatchAggregationError::WrongBatch,
            )) ==> {
                &&& final(self).current_batch_id() is None
                &&& final(self).acc_txns() == Seq::<Seq<u8>>::empty()
                &&& final(self).dead_bound() == Some(batch_id)
            },
    {
        let mut cur: Option<IncrementalBatchState> = None;
        core::mem::swap(&mut cur, &mut self.state);
        let mut st: IncrementalBatchState = match cur {
            Some(st) => {
                if batch_id != st.batch_id {
                    self.state = Some(st);
                    return Err(BatchAggregationError::WrongBatch);
                }
                if fragment_id != st.next_fragment_id || fragment_id == u64::MAX {
                    self.dead_below = Some(batch_id);
                    return Err(BatchAggregationError::OutOfOrder);
                }
                st
            },
            None => {
                let dead = match self.dead_below {
                    Some(bound) => batch_id <= bound,
                    None => false,
                };
                if dead {
                    return Err(BatchAggregationError::WrongBatch);
                }
                if fragment_id != 0 {
                    self.dead_below = Some(batch_id);
                    return Err(BatchAggregationError::OutOfOrder);
                }
                IncrementalBatchState {
                    batch_id,
                    next_fragment_id: 0,
                    num_bytes: 0,
                    payload: Vec::new(),
                    hasher: DigestHasher::new(),
                }
            },
        };
        match crate::digest::bytes_within(&payload, st.num_bytes, self.max_bytes) {
            None => {
                self.dead_below = Some(batch_id);
                Err(BatchAggregationError::SizeExceeded)
            },
            Some(n) => {
                let ghost acc0 = payload_view(st.payload@);
                let ghost incoming = payload_view(payload@);
                let ghost bytes0 = st.num_bytes;
                let mut payload = payload;
                let mut i: usize = 0;
                while i < payload.len()
                    invariant
                        i <= payload@.len(),
                        incoming == payload_view(payload@),
                        st.hasher@ == hash_txns_from(HASH_INIT, acc0 + incoming.take(i as int)),
                        payload_view(st.payload@) == acc0,
                        st.batch_id == batch_id,
                        st.num_bytes == bytes0,
                    decreases payload@.len() - i,
                {
                    proof {
                        assert((acc0 + incoming.take(i as int)).push(payload@[i as int]@) =~= acc0
                            + incoming.take(i as int + 1));
                        lemma_hash_txns_push(
                            HASH_INIT,
                            acc0 + incoming.take(i as int),
                            payload@[i as int]@,
                        );
                    }
                    let tx_bytes = &payload[i].bytes;
                    st.hasher.update(tx_bytes);
                    i = i + 1;
                }
                proof {
                    assert(incoming.take(payload@.len() as int) =~= incoming);
                    lemma_total_bytes_concat(acc0, incoming);
                }
                st.payload.append(&mut payload);
                proof {
                    assert(payload_view(st.payload@) =~= acc0 + incoming);
                }
                st.num_bytes = st.num_bytes + n;
                st.next_fragment_id = fragment_id + 1;
                self.state = Some(st);
                Ok(())
            },
        }
    }

    /// The fragment's batch id matches the in-progress batch, or can start a
    /// new one.
    pub open spec fn batch_matches(&self, batch_id: BatchId) -> bool {
        match self.current_batch_id() {
            Some(cur) => batch_id == cur,
            None => !self.is_dead(batch_id),
        }
    }

    /// Ingest the final fragment and complete the batch: returns its total
    /// byte count, the assembled payload, and the canonical digest of that
    /// payload. The batch id becomes dead; the aggregator is idle again.
    pub fn end_batch(
        &mut self,
        batch_id: BatchId,
        fragment_id: u64,
        payload: Vec<SerializedTransaction>,
    ) -> (r: Result<(u64, Vec<SerializedTransaction>, u64), BatchAggregationError>)
        requires
            old(self).wf(),
        ensures
            final(self).wf(),
            final(self).epoch() == old(self).epoch(),
            final(self).author() == old(self).author(),
            final(self).max_bytes() == old(self).max_bytes(),
            r is Ok <==> old(self).accepts(batch_id, fragment_id) && old(self).fits(
                total_bytes(payload_view(payload@)),
            ),
            r matches Ok((num_bytes, assembled, digest)) ==> {
                &&& payload_view(assembled@) == old(self).acc_txns() + payload_view(payload@)
                &&& num_bytes == total_bytes(payload_view(assembled@))
                &&& digest == digest_of(
                    old(self).epoch(),
                    old(self).author(),
                    batch_id,
                    payload_view(assembled@),
                )
                &&& final(self).current_batch_id() is None
                &&& final(self).acc_txns() == Seq::<Seq<u8>>::empty()
                &&& final(self).dead_bound() == Some(batch_id)
            },
            r matches Err(e) ==> {
                &&& (e == BatchAggregationError::WrongBatch <==> !old(self).batch_matches(
                    batch_id,
                ))
                &&& (e == BatchAggregationError::WrongBatch ==> *final(self) == *old(self))
                &&& (e != BatchAggregationError::WrongBatch ==> final(self).current_batch_id()
                    is None && final(self).acc_txns() == Seq::<Seq<u8>>::empty()
                    && final(self).dead_bound() == Some(batch_id))
            },
    {
        let ghost pre = *self;
        match self.append_transactions(batch_id, fragment_id, payload) {
            Err(e) => Err(e),
            Ok(()) => {
                let mut done: Option<IncrementalBatchState> = None;
                core::mem::swap(&mut done, &mut self.state);
                let st: IncrementalBatchState = match done {
                    Some(st) => st,
                    None => vstd::pervasive::unreached(),
                };
                self.dead_below = Some(batch_id);
                proof {
                    lemma_total_bytes_nonneg(payload_view(st.payload@));
                    assert(total_bytes(payload_view(st.payload@)) % 0x1_0000_0000_0000_0000
                        == total_bytes(payload_view(st.payload@)));
                }
                let digest = st.hasher.finalize(self.epoch, self.author, batch_id, st.num_bytes);
                Ok((st.num_bytes, st.payload, digest))
            },
        }
    }
}

} // verus!
