//! The top-level worker of one validator in one epoch. It feeds locally
//! authored fragments to its aggregator and hands them out for broadcast; on
//! end of batch it produces the persist request and withholds the final
//! fragment until the local self-signature returns, so that no peer can see
//! the terminating fragment before its author has persisted the batch.

use vstd::prelude::*;
use crate::batch_aggregator::BatchAggregator;
use crate::batch_reader::BatchReader;
use crate::batch_store::BatchStore;
use crate::digest::{digest_of, total_bytes};
use crate::network_listener::NetworkListener;
use crate::proof_builder::ProofBuilder;
use crate::table::Table;
use crate::types::{
    copy_payload, payload_view, BatchId, BatchInfo, Fragment, LogicalTime, PeerId, PersistRequest,
    SerializedTransaction, SignedDigest,
};
use crate::validator_verifier::{distinct_peers, sum_power, ValidatorInfo, ValidatorVerifier};

verus! {

/// How many further fetch rounds a failed batch fetch may try.
pub const FETCH_RETRY_ROUNDS: u64 = 1;

/// The knobs of the quorum store.
#[derive(Clone)]
pub struct QuorumStoreConfig {
    pub channel_size: usize,
    pub proof_timeout_ms: usize,
    pub batch_request_num_peers: usize,
    pub end_batch_ms: u128,
    pub max_batch_bytes: u64,
    pub batch_request_timeout_ms: usize,
    /// Batches may have expiry up to this many rounds after the latest
    /// committed round.
    pub max_batch_expiry_round_gap: u64,
    /// Extra rounds a batch is retained past expiry so peers that fall
    /// behind can still fetch it.
    pub batch_expiry_grace_rounds: u64,
    pub max_batch_size: usize,
    pub memory_quota: usize,
    pub db_quota: usize,
    pub mempool_txn_pull_max_count: u64,
}

/// A command from the ordering layer.
#[derive(Debug)]
pub enum QuorumStoreCommand {
    AppendToBatch(Vec<SerializedTransaction>, BatchId),
    EndBatch(Vec<SerializedTransaction>, BatchId, LogicalTime),
    Shutdown,
}

/// The worker for locally authored batches.
pub struct QuorumStore {
    epoch: u64,
    my_peer_id: PeerId,
    fragment_id: u64,
    batch_aggregator: BatchAggregator,
    digest_end_batch: Table<Fragment>,
}

impl QuorumStore {
    pub closed spec fn spec_epoch(&self) -> u64 {
        self.epoch
    }

    pub closed spec fn spec_my_peer_id(&self) -> PeerId {
        self.my_peer_id
    }

    /// The id the next locally authored fragment will carry.
    pub closed spec fn spec_fragment_id(&self) -> u64 {
        self.fragment_id
    }

    /// The worker's own aggregator.
    pub closed spec fn spec_aggregator(&self) -> BatchAggregator {
        self.batch_aggregator
    }

    /// The withheld final fragment for a completed batch, if any.
    pub closed spec fn stashed(&self, digest: u64) -> Option<Fragment> {
        self.digest_end_batch.find(digest)
    }

    pub closed spec fn wf(&self) -> bool {
        &&& self.batch_aggregator.wf()
        &&& self.batch_aggregator.epoch() == self.epoch
        &&& self.batch_aggregator.author() == self.my_peer_id
        &&& self.digest_end_batch.wf()
    }

    /// Build the worker of one epoch together with the components it drives:
    /// the batch store, the proof builder, the batch reader, and the network
    /// listener, all configured from one place.
    pub fn new(
        epoch: u64,
        last_committed_round: u64,
        my_peer_id: PeerId,
        config: &QuorumStoreConfig,
        validators: Vec<ValidatorInfo>,
    ) -> (r: (QuorumStore, BatchStore, ProofBuilder, BatchReader, NetworkListener))
        requires
            distinct_peers(validators@),
            sum_power(validators@) <= u64::MAX,
        ensures
            r.0.wf(),
            r.0.spec_epoch() == epoch,
            r.0.spec_my_peer_id() == my_peer_id,
            r.0.spec_fragment_id() == 0,
            forall|d: u64| r.0.stashed(d) is None,
            r.0.spec_aggregator().current_batch_id() is None,
            r.0.spec_aggregator().dead_bound() is None,
            r.0.spec_aggregator().max_bytes() == config.max_batch_size,
            r.1.wf(),
            r.1.spec_epoch() == epoch,
            r.1.spec_my_peer_id() == my_peer_id,
            r.1.spec_last_committed_round() == last_committed_round,
            r.1.spec_memory_quota() == config.memory_quota,
            r.1.spec_db_quota() == config.db_quota,
            r.1.spec_grace() == config.batch_expiry_grace_rounds,
            forall|d: u64| r.1.stored(d) is None,
            r.2.wf(),
            r.2.spec_verifier().spec_validators() == validators@,
            r.2.spec_timeout_ms() == config.proof_timeout_ms,
            forall|d: u64| !r.2.tracks(d),
            r.3.wf(),
            r.3.spec_my_peer_id() == my_peer_id,
            r.3.spec_num_peers_per_round() == config.batch_request_num_peers,
            forall|d: u64| r.3.waiter_for(d) is None,
            r.4.spec_epoch() == epoch,
    {
        let mut peer_ids: Vec<PeerId> = Vec::new();
        let mut i: usize = 0;
        while i < validators.len()
            invariant
                i <= validators@.len(),
                peer_ids@.len() == i,
                forall|a: int| 0 <= a < i ==> peer_ids@[a] == validators@[a].peer,
                distinct_peers(validators@),
            decreases validators@.len() - i,
        {
            peer_ids.push(validators[i].peer);
            i = i + 1;
        }
        proof {
            assert(crate::batch_reader::distinct_peer_ids(peer_ids@));
        }
        let store = BatchStore::new(
            epoch,
            last_committed_round,
            my_peer_id,
            config.max_batch_size as u64,
            config.memory_quota as u64,
            config.db_quota as u64,
            config.batch_expiry_grace_rounds,
        );
        let verifier = ValidatorVerifier::new(validators);
        let builder = ProofBuilder::new(config.proof_timeout_ms as u64, verifier);
        let reader = BatchReader::new(
            my_peer_id,
            peer_ids,
            config.batch_request_num_peers,
            config.batch_request_timeout_ms as u64,
            FETCH_RETRY_ROUNDS,
        );
        let listener = NetworkListener::new(epoch);
        let worker = QuorumStore {
            epoch,
            my_peer_id,
            fragment_id: 0,
            batch_aggregator: BatchAggregator::new(epoch, my_peer_id, config.max_batch_size as u64),
            digest_end_batch: Table::new(),
        };
        (worker, store, builder, reader, listener)
    }

    /// Aggregate one locally authored fragment and hand back the message to
    /// broadcast. Aggregation of own fragments must not fail, so the inputs
    /// are constrained to what the aggregator accepts.
    pub fn handle_append_to_batch(
        &mut self,
        fragment_payload: Vec<SerializedTransaction>,
        batch_id: BatchId,
    ) -> (r: Fragment)
        requires
            old(self).wf(),
            old(self).spec_aggregator().accepts(batch_id, old(self).spec_fragment_id()),
            old(self).spec_aggregator().fits(total_bytes(payload_view(fragment_payload@))),
        ensures
            final(self).wf(),
            final(self).spec_epoch() == old(self).spec_epoch(),
            final(self).spec_my_peer_id() == old(self).spec_my_peer_id(),
            r.epoch == old(self).spec_epoch(),
            r.batch_id == batch_id,
            r.fragment_id == old(self).spec_fragment_id(),
            r.author == old(self).spec_my_peer_id(),
            r.maybe_expiry is None,
            payload_view(r.payload@) == payload_view(fragment_payload@),
            final(self).spec_fragment_id() == old(self).spec_fragment_id() + 1,
            final(self).spec_aggregator().acc_txns() == old(self).spec_aggregator().acc_txns()
                + payload_view(fragment_payload@),
            final(self).spec_aggregator().current_batch_id() == Some(batch_id),
            final(self).spec_aggregator().next_fragment_id() == old(self).spec_fragment_id() + 1,
            final(self).spec_aggregator().dead_bound() == old(self).spec_aggregator().dead_bound(),
            final(self).spec_aggregator().max_bytes() == old(self).spec_aggregator().max_bytes(),
            forall|d: u64| final(self).stashed(d) == old(self).stashed(d),
    {
        let wire_payload = copy_payload(&fragment_payload);
        match self.batch_aggregator.append_transactions(
            batch_id,
            self.fragment_id,
            fragment_payload,
        ) {
            Ok(()) => {},
            Err(_) => {
                vstd::pervasive::unreached::<()>();
            },
        }
        let fragment = Fragment::new(
            self.epoch,
            batch_id,
            self.fragment_id,
            wire_payload,
            None,
            self.my_peer_id,
        );
        self.fragment_id = self.fragment_id + 1;
        fragment
    }

    /// Finalize the local batch: compute its digest, stash the terminating
    /// fragment until the self-signature returns, reset the fragment counter,
    /// and hand back the persist request. The request's digest is the
    /// canonical digest of the assembled payload.
    pub fn handle_end_batch(
        &mut self,
        fragment_payload: Vec<SerializedTransaction>,
        batch_id: BatchId,
        expiration: LogicalTime,
    ) -> (r: PersistRequest)
        requires
            old(self).wf(),
            old(self).spec_aggregator().accepts(batch_id, old(self).spec_fragment_id()),
            old(self).spec_aggregator().fits(total_bytes(payload_view(fragment_payload@))),
        ensures
            final(self).wf(),
            final(self).spec_epoch() == old(self).spec_epoch(),
            final(self).spec_my_peer_id() == old(self).spec_my_peer_id(),
            final(self).spec_fragment_id() == 0,
            final(self).spec_aggregator().current_batch_id() is None,
            final(self).spec_aggregator().acc_txns() == Seq::<Seq<u8>>::empty(),
            final(self).spec_aggregator().dead_bound() == Some(batch_id),
            final(self).spec_aggregator().max_bytes() == old(self).spec_aggregator().max_bytes(),
            r.info.epoch == old(self).spec_epoch(),
            r.info.author == old(self).spec_my_peer_id(),
            r.info.batch_id == batch_id,
            r.info.expiry == expiration,
            payload_view(r.payload@) == old(self).spec_aggregator().acc_txns() + payload_view(
                fragment_payload@,
            ),
            r.info.digest == digest_of(
                old(self).spec_epoch(),
                old(self).spec_my_peer_id(),
                batch_id,
                payload_view(r.payload@),
            ),
            r.info.num_bytes == total_bytes(payload_view(r.payload@)),
            final(self).stashed(r.info.digest) matches Some(f) && f.epoch == old(
                self,
            ).spec_epoch() && f.batch_id == batch_id && f.fragment_id == old(
                self,
            ).spec_fragment_id() && f.author == old(self).spec_my_peer_id() && f.maybe_expiry
                == Some(expiration) && payload_view(f.payload@) == payload_view(fragment_payload@),
            forall|d: u64|
                d != r.info.digest ==> final(self).stashed(d) == old(self).stashed(d),
    {
        let wire_payload = copy_payload(&fragment_payload);
        let (num_bytes, payload, digest) = match self.batch_aggregator.end_batch(
            batch_id,
            self.fragment_id,
            fragment_payload,
        ) {
            Ok(triple) => triple,
            Err(_) => vstd::pervasive::unreached(),
        };
        let info = BatchInfo {
            epoch: self.epoch,
            author: self.my_peer_id,
            batch_id,
            digest,
            expiry: expiration,
            num_bytes,
        };
        let fragment = Fragment::new(
            self.epoch,
            batch_id,
            self.fragment_id,
            wire_payload,
            Some(expiration),
            self.my_peer_id,
        );
        let _ = self.digest_end_batch.remove_entry(digest);
        self.digest_end_batch.insert_new(digest, fragment);
        self.fragment_id = 0;
        PersistRequest::new(info, payload)
    }

    /// The local self-signature for a persisted batch came back: hand out the
    /// withheld terminating fragment for broadcast, now that the batch is
    /// durably stored. `None` when no batch with this digest is pending.
    pub fn handle_self_signed(&mut self, signed_digest: &SignedDigest) -> (r: Option<Fragment>)
        requires
            old(self).wf(),
        ensures
            final(self).wf(),
            final(self).spec_epoch() == old(self).spec_epoch(),
            final(self).spec_my_peer_id() == old(self).spec_my_peer_id(),
            final(self).spec_fragment_id() == old(self).spec_fragment_id(),
            r == old(self).stashed(signed_digest.info.digest),
            final(self).stashed(signed_digest.info.digest) is None,
            forall|d: u64|
                d != signed_digest.info.digest ==> final(self).stashed(d) == old(self).stashed(d),
    {
        self.digest_end_batch.remove_entry(signed_digest.info.digest)
    }
}

} // verus!
