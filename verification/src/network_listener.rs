//! Demultiplexes inbound peer messages. Network messages are a closed tagged
//! union; routing is by exhaustive case analysis. Any message whose epoch
//! differs from the current one is dropped without cost.

use vstd::prelude::*;
use crate::types::{Fragment, PeerId, ProofOfStore, SerializedTransaction, SignedDigest};

verus! {

/// A request for the payload of a batch held by a peer.
#[derive(Clone, Copy, PartialEq, Eq, Structural, Debug)]
pub struct BatchRequest {
    pub epoch: u64,
    pub digest: u64,
    pub requester: PeerId,
}

/// The payload of a batch, answering a request.
#[derive(Clone, Debug)]
pub struct BatchResponse {
    pub epoch: u64,
    pub digest: u64,
    pub payload: Vec<SerializedTransaction>,
}

/// The closed union of peer-to-peer messages.
#[derive(Clone, Debug)]
pub enum ConsensusMsg {
    FragmentMsg(Fragment),
    SignedDigestMsg(SignedDigest),
    ProofOfStoreMsg(ProofOfStore),
    BatchRequestMsg(BatchRequest),
    BatchResponseMsg(BatchResponse),
}

/// The epoch a message carries.
pub open spec fn msg_epoch(msg: ConsensusMsg) -> u64 {
    match msg {
        ConsensusMsg::FragmentMsg(f) => f.epoch,
        ConsensusMsg::SignedDigestMsg(sd) => sd.info.epoch,
        ConsensusMsg::ProofOfStoreMsg(pos) => pos.info.epoch,
        ConsensusMsg::BatchRequestMsg(br) => br.epoch,
        ConsensusMsg::BatchResponseMsg(br) => br.epoch,
    }
}

/// Where a message goes: fragments, payload requests and proofs of store to
/// the batch store; payload responses to the batch reader; signed digests to
/// the proof builder.
#[derive(Clone, Debug)]
pub enum Destination {
    StoreFragment(Fragment),
    StoreBatchRequest(BatchRequest),
    StoreProofOfStore(ProofOfStore),
    ReaderBatchResponse(BatchResponse),
    BuilderSignedDigest(SignedDigest),
}

/// Routes inbound messages of one epoch.
pub struct NetworkListener {
    epoch: u64,
}

impl NetworkListener {
    pub closed spec fn spec_epoch(&self) -> u64 {
        self.epoch
    }

    pub fn new(epoch: u64) -> (r: NetworkListener)
        ensures
            r.spec_epoch() == epoch,
    {
        NetworkListener { epoch }
    }

    /// Route one inbound message: `None` exactly for a mismatched epoch,
    /// otherwise the destination its kind determines.
    pub fn route(&self, msg: ConsensusMsg) -> (r: Option<Destination>)
        ensures
            r is None <==> msg_epoch(msg) != self.spec_epoch(),
            match msg {
                ConsensusMsg::FragmentMsg(f) => r is Some ==> r == Some(
                    Destination::StoreFragment(f),
                ),
                ConsensusMsg::SignedDigestMsg(sd) => r is Some ==> r == Some(
                    Destination::BuilderSignedDigest(sd),
                ),
                ConsensusMsg::ProofOfStoreMsg(pos) => r is Some ==> r == Some(
                    Destination::StoreProofOfStore(pos),
                ),
                ConsensusMsg::BatchRequestMsg(br) => r is Some ==> r == Some(
                    Destination::StoreBatchRequest(br),
                ),
                ConsensusMsg::BatchResponseMsg(br) => r is Some ==> r == Some(
                    Destination::ReaderBatchResponse(br),
                ),
            },
    {
        match msg {
            ConsensusMsg::FragmentMsg(f) => {
                if f.epoch == self.epoch {
                    Some(Destination::StoreFragment(f))
                } else {
                    None
                }
            },
            ConsensusMsg::SignedDigestMsg(sd) => {
                if sd.info.epoch == self.epoch {
                    Some(Destination::BuilderSignedDigest(sd))
                } else {
                    None
                }
            },
            ConsensusMsg::ProofOfStoreMsg(pos) => {
                if pos.info.epoch == self.epoch {
                    Some(Destination::StoreProofOfStore(pos))
                } else {
                    None
                }
            },
            ConsensusMsg::BatchRequestMsg(br) => {
                if br.epoch == self.epoch {
                    Some(Destination::StoreBatchRequest(br))
                } else {
                    None
                }
            },
            ConsensusMsg::BatchResponseMsg(br) => {
                if br.epoch == self.epoch {
                    Some(Destination::ReaderBatchResponse(br))
                } else {
                    None
                }
            },
        }
    }
}

} // verus!
