//! Plain data carried between the quorum-store components: consensus-time
//! coordinates, wire fragments, batch metadata, and the user-visible errors.

use vstd::prelude::*;
use crate::digest::digest_of;

verus! {

/// Identifier of a validator.
pub type PeerId = u64;

/// Monotonic counter identifying a batch within one originator and one epoch.
pub type BatchId = u64;

/// Consensus-time coordinate used as an expiry deadline.
#[derive(Clone, Copy, PartialEq, Eq, Structural, Debug)]
pub struct LogicalTime {
    pub epoch: u64,
    pub round: u64,
}

impl LogicalTime {
    pub fn new(epoch: u64, round: u64) -> (r: LogicalTime)
        ensures
            r.epoch == epoch,
            r.round == round,
    {
        LogicalTime { epoch, round }
    }
}

/// An opaque transaction blob: hashed and length-accounted, never interpreted.
#[derive(Clone, Debug)]
pub struct SerializedTransaction {
    pub bytes: Vec<u8>,
}

impl View for SerializedTransaction {
    type V = Seq<u8>;

    open spec fn view(&self) -> Seq<u8> {
        self.bytes@
    }
}

impl SerializedTransaction {
    pub fn new(bytes: Vec<u8>) -> (r: SerializedTransaction)
        ensures
            r@ == bytes@,
    {
        SerializedTransaction { bytes }
    }

    pub fn len(&self) -> (r: usize)
        ensures
            r == self@.len(),
    {
        self.bytes.len()
    }
}

/// The transactions of a payload, as the byte strings the digest is over.
pub open spec fn payload_view(payload: Seq<SerializedTransaction>) -> Seq<Seq<u8>> {
    payload.map_values(|t: SerializedTransaction| t@)
}

/// A fresh byte vector with the same contents.
pub fn copy_bytes(v: &Vec<u8>) -> (r: Vec<u8>)
    ensures
        r@ == v@,
{
    let mut out: Vec<u8> = Vec::new();
    let mut i: usize = 0;
    while i < v.len()
        invariant
            i <= v@.len(),
            out@ == v@.take(i as int),
        decreases v@.len() - i,
    {
        out.push(v[i]);
        proof {
            assert(out@ =~= v@.take(i as int + 1));
        }
        i = i + 1;
    }
    proof {
        assert(v@.take(v@.len() as int) =~= v@);
    }
    out
}

/// A fresh payload with the same transactions.
pub fn copy_payload(payload: &Vec<SerializedTransaction>) -> (r: Vec<SerializedTransaction>)
    ensures
        payload_view(r@) == payload_view(payload@),
        r@.len() == payload@.len(),
{
    let mut out: Vec<SerializedTransaction> = Vec::new();
    let mut i: usize = 0;
    while i < payload.len()
        invariant
            i <= payload@.len(),
            out@.len() == i,
            payload_view(out@) == payload_view(payload@).take(i as int),
        decreases payload@.len() - i,
    {
        let tx = SerializedTransaction { bytes: copy_bytes(&payload[i].bytes) };
        out.push(tx);
        proof {
            assert(payload_view(out@) =~= payload_view(payload@).take(i as int + 1));
        }
        i = i + 1;
    }
    proof {
        assert(payload_view(payload@).take(payload@.len() as int) =~= payload_view(payload@));
    }
    out
}

/// A chunk of a batch on the wire. Fragment ids start at 0 and increment by
/// one within a batch; only the final fragment carries `Some` expiry.
#[derive(Clone, Debug)]
pub struct Fragment {
    pub epoch: u64,
    pub batch_id: BatchId,
    pub fragment_id: u64,
    pub payload: Vec<SerializedTransaction>,
    pub maybe_expiry: Option<LogicalTime>,
    pub author: PeerId,
}

impl Fragment {
    pub fn new(
        epoch: u64,
        batch_id: BatchId,
        fragment_id: u64,
        payload: Vec<SerializedTransaction>,
        maybe_expiry: Option<LogicalTime>,
        author: PeerId,
    ) -> (r: Fragment)
        ensures
            r.epoch == epoch,
            r.batch_id == batch_id,
            r.fragment_id == fragment_id,
            payload_view(r.payload@) == payload_view(payload@),
            r.maybe_expiry == maybe_expiry,
            r.author == author,
    {
        Fragment { epoch, batch_id, fragment_id, payload, maybe_expiry, author }
    }
}

/// Complete metadata of a batch: everything a signature binds to.
#[derive(Clone, Copy, PartialEq, Eq, Structural, Debug)]
pub struct BatchInfo {
    pub epoch: u64,
    pub author: PeerId,
    pub batch_id: BatchId,
    pub digest: u64,
    pub expiry: LogicalTime,
    pub num_bytes: u64,
}

impl BatchInfo {
    /// The digest of this batch is the canonical digest of `txns`.
    pub open spec fn digest_matches(&self, txns: Seq<Seq<u8>>) -> bool {
        self.digest == digest_of(self.epoch, self.author, self.batch_id, txns)
    }
}

/// One validator's signature over a batch's metadata.
#[derive(Clone, Copy, PartialEq, Eq, Structural, Debug)]
pub struct SignedDigest {
    pub signer: PeerId,
    pub info: BatchInfo,
    pub signature: u64,
}

/// An aggregate signature: a quorum of validators attests that the batch is
/// durably stored.
#[derive(Clone, Debug)]
pub struct ProofOfStore {
    pub info: BatchInfo,
    /// One (signer, signature) pair per distinct validator.
    pub signatures: Vec<(PeerId, u64)>,
}

/// A completed batch handed to the store for persistence.
#[derive(Clone, Debug)]
pub struct PersistRequest {
    pub info: BatchInfo,
    pub payload: Vec<SerializedTransaction>,
}

impl PersistRequest {
    pub fn new(info: BatchInfo, payload: Vec<SerializedTransaction>) -> (r: PersistRequest)
        ensures
            r.info == info,
            payload_view(r.payload@) == payload_view(payload@),
    {
        PersistRequest { info, payload }
    }
}

/// The error surfaced to the ordering layer: quorum or fetch not resolved in
/// time.
#[derive(Debug, PartialEq, Eq, Structural)]
pub enum QuorumStoreError {
    Timeout(BatchId),
}

} // verus!
