//! Per-digest signature aggregation. Each tracked digest holds the batch
//! metadata, at most one signature per validator, and the signers' combined
//! voting power; signatures are checked before any state changes. A proof of
//! store is emitted exactly when the power reaches the quorum threshold, and
//! a timer that fires first surfaces a timeout and drops the entry.

use vstd::prelude::*;
use crate::table::Table;
use crate::types::{BatchInfo, PeerId, ProofOfStore, QuorumStoreError, SignedDigest};
use crate::validator_verifier::{
    lemma_sum_power_of_nonneg, lemma_sum_power_of_push, power_in, sum_power_of, ValidatorVerifier,
};

verus! {

/// The signers of a signature list, in order.
pub open spec fn signers_of(sigs: Seq<(PeerId, u64)>) -> Seq<PeerId> {
    sigs.map_values(|p: (PeerId, u64)| p.0)
}

/// A proof under construction for one digest.
pub struct IncompleteProof {
    pub info: BatchInfo,
    pub signatures: Vec<(PeerId, u64)>,
    pub voting_power: u128,
}

/// What a command did to the proof table.
#[derive(Clone, Debug)]
pub enum ProofUpdate {
    /// The signature is not authentic under this epoch's validator set.
    InvalidSignature,
    /// A proof for this digest is already being built.
    AlreadyTracked,
    /// No proof is being built for this digest.
    NotTracked,
    /// The carried metadata differs from the tracked one.
    WrongInfo,
    /// A signature from this signer is already counted.
    DuplicateSigner,
    /// The signature was counted; quorum is not yet reached.
    Added,
    /// Quorum reached: the assembled proof of store.
    Completed(ProofOfStore),
}

/// For any batch ending in a valid proof of store, the signer set's combined
/// voting power reaches the quorum threshold, every included signature
/// verifies under the epoch's validator set, and no validator is counted
/// twice.
pub proof fn lemma_proof_of_store_quorum(
    vv: &ValidatorVerifier,
    info: BatchInfo,
    sigs: Seq<(PeerId, u64)>,
)
    requires
        vv.pos_valid(info, sigs),
    ensures
        sum_power_of(signers_of(sigs), vv.spec_validators()) >= vv.spec_quorum_threshold(),
        forall|i: int|
            0 <= i < sigs.len() ==> vv.sd_valid(
                SignedDigest { signer: sigs[i].0, info, signature: sigs[i].1 },
            ),
        forall|i: int, j: int| 0 <= i < j < sigs.len() ==> sigs[i].0 != sigs[j].0,
{
}

/// Builds proofs of store: one entry per digest, collecting signatures until
/// quorum or timeout.
pub struct ProofBuilder {
    proof_timeout_ms: u64,
    verifier: ValidatorVerifier,
    proofs: Table<IncompleteProof>,
}

impl ProofBuilder {
    pub closed spec fn spec_verifier(&self) -> ValidatorVerifier {
        self.verifier
    }

    pub closed spec fn spec_timeout_ms(&self) -> u64 {
        self.proof_timeout_ms
    }

    /// The entry under construction for a digest, if any.
    pub closed spec fn entry_for(&self, digest: u64) -> Option<IncompleteProof> {
        self.proofs.find(digest)
    }

    /// A proof for this digest is being built.
    pub open spec fn tracks(&self, digest: u64) -> bool {
        self.entry_for(digest) is Some
    }

    /// How many digests are being tracked.
    pub closed spec fn spec_num_tracked(&self) -> int {
        self.proofs.entries().len() as int
    }

    /// A well-formed entry: distinct signers, every signature authentic over
    /// the entry's metadata, the power the sum of the signers' powers, and
    /// still short of quorum (reaching it completes and drops the entry).
    pub open spec fn entry_wf(&self, e: IncompleteProof) -> bool {
        &&& forall|i: int, j: int|
            0 <= i < j < e.signatures@.len() ==> e.signatures@[i].0 != e.signatures@[j].0
        &&& forall|i: int|
            0 <= i < e.signatures@.len() ==> self.spec_verifier().sd_valid(
                SignedDigest {
                    signer: e.signatures@[i].0,
                    info: e.info,
                    signature: e.signatures@[i].1,
                },
            )
        &&& e.voting_power == sum_power_of(
            signers_of(e.signatures@),
            self.spec_verifier().spec_validators(),
        )
        &&& e.voting_power < self.spec_verifier().spec_quorum_threshold()
    }

    pub closed spec fn wf(&self) -> bool {
        &&& self.verifier.wf()
        &&& self.proofs.wf()
        &&& forall|i: int|
            0 <= i < self.proofs.entries().len() ==> (#[trigger] self.proofs.entries()[i]).0
                == self.proofs.entries()[i].1.info.digest && self.entry_wf(
                self.proofs.entries()[i].1,
            )
    }

    pub fn new(proof_timeout_ms: u64, verifier: ValidatorVerifier) -> (r: ProofBuilder)
        requires
            verifier.wf(),
        ensures
            r.wf(),
            r.spec_verifier() == verifier,
            r.spec_timeout_ms() == proof_timeout_ms,
            forall|d: u64| !r.tracks(d),
            r.spec_num_tracked() == 0,
    {
        ProofBuilder { proof_timeout_ms, verifier, proofs: Table::new() }
    }

    pub fn proof_timeout_ms(&self) -> (r: u64)
        ensures
            r == self.spec_timeout_ms(),
    {
        self.proof_timeout_ms
    }

    pub fn num_tracked(&self) -> (r: usize)
        ensures
            r == self.spec_num_tracked(),
    {
        self.proofs.len()
    }

    /// Every tracked entry is bound to its digest and well formed.
    pub proof fn lemma_tracked_wf(&self, digest: u64)
        requires
            self.wf(),
            self.tracks(digest),
        ensures
            self.entry_for(digest)->Some_0.info.digest == digest,
            self.entry_wf(self.entry_for(digest)->Some_0),
    {
        crate::table::lemma_find_index(self.proofs.entries(), digest);
    }

    /// Start building a proof for a freshly persisted batch, seeded with the
    /// author's own signature. Reaching quorum at once (a single-validator
    /// set) completes immediately.
    pub fn init_proof(&mut self, sd: &SignedDigest) -> (r: ProofUpdate)
        requires
            old(self).wf(),
        ensures
            final(self).wf(),
            final(self).spec_verifier() == old(self).spec_verifier(),
            final(self).spec_timeout_ms() == old(self).spec_timeout_ms(),
            r matches ProofUpdate::InvalidSignature <==> !old(self).spec_verifier().sd_valid(*sd),
            r matches ProofUpdate::AlreadyTracked <==> old(self).spec_verifier().sd_valid(*sd)
                && old(self).tracks(sd.info.digest),
            (r matches ProofUpdate::InvalidSignature || r matches ProofUpdate::AlreadyTracked)
                ==> *final(self) == *old(self),
            r matches ProofUpdate::Added <==> old(self).spec_verifier().sd_valid(*sd) && !old(
                self,
            ).tracks(sd.info.digest) && power_in(
                old(self).spec_verifier().spec_validators(),
                sd.signer,
            ) < old(self).spec_verifier().spec_quorum_threshold(),
            r is Completed <==> old(self).spec_verifier().sd_valid(*sd) && !old(self).tracks(
                sd.info.digest,
            ) && power_in(old(self).spec_verifier().spec_validators(), sd.signer) >= old(
                self,
            ).spec_verifier().spec_quorum_threshold(),
            r matches ProofUpdate::Added ==> {
                &&& final(self).tracks(sd.info.digest)
                &&& final(self).entry_for(sd.info.digest)->Some_0.info == sd.info
                &&& final(self).entry_for(sd.info.digest)->Some_0.signatures@ == seq![
                    (sd.signer, sd.signature),
                ]
                &&& signers_of(final(self).entry_for(sd.info.digest)->Some_0.signatures@)
                    == seq![sd.signer]
            },
            r matches ProofUpdate::Completed(pos) ==> {
                &&& old(self).spec_verifier().pos_valid(pos.info, pos.signatures@)
                &&& pos.info == sd.info
                &&& pos.signatures@ == seq![(sd.signer, sd.signature)]
                &&& !final(self).tracks(sd.info.digest)
            },
            forall|d: u64|
                d != sd.info.digest ==> final(self).entry_for(d) == old(self).entry_for(d),
    {
        if !self.verifier.check_signature(sd) {
            return ProofUpdate::InvalidSignature;
        }
        let digest = sd.info.digest;
        if self.proofs.contains_key(digest) {
            return ProofUpdate::AlreadyTracked;
        }
        let p = match self.verifier.voting_power(sd.signer) {
            Some(p) => p,
            None => vstd::pervasive::unreached(),
        };
        let power: u128 = p as u128;
        let mut signatures: Vec<(PeerId, u64)> = Vec::new();
        signatures.push((sd.signer, sd.signature));
        proof {
            let vals = self.verifier.spec_validators();
            assert(signers_of(signatures@) =~= seq![sd.signer]);
            assert(seq![sd.signer].drop_last() =~= Seq::<PeerId>::empty());
            assert(seq![sd.signer].last() == sd.signer);
            assert(sum_power_of(Seq::<PeerId>::empty(), vals) == 0);
            assert(sum_power_of(seq![sd.signer], vals) == crate::validator_verifier::power_in(
                vals,
                sd.signer,
            ));
            assert(sum_power_of(signers_of(signatures@), vals) == power);
        }
        if power >= self.verifier.quorum_threshold() {
            let pos = ProofOfStore { info: sd.info, signatures };
            return ProofUpdate::Completed(pos);
        }
        let entry = IncompleteProof { info: sd.info, signatures, voting_power: power };
        self.proofs.insert_new(digest, entry);
        ProofUpdate::Added
    }

    /// Count one more validator's signature for a tracked digest: checked
    /// before any state changes, matched against the tracked metadata, one
    /// per signer. On quorum, the entry is dropped and the proof emitted.
    #[verifier::rlimit(50)]
    pub fn append_signature(&mut self, sd: &SignedDigest) -> (r: ProofUpdate)
        requires
            old(self).wf(),
        ensures
            final(self).wf(),
            final(self).spec_verifier() == old(self).spec_verifier(),
            final(self).spec_timeout_ms() == old(self).spec_timeout_ms(),
            r matches ProofUpdate::InvalidSignature <==> !old(self).spec_verifier().sd_valid(*sd),
            r matches ProofUpdate::NotTracked <==> old(self).spec_verifier().sd_valid(*sd) && !old(
                self,
            ).tracks(sd.info.digest),
            r matches ProofUpdate::WrongInfo <==> old(self).spec_verifier().sd_valid(*sd) && old(
                self,
            ).tracks(sd.info.digest) && old(self).entry_for(sd.info.digest)->Some_0.info != sd.info,
            r matches ProofUpdate::DuplicateSigner <==> old(self).spec_verifier().sd_valid(*sd)
                && old(self).tracks(sd.info.digest) && old(self).entry_for(sd.info.digest)->Some_0.info == sd.info && signers_of(
                old(self).entry_for(sd.info.digest)->Some_0.signatures@,
            ).contains(sd.signer),
            (r matches ProofUpdate::InvalidSignature || r matches ProofUpdate::NotTracked
                || r matches ProofUpdate::WrongInfo || r matches ProofUpdate::DuplicateSigner)
                ==> *final(self) == *old(self),
            r matches ProofUpdate::Added ==> {
                &&& final(self).tracks(sd.info.digest)
                &&& final(self).entry_for(sd.info.digest)->Some_0.info == sd.info
                &&& final(self).entry_for(sd.info.digest)->Some_0.signatures@ == old(
                    self,
                ).entry_for(sd.info.digest)->Some_0.signatures@.push((sd.signer, sd.signature))
                &&& signers_of(final(self).entry_for(sd.info.digest)->Some_0.signatures@)
                    == signers_of(old(self).entry_for(sd.info.digest)->Some_0.signatures@).push(
                    sd.signer,
                )
            },
            r matches ProofUpdate::Completed(pos) ==> {
                &&& old(self).spec_verifier().pos_valid(pos.info, pos.signatures@)
                &&& pos.info == sd.info
                &&& pos.signatures@ == old(self).entry_for(sd.info.digest)->Some_0.signatures@.push(
                    (sd.signer, sd.signature),
                )
                &&& !final(self).tracks(sd.info.digest)
            },
            (r is Added || r is Completed) <==> old(self).spec_verifier().sd_valid(*sd) && old(
                self,
            ).tracks(sd.info.digest) && old(self).entry_for(sd.info.digest)->Some_0.info == sd.info
                && !signers_of(old(self).entry_for(sd.info.digest)->Some_0.signatures@).contains(
                sd.signer,
            ),
            forall|d: u64|
                d != sd.info.digest ==> final(self).entry_for(d) == old(self).entry_for(d),
    {
        if !self.verifier.check_signature(sd) {
            return ProofUpdate::InvalidSignature;
        }
        let digest = sd.info.digest;
        let (in_table, dup) = match self.proofs.get(digest) {
            None => (false, false),
            Some(e) => {
                if e.info != sd.info {
                    return ProofUpdate::WrongInfo;
                }
                let ghost signers = signers_of(e.signatures@);
                let mut j: usize = 0;
                let mut dup = false;
                while j < e.signatures.len()
                    invariant
                        j <= e.signatures@.len(),
                        signers == signers_of(e.signatures@),
                        dup <==> exists|a: int| 0 <= a < j && signers[a] == sd.signer,
                    decreases e.signatures@.len() - j,
                {
                    if e.signatures[j].0 == sd.signer {
                        dup = true;
                        proof {
                            assert(signers[j as int] == sd.signer);
                        }
                    }
                    j = j + 1;
                }
                (true, dup)
            },
        };
        if !in_table {
            return ProofUpdate::NotTracked;
        }
        if dup {
            return ProofUpdate::DuplicateSigner;
        }
        proof {
            self.lemma_tracked_wf(digest);
        }
        let mut e = match self.proofs.remove_entry(digest) {
            Some(e) => e,
            None => vstd::pervasive::unreached(),
        };
        proof {
            let s0 = old(self).proofs.entries();
            let s1 = self.proofs.entries();
            let i = choose|i: int| 0 <= i < s0.len() && s0[i].0 == digest && s1 == s0.remove(i);
            assert(forall|a: int| 0 <= a < i ==> s1[a] == s0[a]);
            assert(forall|a: int| i <= a < s1.len() ==> s1[a] == s0[a + 1]);
            assert(self.spec_verifier() == old(self).spec_verifier());
            assert(forall|a: int|
                0 <= a < s1.len() ==> (#[trigger] s1[a]).0 == s1[a].1.info.digest && self.entry_wf(
                    s1[a].1,
                ));
        }
        let sig_count = e.signatures.len();
        let p = match self.verifier.voting_power(sd.signer) {
            Some(p) => p,
            None => vstd::pervasive::unreached(),
        };
        let ghost old_signers = signers_of(e.signatures@);
        proof {
            assert(old_signers.len() == sig_count);
            lemma_sum_power_of_nonneg(old_signers, self.verifier.spec_validators());
            assert(old_signers.len() * (u64::MAX as int) + (u64::MAX as int) < u128::MAX)
                by (nonlinear_arith)
                requires
                    old_signers.len() <= u64::MAX,
            ;
            lemma_sum_power_of_push(old_signers, self.verifier.spec_validators(), sd.signer);
        }
        let ghost old_sigs = e.signatures@;
        e.signatures.push((sd.signer, sd.signature));
        proof {
            assert(signers_of(e.signatures@) =~= old_signers.push(sd.signer));
        }
        let power: u128 = e.voting_power + (p as u128);
        e.voting_power = power;
        proof {
            let sigs = e.signatures@;
            assert(forall|a: int| 0 <= a < sigs.len() - 1 ==> sigs[a] == old_sigs[a]);
            assert(sigs[sigs.len() - 1] == (sd.signer, sd.signature));
            assert(forall|a: int| 0 <= a < old_signers.len() ==> old_signers[a] != sd.signer);
            assert forall|a: int| 0 <= a < old_sigs.len() implies old_signers[a]
                == old_sigs[a].0 by {
                assert(signers_of(old_sigs)[a] == old_sigs[a].0);
            }
            assert forall|a: int, b: int| 0 <= a < b < sigs.len() implies sigs[a].0
                != sigs[b].0 by {
                if b == sigs.len() - 1 {
                    assert(sigs[a].0 == old_sigs[a].0);
                    assert(old_signers[a] != sd.signer);
                } else {
                    assert(old_sigs[a].0 != old_sigs[b].0);
                }
            }
            assert(forall|a: int|
                0 <= a < sigs.len() ==> self.spec_verifier().sd_valid(
                    SignedDigest { signer: sigs[a].0, info: e.info, signature: sigs[a].1 },
                ));
            assert(power == sum_power_of(
                signers_of(sigs),
                self.spec_verifier().spec_validators(),
            ));
        }
        if power >= self.verifier.quorum_threshold() {
            let pos = ProofOfStore { info: e.info, signatures: e.signatures };
            proof {
                assert(old(self).spec_verifier().pos_valid(pos.info, pos.signatures@));
            }
            ProofUpdate::Completed(pos)
        } else {
            self.proofs.insert_new(digest, e);
            proof {
                let s2 = self.proofs.entries();
                assert(forall|a: int|
                    0 <= a < s2.len() ==> (#[trigger] s2[a]).0 == s2[a].1.info.digest
                        && self.entry_wf(s2[a].1));
            }
            ProofUpdate::Added
        }
    }

    /// The per-digest timer fired: if the entry still exists, drop it and
    /// surface a timeout carrying the tracked batch id.
    pub fn timer_elapsed(&mut self, digest: u64) -> (r: Option<QuorumStoreError>)
        requires
            old(self).wf(),
        ensures
            final(self).wf(),
            final(self).spec_verifier() == old(self).spec_verifier(),
            final(self).spec_timeout_ms() == old(self).spec_timeout_ms(),
            match old(self).entry_for(digest) {
                Some(e) => r == Some(QuorumStoreError::Timeout(e.info.batch_id)),
                None => r is None,
            },
            !final(self).tracks(digest),
            forall|d: u64|
                d != digest ==> final(self).entry_for(d) == old(self).entry_for(d),
    {
        match self.proofs.remove_entry(digest) {
            Some(e) => Some(QuorumStoreError::Timeout(e.info.batch_id)),
            None => None,
        }
    }

    /// Drop every entry.
    pub fn shutdown(&mut self)
        requires
            old(self).wf(),
        ensures
            final(self).wf(),
            final(self).spec_verifier() == old(self).spec_verifier(),
            final(self).spec_num_tracked() == 0,
            forall|d: u64| !final(self).tracks(d),
    {
        self.proofs.clear();
    }
}

} // verus!
