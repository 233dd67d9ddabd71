//! The validator set of one epoch: voting powers, the quorum threshold, and
//! the signing model. A signature binds a validator to a batch's complete
//! metadata; signature inputs are the canonical digest of the `BatchInfo`,
//! never the payload itself.

use vstd::prelude::*;
use crate::digest::{mix, mix_word, HASH_INIT};
use crate::types::{BatchInfo, PeerId, ProofOfStore, SignedDigest};

verus! {

/// The canonical digest of a batch's metadata: what a signature is over.
pub open spec fn info_digest(info: BatchInfo) -> u64 {
    mix(
        mix(
            mix(
                mix(mix(mix(mix(HASH_INIT, info.epoch), info.author), info.batch_id), info.digest),
                info.expiry.epoch,
            ),
            info.expiry.round,
        ),
        info.num_bytes,
    )
}

/// The signature of `signer` over a batch's metadata.
pub open spec fn signature_of(signer: PeerId, info: BatchInfo) -> u64 {
    mix(mix(HASH_INIT, signer), info_digest(info))
}

pub fn compute_info_digest(info: &BatchInfo) -> (r: u64)
    ensures
        r == info_digest(*info),
{
    mix_word(
        mix_word(
            mix_word(
                mix_word(
                    mix_word(mix_word(mix_word(HASH_INIT, info.epoch), info.author), info.batch_id),
                    info.digest,
                ),
                info.expiry.epoch,
            ),
            info.expiry.round,
        ),
        info.num_bytes,
    )
}

/// The signing half of one validator's identity.
#[derive(Clone, Copy, PartialEq, Eq, Structural, Debug)]
pub struct ValidatorSigner {
    pub peer: PeerId,
}

impl ValidatorSigner {
    pub fn new(peer: PeerId) -> (r: ValidatorSigner)
        ensures
            r.peer == peer,
    {
        ValidatorSigner { peer }
    }

    /// Sign a batch's metadata.
    pub fn sign(&self, info: &BatchInfo) -> (sd: SignedDigest)
        ensures
            sd.signer == self.peer,
            sd.info == *info,
            sd.signature == signature_of(self.peer, *info),
    {
        SignedDigest { signer: self.peer, info: *info, signature: mix_word(mix_word(HASH_INIT, self.peer), compute_info_digest(info)) }
    }
}

/// One validator and its voting power.
#[derive(Clone, Copy, PartialEq, Eq, Structural, Debug)]
pub struct ValidatorInfo {
    pub peer: PeerId,
    pub voting_power: u64,
}

/// No two entries name the same validator.
pub open spec fn distinct_peers(s: Seq<ValidatorInfo>) -> bool {
    forall|i: int, j: int| 0 <= i < j < s.len() ==> s[i].peer != s[j].peer
}

/// The combined voting power of a validator set.
pub open spec fn sum_power(s: Seq<ValidatorInfo>) -> int
    decreases s.len(),
{
    if s.len() == 0 {
        0
    } else {
        sum_power(s.drop_last()) + s.last().voting_power
    }
}

/// This peer appears in the validator set.
pub open spec fn has_peer(s: Seq<ValidatorInfo>, peer: PeerId) -> bool {
    exists|i: int| 0 <= i < s.len() && s[i].peer == peer
}

/// The voting power of `peer` in the set, 0 if absent.
pub open spec fn power_in(s: Seq<ValidatorInfo>, peer: PeerId) -> u64
    decreases s.len(),
{
    if s.len() == 0 {
        0
    } else if s.last().peer == peer {
        s.last().voting_power
    } else {
        power_in(s.drop_last(), peer)
    }
}

/// The combined voting power of a set of signers.
pub open spec fn sum_power_of(signers: Seq<PeerId>, s: Seq<ValidatorInfo>) -> int
    decreases signers.len(),
{
    if signers.len() == 0 {
        0
    } else {
        sum_power_of(signers.drop_last(), s) + power_in(s, signers.last())
    }
}

pub proof fn lemma_power_in_index(s: Seq<ValidatorInfo>, i: int, peer: PeerId)
    requires
        distinct_peers(s),
        0 <= i < s.len(),
        s[i].peer == peer,
    ensures
        power_in(s, peer) == s[i].voting_power,
        has_peer(s, peer),
    decreases s.len(),
{
    if i + 1 == s.len() {
    } else {
        assert(s.drop_last()[i] == s[i]);
        lemma_power_in_index(s.drop_last(), i, peer);
    }
}

pub proof fn lemma_power_in_absent(s: Seq<ValidatorInfo>, peer: PeerId)
    requires
        !has_peer(s, peer),
    ensures
        power_in(s, peer) == 0,
    decreases s.len(),
{
    if s.len() > 0 {
        assert(s.last() == s[s.len() - 1]);
        assert(forall|i: int| 0 <= i < s.len() - 1 ==> s.drop_last()[i] == s[i]);
        lemma_power_in_absent(s.drop_last(), peer);
    }
}

pub proof fn lemma_sum_power_of_push(signers: Seq<PeerId>, s: Seq<ValidatorInfo>, peer: PeerId)
    ensures
        sum_power_of(signers.push(peer), s) == sum_power_of(signers, s) + power_in(s, peer),
{
    assert(signers.push(peer).drop_last() =~= signers);
}

pub proof fn lemma_sum_power_of_nonneg(signers: Seq<PeerId>, s: Seq<ValidatorInfo>)
    ensures
        0 <= sum_power_of(signers, s) <= signers.len() * (u64::MAX as int),
    decreases signers.len(),
{
    if signers.len() == 0 {
    } else {
        lemma_sum_power_of_nonneg(signers.drop_last(), s);
        assert((signers.len() - 1) * (u64::MAX as int) + (u64::MAX as int) == signers.len() * (
        u64::MAX as int)) by (nonlinear_arith);
    }
}

/// The validator set of the current epoch, with the quorum threshold over
/// voting power.
pub struct ValidatorVerifier {
    validators: Vec<ValidatorInfo>,
    total_voting_power: u128,
    quorum_threshold: u128,
}

impl ValidatorVerifier {
    /// The validator entries.
    pub closed spec fn spec_validators(&self) -> Seq<ValidatorInfo> {
        self.validators@
    }

    /// The quorum threshold: strictly more than two thirds of the total
    /// voting power.
    pub open spec fn spec_quorum_threshold(&self) -> int {
        2 * sum_power(self.spec_validators()) / 3 + 1
    }

    pub closed spec fn wf(&self) -> bool {
        &&& distinct_peers(self.validators@)
        &&& self.total_voting_power == sum_power(self.validators@)
        &&& self.quorum_threshold == self.spec_quorum_threshold()
    }

    /// A signed digest is authentic: its signer is a validator of this epoch
    /// and its signature verifies over the carried metadata.
    pub open spec fn sd_valid(&self, sd: SignedDigest) -> bool {
        &&& has_peer(self.spec_validators(), sd.signer)
        &&& sd.signature == signature_of(sd.signer, sd.info)
    }

    /// A proof of store is valid: distinct signers, all validators of this
    /// epoch, every signature verifies over the proof's metadata, and the
    /// signers' combined voting power reaches the quorum threshold.
    pub open spec fn pos_valid(&self, info: BatchInfo, sigs: Seq<(PeerId, u64)>) -> bool {
        &&& forall|i: int, j: int| 0 <= i < j < sigs.len() ==> sigs[i].0 != sigs[j].0
        &&& forall|i: int|
            0 <= i < sigs.len() ==> self.sd_valid(
                SignedDigest { signer: sigs[i].0, info, signature: sigs[i].1 },
            )
        &&& sum_power_of(sigs.map_values(|p: (PeerId, u64)| p.0), self.spec_validators())
            >= self.spec_quorum_threshold()
    }

    pub fn new(validators: Vec<ValidatorInfo>) -> (r: ValidatorVerifier)
        requires
            distinct_peers(validators@),
            sum_power(validators@) <= u64::MAX,
        ensures
            r.wf(),
            r.spec_validators() == validators@,
    {
        let ghost all = validators@;
        let mut total: u128 = 0;
        let mut i: usize = 0;
        while i < validators.len()
            invariant
                i <= all.len(),
                all == validators@,
                total == sum_power(all.take(i as int)),
                total <= i * (u64::MAX as int),
            decreases all.len() - i,
        {
            proof {
                assert(all.take(i as int + 1).drop_last() =~= all.take(i as int));
                assert(all.take(i as int + 1).last() == all[i as int]);
                assert(i * (u64::MAX as int) + (u64::MAX as int) == (i + 1) * (u64::MAX as int))
                    by (nonlinear_arith);
                assert((i + 1) * (u64::MAX as int) <= u64::MAX * (u64::MAX as int))
                    by (nonlinear_arith)
                    requires
                        i + 1 <= u64::MAX,
                ;
            }
            total = total + (validators[i].voting_power as u128);
            i = i + 1;
        }
        proof {
            assert(all.take(all.len() as int) =~= all);
        }
        let threshold: u128 = 2 * total / 3 + 1;
        proof {
            assert(threshold == 2 * sum_power(all) / 3 + 1);
        }
        ValidatorVerifier { validators, total_voting_power: total, quorum_threshold: threshold }
    }

    /// The voting power of `peer`, `None` if it is not a validator.
    pub fn voting_power(&self, peer: PeerId) -> (r: Option<u64>)
        requires
            self.wf(),
        ensures
            match r {
                Some(p) => has_peer(self.spec_validators(), peer) && p == power_in(
                    self.spec_validators(),
                    peer,
                ),
                None => !has_peer(self.spec_validators(), peer),
            },
    {
        let ghost all = self.validators@;
        let mut i: usize = 0;
        while i < self.validators.len()
            invariant
                i <= all.len(),
                all == self.validators@,
                distinct_peers(all),
                forall|j: int| 0 <= j < i ==> all[j].peer != peer,
            decreases all.len() - i,
        {
            if self.validators[i].peer == peer {
                proof {
                    lemma_power_in_index(all, i as int, peer);
                }
                return Some(self.validators[i].voting_power);
            }
            i = i + 1;
        }
        proof {
            lemma_power_in_absent(all, peer);
        }
        None
    }

    /// The quorum threshold on combined voting power.
    pub fn quorum_threshold(&self) -> (r: u128)
        requires
            self.wf(),
        ensures
            r == self.spec_quorum_threshold(),
    {
        self.quorum_threshold
    }

    /// Check one signed digest: the signer is a validator and the signature
    /// verifies over the carried metadata.
    pub fn check_signature(&self, sd: &SignedDigest) -> (r: bool)
        requires
            self.wf(),
        ensures
            r == self.sd_valid(*sd),
    {
        match self.voting_power(sd.signer) {
            None => false,
            Some(_) => {
                let expected = mix_word(
                    mix_word(HASH_INIT, sd.signer),
                    compute_info_digest(&sd.info),
                );
                sd.signature == expected
            },
        }
    }

    /// Verify a proof of store: distinct signers, authentic signatures, and
    /// quorum voting power.
    pub fn verify_proof(&self, pos: &ProofOfStore) -> (r: bool)
        requires
            self.wf(),
        ensures
            r == self.pos_valid(pos.info, pos.signatures@),
    {
        let ghost sigs = pos.signatures@;
        let ghost signers = sigs.map_values(|p: (PeerId, u64)| p.0);
        let mut power: u128 = 0;
        let mut i: usize = 0;
        while i < pos.signatures.len()
            invariant
                i <= sigs.len(),
                sigs == pos.signatures@,
                signers == sigs.map_values(|p: (PeerId, u64)| p.0),
                self.wf(),
                forall|a: int, b: int| 0 <= a < b < i ==> sigs[a].0 != sigs[b].0,
                forall|a: int|
                    0 <= a < i ==> self.sd_valid(
                        SignedDigest { signer: sigs[a].0, info: pos.info, signature: sigs[a].1 },
                    ),
                power == sum_power_of(signers.take(i as int), self.spec_validators()),
            decreases sigs.len() - i,
        {
            let (signer, signature) = pos.signatures[i];
            let mut j: usize = 0;
            while j < i
                invariant
                    j <= i,
                    i < sigs.len(),
                    sigs == pos.signatures@,
                    signer == sigs[i as int].0,
                    forall|a: int| 0 <= a < j ==> sigs[a].0 != signer,
                decreases i - j,
            {
                if pos.signatures[j].0 == signer {
                    return false;
                }
                j = j + 1;
            }
            let sd = SignedDigest { signer, info: pos.info, signature };
            if !self.check_signature(&sd) {
                return false;
            }
            let p = match self.voting_power(signer) {
                Some(p) => p,
                None => vstd::pervasive::unreached(),
            };
            proof {
                assert(signers.take(i as int + 1).drop_last() =~= signers.take(i as int));
                assert(signers.take(i as int + 1).last() == sigs[i as int].0);
                lemma_sum_power_of_nonneg(signers.take(i as int), self.spec_validators());
                assert(i * (u64::MAX as int) + (u64::MAX as int) < u128::MAX)
                    by (nonlinear_arith)
                    requires
                        i <= u64::MAX,
                ;
            }
            power = power + (p as u128);
            i = i + 1;
        }
        proof {
            assert(signers.take(sigs.len() as int) =~= signers);
        }
        power >= self.quorum_threshold
    }
}

} // verus!
