//! The canonical batch digest: a rolling hash over the concatenated
//! transaction payloads, finalized with a framing that binds the epoch,
//! author, batch id and total byte length. The incremental hasher lets the
//! aggregator fold fragments in as they arrive; the round-trip lemma shows
//! that folding fragment by fragment equals hashing the assembled payload.

use vstd::prelude::*;

verus! {

/// Initial state of the rolling hash.
pub const HASH_INIT: u64 = 0xcbf29ce484222325;

/// Multiplier of the rolling hash.
pub const HASH_PRIME: u64 = 0x100000001b3;

/// One step of the rolling hash: absorb a 64-bit word into the state.
pub open spec fn mix(h: u64, v: u64) -> u64 {
    ((((h ^ v) as int) * (HASH_PRIME as int)) % 0x1_0000_0000_0000_0000) as u64
}

/// Absorb a byte string, first byte first.
pub open spec fn hash_bytes_from(h: u64, bytes: Seq<u8>) -> u64
    decreases bytes.len(),
{
    if bytes.len() == 0 {
        h
    } else {
        mix(hash_bytes_from(h, bytes.drop_last()), bytes.last() as u64)
    }
}

/// Absorb a sequence of transactions, first transaction first.
pub open spec fn hash_txns_from(h: u64, txns: Seq<Seq<u8>>) -> u64
    decreases txns.len(),
{
    if txns.len() == 0 {
        h
    } else {
        hash_bytes_from(hash_txns_from(h, txns.drop_last()), txns.last())
    }
}

/// Total byte length of a sequence of transactions.
pub open spec fn total_bytes(txns: Seq<Seq<u8>>) -> int
    decreases txns.len(),
{
    if txns.len() == 0 {
        0
    } else {
        total_bytes(txns.drop_last()) + txns.last().len()
    }
}

/// The canonical digest of a batch: the payload fold under `HASH_INIT`,
/// framed by epoch, author, batch id and total byte length.
pub open spec fn digest_of(epoch: u64, author: u64, batch_id: u64, txns: Seq<Seq<u8>>) -> u64 {
    mix(mix(mix(mix(hash_txns_from(HASH_INIT, txns), epoch), author), batch_id),
        (total_bytes(txns) % 0x1_0000_0000_0000_0000) as u64)
}

/// One step of the rolling hash, executable.
pub fn mix_word(h: u64, v: u64) -> (r: u64)
    ensures
        r == mix(h, v),
{
    let x: u128 = (h ^ v) as u128;
    proof {
        assert(x * (HASH_PRIME as u128) <= 0xffff_ffff_ffff_ffffu128 * 0x100000001b3u128)
            by (nonlinear_arith)
            requires
                x <= 0xffff_ffff_ffff_ffffu128,
        ;
    }
    let p: u128 = x * (HASH_PRIME as u128);
    (p % 0x1_0000_0000_0000_0000u128) as u64
}

pub proof fn lemma_hash_txns_push(h: u64, txns: Seq<Seq<u8>>, t: Seq<u8>)
    ensures
        hash_txns_from(h, txns.push(t)) == hash_bytes_from(hash_txns_from(h, txns), t),
{
    assert(txns.push(t).drop_last() =~= txns);
    assert(txns.push(t).last() == t);
}

pub proof fn lemma_total_bytes_concat(a: Seq<Seq<u8>>, b: Seq<Seq<u8>>)
    ensures
        total_bytes(a + b) == total_bytes(a) + total_bytes(b),
    decreases b.len(),
{
    if b.len() == 0 {
        assert(a + b =~= a);
    } else {
        assert((a + b).drop_last() =~= a + b.drop_last());
        lemma_total_bytes_concat(a, b.drop_last());
    }
}

pub proof fn lemma_total_bytes_nonneg(txns: Seq<Seq<u8>>)
    ensures
        total_bytes(txns) >= 0,
    decreases txns.len(),
{
    if txns.len() > 0 {
        lemma_total_bytes_nonneg(txns.drop_last());
    }
}

/// Folding the hash over a concatenation equals folding over the two parts in
/// order.
pub proof fn lemma_hash_txns_concat(h: u64, a: Seq<Seq<u8>>, b: Seq<Seq<u8>>)
    ensures
        hash_txns_from(h, a + b) == hash_txns_from(hash_txns_from(h, a), b),
    decreases b.len(),
{
    if b.len() == 0 {
        assert(a + b =~= a);
    } else {
        assert((a + b).drop_last() =~= a + b.drop_last());
        lemma_hash_txns_concat(h, a, b.drop_last());
    }
}

/// Incremental ingestion is faithful: absorbing a batch fragment by fragment
/// gives the same state as absorbing the assembled payload at once. The law
/// of the round trip through `digest_of` follows by framing the final state.
pub proof fn lemma_hash_fragments_round_trip(h: u64, fragments: Seq<Seq<Seq<u8>>>)
    ensures
        hash_txns_from(h, fragments.flatten_alt()) == fragments.fold_left(
            h,
            |acc: u64, f: Seq<Seq<u8>>| hash_txns_from(acc, f),
        ),
    decreases fragments.len(),
{
    let step = |acc: u64, f: Seq<Seq<u8>>| hash_txns_from(acc, f);
    if fragments.len() == 0 {
        assert(fragments.flatten_alt() =~= Seq::<Seq<u8>>::empty());
    } else {
        let init = fragments.drop_last();
        lemma_hash_fragments_round_trip(h, init);
        assert(fragments.flatten_alt() == init.flatten_alt() + fragments.last());
        lemma_hash_txns_concat(h, init.flatten_alt(), fragments.last());
        assert(fragments.fold_left(h, step) == step(init.fold_left(h, step), fragments.last()));
    }
}

/// Total byte length of a payload, or `None` if `acc` plus that length
/// exceeds `budget`.
pub fn bytes_within(
    payload: &Vec<crate::types::SerializedTransaction>,
    acc: u64,
    budget: u64,
) -> (r: Option<u64>)
    requires
        acc <= budget,
    ensures
        match r {
            Some(n) => {
                &&& n == total_bytes(crate::types::payload_view(payload@))
                &&& acc + n <= budget
            },
            None => acc + total_bytes(crate::types::payload_view(payload@)) > budget,
        },
{
    let ghost whole = crate::types::payload_view(payload@);
    let mut sum: u64 = 0;
    let mut i: usize = 0;
    while i < payload.len()
        invariant
            i <= payload@.len(),
            whole == crate::types::payload_view(payload@),
            sum == total_bytes(whole.take(i as int)),
            acc + sum <= budget,
        decreases payload@.len() - i,
    {
        proof {
            assert(whole.take(i as int + 1).drop_last() =~= whole.take(i as int));
            assert(whole.take(i as int + 1).last() == whole[i as int]);
        }
        let l: u64 = payload[i].len() as u64;
        if l > budget - acc - sum {
            proof {
                assert(whole =~= whole.take(i as int + 1) + whole.skip(i as int + 1));
                lemma_total_bytes_concat(whole.take(i as int + 1), whole.skip(i as int + 1));
                lemma_total_bytes_nonneg(whole.skip(i as int + 1));
            }
            return None;
        }
        sum = sum + l;
        i = i + 1;
    }
    proof {
        assert(whole.take(payload@.len() as int) =~= whole);
    }
    Some(sum)
}

/// The canonical digest and byte count of a whole payload, or `None` if the
/// byte count does not fit a machine word.
pub fn compute_digest(
    epoch: u64,
    author: u64,
    batch_id: u64,
    payload: &Vec<crate::types::SerializedTransaction>,
) -> (r: Option<(u64, u64)>)
    ensures
        match r {
            Some((digest, num_bytes)) => {
                &&& digest == digest_of(
                    epoch,
                    author,
                    batch_id,
                    crate::types::payload_view(payload@),
                )
                &&& num_bytes == total_bytes(crate::types::payload_view(payload@))
            },
            None => total_bytes(crate::types::payload_view(payload@)) > u64::MAX,
        },
{
    let ghost whole = crate::types::payload_view(payload@);
    let num_bytes = match bytes_within(payload, 0, u64::MAX) {
        Some(n) => n,
        None => {
            return None;
        },
    };
    let mut hasher = DigestHasher::new();
    let mut i: usize = 0;
    while i < payload.len()
        invariant
            i <= payload@.len(),
            whole == crate::types::payload_view(payload@),
            hasher@ == hash_txns_from(HASH_INIT, whole.take(i as int)),
        decreases payload@.len() - i,
    {
        proof {
            assert(whole.take(i as int).push(payload@[i as int]@) =~= whole.take(i as int + 1));
            lemma_hash_txns_push(HASH_INIT, whole.take(i as int), payload@[i as int]@);
        }
        hasher.update(&payload[i].bytes);
        i = i + 1;
    }
    proof {
        assert(whole.take(payload@.len() as int) =~= whole);
        lemma_total_bytes_nonneg(whole);
        assert(total_bytes(whole) % 0x1_0000_0000_0000_0000 == total_bytes(whole));
    }
    let digest = hasher.finalize(epoch, author, batch_id, num_bytes);
    Some((digest, num_bytes))
}

/// Incremental hasher over the transactions of one batch.
pub struct DigestHasher {
    state: u64,
}

impl DigestHasher {
    /// The current rolling-hash state.
    pub closed spec fn view(&self) -> u64 {
        self.state
    }

    pub fn new() -> (r: DigestHasher)
        ensures
            r@ == HASH_INIT,
    {
        DigestHasher { state: HASH_INIT }
    }

    /// Absorb the bytes of one transaction.
    pub fn update(&mut self, bytes: &Vec<u8>)
        ensures
            final(self)@ == hash_bytes_from(old(self)@, bytes@),
    {
        let mut i: usize = 0;
        let h0: u64 = self.state;
        while i < bytes.len()
            invariant
                i <= bytes@.len(),
                self.state == hash_bytes_from(h0, bytes@.take(i as int)),
            decreases bytes@.len() - i,
        {
            proof {
                assert(bytes@.take(i + 1 as int).drop_last() =~= bytes@.take(i as int));
                assert(bytes@.take(i + 1 as int).last() == bytes@[i as int]);
            }
            self.state = mix_word(self.state, bytes[i] as u64);
            i = i + 1;
        }
        proof {
            assert(bytes@.take(bytes@.len() as int) =~= bytes@);
        }
    }

    /// Finalize with the canonical framing.
    pub fn finalize(&self, epoch: u64, author: u64, batch_id: u64, num_bytes: u64) -> (r: u64)
        ensures
            r == mix(mix(mix(mix(self@, epoch), author), batch_id), num_bytes),
    {
        mix_word(mix_word(mix_word(mix_word(self.state, epoch), author), batch_id), num_bytes)
    }
}

} // verus!
