//! The read-side facade over the batch store. A locally present batch —
//! cached in memory or only durable — is produced at once; an absent one
//! starts a fetch round toward a bounded set of peers, the author first, the
//! rest drawn at random without replacement. Responses are digest-verified
//! before they resolve a waiter; duplicates are dropped; a timer that fires
//! starts another round until the retry budget is spent.

use vstd::prelude::*;
use crate::batch_store::BatchStore;
use crate::digest::{compute_digest, total_bytes};
use crate::table::Table;
use crate::digest::digest_of;
use crate::types::{
    payload_view, BatchInfo, PeerId, QuorumStoreError, SerializedTransaction,
};

verus! {

/// No peer is listed twice.
pub open spec fn distinct_peer_ids(s: Seq<PeerId>) -> bool {
    forall|i: int, j: int| 0 <= i < j < s.len() ==> s[i] != s[j]
}

/// The response payload answers exactly the waited-for batch: it hashes to
/// the expected digest under the canonical framing, with the expected length.
pub open spec fn response_matches(info: BatchInfo, digest: u64, payload: Seq<
    SerializedTransaction,
>) -> bool {
    &&& info.digest == digest
    &&& info.digest == digest_of(info.epoch, info.author, info.batch_id, payload_view(payload))
    &&& info.num_bytes == total_bytes(payload_view(payload))
}

/// An outstanding fetch: the metadata the response must match, and how many
/// more rounds may be tried.
pub struct FetchWaiter {
    pub info: BatchInfo,
    pub retries_left: u64,
}

/// What `get_batch` did.
pub enum GetBatchResult {
    /// The payload, produced from memory or from the durable copy.
    Local(Vec<SerializedTransaction>),
    /// Absent locally: a fetch round was started toward these peers.
    Fetching(Vec<PeerId>),
}

/// What an inbound batch response did.
pub enum ResponseOutcome {
    /// It matched the waiter's metadata: the payload, waiter resolved.
    Resolved(Vec<SerializedTransaction>),
    /// Its payload does not match the waited-for digest; the waiter stays.
    Rejected,
    /// No waiter for this digest: a duplicate or unsolicited response.
    Dropped,
}

/// What a fetch timer firing did.
pub enum TimeoutOutcome {
    /// Another round was started toward these peers.
    Retry(Vec<PeerId>),
    /// The retry budget is spent: the error for the caller.
    GiveUp(QuorumStoreError),
    /// No waiter for this digest.
    Ignored,
}

/// Relies on rand::random_range: a uniform sample from a non-empty
/// `0..n` range lies in the range.
#[verifier::external_body]
fn random_below(n: usize) -> (r: usize)
    requires
        n > 0,
    ensures
        r < n,
{
    rand::random_range(0..n)
}

/// Swapping the last element into place `i` and dropping the last keeps the
/// remaining elements distinct and drawn from the input, and removes
/// exactly the element at `i`.
proof fn lemma_swap_removed(s: Seq<PeerId>, i: int)
    requires
        distinct_peer_ids(s),
        0 <= i < s.len(),
    ensures
        distinct_peer_ids(s.update(i, s.last()).drop_last()),
        forall|a: int|
            0 <= a < s.len() - 1 ==> s.contains(
                #[trigger] s.update(i, s.last()).drop_last()[a],
            ),
        forall|a: int| 0 <= a < s.len() - 1 ==> s.update(i, s.last()).drop_last()[a] != s[i],
        forall|a: int|
            0 <= a < s.len() && a != i ==> s.update(i, s.last()).drop_last().contains(s[a]),
{
    let t = s.update(i, s.last()).drop_last();
    assert(forall|a: int| 0 <= a < t.len() && a != i ==> t[a] == s[a]);
    assert(i < t.len() ==> t[i] == s[s.len() - 1]);
    assert forall|a: int| 0 <= a < t.len() implies s.contains(t[a]) && t[a] != s[i] by {
        if a == i {
            assert(t[a] == s[s.len() - 1]);
        } else {
            assert(t[a] == s[a]);
        }
    }
    assert forall|a: int| 0 <= a < s.len() && a != i implies t.contains(s[a]) by {
        if a == s.len() - 1 {
            if i < t.len() {
                assert(t[i] == s[a]);
            }
        } else {
            assert(t[a] == s[a]);
        }
    }
    assert forall|a: int, b: int| 0 <= a < b < t.len() implies t[a] != t[b] by {
        if a == i {
            assert(t[a] == s[s.len() - 1] && t[b] == s[b]);
        } else if b == i {
            assert(t[b] == s[s.len() - 1] && t[a] == s[a]);
        } else {
            assert(t[a] == s[a] && t[b] == s[b]);
        }
    }
}

/// Whether a peer list holds `x`.
fn contains_peer(v: &Vec<PeerId>, x: PeerId) -> (r: bool)
    ensures
        r == v@.contains(x),
{
    let mut i: usize = 0;
    while i < v.len()
        invariant
            i <= v@.len(),
            forall|a: int| 0 <= a < i ==> v@[a] != x,
        decreases v@.len() - i,
    {
        if v[i] == x {
            proof {
                assert(v@[i as int] == x);
            }
            return true;
        }
        i = i + 1;
    }
    proof {
        if v@.contains(x) {
            let c = choose|c: int| 0 <= c < v@.len() && v@[c] == x;
            assert(false);
        }
    }
    false
}

/// The read-side facade handed to the ordering layer.
pub struct BatchReader {
    my_peer_id: PeerId,
    peers: Vec<PeerId>,
    batch_request_num_peers: usize,
    batch_request_timeout_ms: u64,
    max_fetch_retries: u64,
    waiters: Table<FetchWaiter>,
}

impl BatchReader {
    pub closed spec fn spec_my_peer_id(&self) -> PeerId {
        self.my_peer_id
    }

    pub closed spec fn spec_peers(&self) -> Seq<PeerId> {
        self.peers@
    }

    pub closed spec fn spec_num_peers_per_round(&self) -> int {
        self.batch_request_num_peers as int
    }

    pub closed spec fn spec_timeout_ms(&self) -> u64 {
        self.batch_request_timeout_ms
    }

    /// How many further rounds a fetch may try after its first.
    pub closed spec fn spec_max_fetch_retries(&self) -> u64 {
        self.max_fetch_retries
    }

    /// The outstanding fetch for a digest, if any.
    pub closed spec fn waiter_for(&self, digest: u64) -> Option<FetchWaiter> {
        self.waiters.find(digest)
    }

    pub closed spec fn wf(&self) -> bool {
        &&& self.waiters.wf()
        &&& distinct_peer_ids(self.peers@)
    }

    pub fn new(
        my_peer_id: PeerId,
        peers: Vec<PeerId>,
        batch_request_num_peers: usize,
        batch_request_timeout_ms: u64,
        max_fetch_retries: u64,
    ) -> (r: BatchReader)
        requires
            distinct_peer_ids(peers@),
        ensures
            r.wf(),
            r.spec_my_peer_id() == my_peer_id,
            r.spec_peers() == peers@,
            r.spec_num_peers_per_round() == batch_request_num_peers,
            r.spec_timeout_ms() == batch_request_timeout_ms,
            r.spec_max_fetch_retries() == max_fetch_retries,
            forall|d: u64| r.waiter_for(d) is None,
    {
        BatchReader {
            my_peer_id,
            peers,
            batch_request_num_peers,
            batch_request_timeout_ms,
            max_fetch_retries,
            waiters: Table::new(),
        }
    }

    /// One fetch round: up to `batch_request_num_peers` targets, never
    /// oneself, no peer twice, the batch's author first when it is a peer.
    /// Short only when fewer other peers exist.
    fn pick_round_peers(&self, author: PeerId) -> (r: Vec<PeerId>)
        requires
            self.wf(),
        ensures
            r@.len() <= self.spec_num_peers_per_round(),
            distinct_peer_ids(r@),
            forall|i: int| 0 <= i < r@.len() ==> self.spec_peers().contains(#[trigger] r@[i]),
            forall|i: int| 0 <= i < r@.len() ==> r@[i] != self.spec_my_peer_id(),
            self.spec_peers().contains(author) && author != self.spec_my_peer_id()
                && self.spec_num_peers_per_round() > 0 ==> r@.len() > 0 && r@[0] == author,
            r@.len() == self.spec_num_peers_per_round() || (forall|p: PeerId|
                self.spec_peers().contains(p) && p != self.spec_my_peer_id() ==> r@.contains(p)),
    {
        let num = self.batch_request_num_peers;
        let mut candidates: Vec<PeerId> = Vec::new();
        let mut i: usize = 0;
        while i < self.peers.len()
            invariant
                self.wf(),
                i <= self.peers@.len(),
                distinct_peer_ids(candidates@),
                forall|a: int|
                    0 <= a < candidates@.len() ==> self.spec_peers().contains(
                        #[trigger] candidates@[a],
                    ) && candidates@[a] != self.spec_my_peer_id(),
                forall|b: int|
                    0 <= b < i ==> self.spec_peers()[b] == self.spec_my_peer_id()
                        || candidates@.contains(#[trigger] self.spec_peers()[b]),
            decreases self.peers@.len() - i,
        {
            let p = self.peers[i];
            if p != self.my_peer_id && !contains_peer(&candidates, p) {
                let ghost pre = candidates@;
                proof {
                    assert forall|a: int| 0 <= a < pre.len() implies pre[a] != p by {
                        if pre[a] == p {
                            assert(pre.contains(p));
                        }
                    }
                }
                candidates.push(p);
                proof {
                    assert(forall|a: int| 0 <= a < pre.len() ==> candidates@[a] == pre[a]);
                    assert(candidates@[candidates@.len() - 1] == p);
                    assert(self.spec_peers()[i as int] == p);
                    assert(self.spec_peers().contains(p));
                    assert forall|b: int|
                        0 <= b < i + 1 && self.spec_peers()[b] != self.spec_my_peer_id() implies
                        candidates@.contains(#[trigger] self.spec_peers()[b]) by {
                        if b < i {
                            let c = choose|c: int|
                                0 <= c < pre.len() && pre[c] == self.spec_peers()[b];
                            assert(candidates@[c] == self.spec_peers()[b]);
                        } else {
                            assert(candidates@[candidates@.len() - 1] == self.spec_peers()[b]);
                        }
                    }
                }
            } else {
                proof {
                    assert forall|b: int|
                        0 <= b < i + 1 && self.spec_peers()[b] != self.spec_my_peer_id() implies
                        candidates@.contains(#[trigger] self.spec_peers()[b]) by {
                        if b == i {
                            assert(self.spec_peers()[b] == p);
                        }
                    }
                }
            }
            i = i + 1;
        }
        let ghost all_cand = candidates@;
        let mut chosen: Vec<PeerId> = Vec::new();
        if num > 0 {
            let mut j: usize = 0;
            let mut author_at: Option<usize> = None;
            let mut searching = true;
            while searching && j < candidates.len()
                invariant
                    j <= candidates@.len(),
                    candidates@ == all_cand,
                    searching <==> author_at is None,
                    match author_at {
                        Some(a) => a < candidates@.len() && candidates@[a as int] == author,
                        None => forall|a: int| 0 <= a < j ==> candidates@[a] != author,
                    },
                decreases candidates@.len() - j + (if searching { 1int } else { 0int }),
            {
                if candidates[j] == author {
                    author_at = Some(j);
                    searching = false;
                } else {
                    j = j + 1;
                }
            }
            match author_at {
                Some(a) => {
                    chosen.push(author);
                    let ghost cpre = candidates@;
                    proof {
                        lemma_swap_removed(cpre, a as int);
                    }
                    let last = candidates.len() - 1;
                    let moved = candidates[last];
                    candidates.set(a, moved);
                    let _ = candidates.pop();
                    proof {
                        assert(candidates@ =~= cpre.update(a as int, cpre.last()).drop_last());
                        assert(chosen@ =~= seq![author]);
                        assert forall|q: PeerId|
                            self.spec_peers().contains(q) && q != self.spec_my_peer_id() implies
                            candidates@.contains(q) || chosen@.contains(q) by {
                            let b = choose|b: int|
                                0 <= b < self.spec_peers().len() && self.spec_peers()[b] == q;
                            if q == author {
                                assert(chosen@[0] == q);
                            } else {
                                assert(cpre.contains(q));
                                let c = choose|c: int| 0 <= c < cpre.len() && cpre[c] == q;
                                assert(c != a);
                                assert(candidates@.contains(cpre[c]));
                            }
                        }
                    }
                },
                None => {
                    proof {
                        if self.spec_peers().contains(author) && author
                            != self.spec_my_peer_id() {
                            let b = choose|b: int|
                                0 <= b < self.spec_peers().len() && self.spec_peers()[b]
                                    == author;
                            assert(candidates@.contains(author));
                            let c = choose|c: int|
                                0 <= c < candidates@.len() && candidates@[c] == author;
                            assert(false);
                        }
                    }
                },
            }
        }
        let ghost me = self.spec_my_peer_id();
        let ghost peers0 = self.spec_peers();
        let ghost ch0 = chosen@;
        proof {
            assert forall|q: PeerId|
                peers0.contains(q) && q != me implies candidates@.contains(q)
                || chosen@.contains(q) by {
                if !chosen@.contains(q) {
                    let b = choose|b: int| 0 <= b < peers0.len() && peers0[b] == q;
                    assert(candidates@.contains(q));
                }
            }
        }
        while chosen.len() < num && candidates.len() > 0
            invariant
                num == self.spec_num_peers_per_round(),
                me == self.spec_my_peer_id(),
                peers0 == self.spec_peers(),
                chosen@.len() <= num,
                distinct_peer_ids(candidates@),
                distinct_peer_ids(chosen@),
                forall|a: int|
                    0 <= a < candidates@.len() ==> peers0.contains(#[trigger] candidates@[a])
                        && candidates@[a] != me,
                forall|a: int|
                    0 <= a < chosen@.len() ==> peers0.contains(#[trigger] chosen@[a])
                        && chosen@[a] != me,
                forall|a: int, b: int|
                    0 <= a < chosen@.len() && 0 <= b < candidates@.len() ==> chosen@[a]
                        != candidates@[b],
                forall|p: PeerId|
                    peers0.contains(p) && p != me ==> candidates@.contains(p)
                        || chosen@.contains(p),
                ch0.len() <= chosen@.len(),
                forall|a: int| 0 <= a < ch0.len() ==> chosen@[a] == ch0[a],
            decreases candidates@.len(),
        {
            let idx = random_below(candidates.len());
            let p = candidates[idx];
            let ghost cpre = candidates@;
            proof {
                lemma_swap_removed(cpre, idx as int);
            }
            let last = candidates.len() - 1;
            let moved = candidates[last];
            candidates.set(idx, moved);
            let _ = candidates.pop();
            let ghost chpre = chosen@;
            chosen.push(p);
            proof {
                assert(candidates@ =~= cpre.update(idx as int, cpre.last()).drop_last());
                assert(forall|a: int| 0 <= a < chpre.len() ==> chosen@[a] == chpre[a]);
                assert(chosen@[chosen@.len() - 1] == p);
                assert forall|a: int, b: int|
                    0 <= a < chosen@.len() && 0 <= b < candidates@.len() implies chosen@[a]
                    != candidates@[b] by {
                    assert(candidates@[b] != cpre[idx as int]);
                    assert(cpre.contains(candidates@[b]));
                    let c = choose|c: int| 0 <= c < cpre.len() && cpre[c] == candidates@[b];
                    if a < chpre.len() {
                        assert(chpre[a] != cpre[c]);
                    }
                }
                assert forall|q: PeerId|
                    peers0.contains(q) && q != me implies candidates@.contains(q)
                    || chosen@.contains(q) by {
                    if cpre.contains(q) {
                        let c = choose|c: int| 0 <= c < cpre.len() && cpre[c] == q;
                        if q == cpre[idx as int] {
                            assert(chosen@[chosen@.len() - 1] == q);
                        } else {
                            assert(candidates@.contains(cpre[c]));
                        }
                    } else {
                        let c = choose|c: int| 0 <= c < chpre.len() && chpre[c] == q;
                        assert(chosen@[c] == q);
                    }
                }
                assert forall|a: int, b: int|
                    0 <= a < b < chosen@.len() implies chosen@[a] != chosen@[b] by {
                    if b == chosen@.len() - 1 {
                        assert(chpre[a] != cpre[idx as int]);
                    }
                }
            }
        }
        proof {
            if peers0.contains(author) && author != me && num > 0 {
                assert(ch0.len() == 1 && ch0[0] == author);
                assert(chosen@[0] == author);
            }
        }
        chosen
    }

    /// Produce a batch for the ordering layer: immediately when it is held
    /// locally (in memory or durable), else start a fetch round and install a
    /// waiter for the digest.
    pub fn get_batch(&mut self, store: &BatchStore, info: BatchInfo) -> (r: GetBatchResult)
        requires
            old(self).wf(),
            store.wf(),
        ensures
            final(self).wf(),
            final(self).spec_my_peer_id() == old(self).spec_my_peer_id(),
            final(self).spec_peers() == old(self).spec_peers(),
            match r {
                GetBatchResult::Local(p) => {
                    &&& store.stored(info.digest) matches Some(b) && payload_view(p@)
                        == payload_view(b.payload@)
                    &&& *final(self) == *old(self)
                },
                GetBatchResult::Fetching(peers) => {
                    &&& store.stored(info.digest) is None
                    &&& final(self).waiter_for(info.digest) matches Some(w) && w.info == info
                        && w.retries_left == old(self).spec_max_fetch_retries()
                    &&& peers@.len() <= old(self).spec_num_peers_per_round()
                    &&& distinct_peer_ids(peers@)
                    &&& forall|i: int|
                        0 <= i < peers@.len() ==> old(self).spec_peers().contains(
                            #[trigger] peers@[i],
                        ) && peers@[i] != old(self).spec_my_peer_id()
                    &&& (peers@.len() == old(self).spec_num_peers_per_round() || (forall|p: PeerId|
                        old(self).spec_peers().contains(p) && p != old(self).spec_my_peer_id()
                            ==> peers@.contains(p)))
                    &&& (old(self).spec_peers().contains(info.author) && info.author != old(
                        self,
                    ).spec_my_peer_id() && old(self).spec_num_peers_per_round() > 0 ==> peers@.len()
                        > 0 && peers@[0] == info.author)
                },
            },
            r is Local <==> store.stored(info.digest) is Some,
            forall|d: u64|
                d != info.digest ==> final(self).waiter_for(d) == old(self).waiter_for(d),
    {
        match store.get_batch_local(info.digest) {
            Some(p) => GetBatchResult::Local(p),
            None => {
                let peers = self.pick_round_peers(info.author);
                let waiter = FetchWaiter { info, retries_left: self.max_fetch_retries };
                match self.waiters.remove_entry(info.digest) {
                    Some(_) => {},
                    None => {},
                }
                self.waiters.insert_new(info.digest, waiter);
                GetBatchResult::Fetching(peers)
            },
        }
    }

    /// An inbound batch response: verify the payload against the waited-for
    /// metadata before accepting; drop it when no waiter exists (a duplicate
    /// of an already satisfied fetch, or unsolicited).
    pub fn handle_response(&mut self, digest: u64, payload: Vec<SerializedTransaction>) -> (r:
        ResponseOutcome)
        requires
            old(self).wf(),
        ensures
            final(self).wf(),
            final(self).spec_my_peer_id() == old(self).spec_my_peer_id(),
            final(self).spec_peers() == old(self).spec_peers(),
            r is Resolved <==> (old(self).waiter_for(digest) matches Some(w) && response_matches(
                w.info,
                digest,
                payload@,
            )),
            r is Rejected <==> (old(self).waiter_for(digest) matches Some(w) && !response_matches(
                w.info,
                digest,
                payload@,
            )),
            r is Dropped <==> old(self).waiter_for(digest) is None,
            match r {
                ResponseOutcome::Resolved(p) => {
                    &&& p@ == payload@
                    &&& final(self).waiter_for(digest) is None
                },
                ResponseOutcome::Rejected => *final(self) == *old(self),
                ResponseOutcome::Dropped => *final(self) == *old(self),
            },
            forall|d: u64|
                d != digest ==> final(self).waiter_for(d) == old(self).waiter_for(d),
    {
        let (epoch, author, batch_id, num_bytes, matches_digest) = match self.waiters.get(digest) {
            None => {
                return ResponseOutcome::Dropped;
            },
            Some(w) => (
                w.info.epoch,
                w.info.author,
                w.info.batch_id,
                w.info.num_bytes,
                w.info.digest == digest,
            ),
        };
        let ok = match compute_digest(epoch, author, batch_id, &payload) {
            Some((d, n)) => d == digest && n == num_bytes && matches_digest,
            None => false,
        };
        if !ok {
            return ResponseOutcome::Rejected;
        }
        let _ = self.waiters.remove_entry(digest);
        ResponseOutcome::Resolved(payload)
    }

    /// The fetch timer for a digest fired: start another round while the
    /// retry budget lasts, else give up with a timeout for the caller.
    pub fn handle_timeout(&mut self, digest: u64) -> (r: TimeoutOutcome)
        requires
            old(self).wf(),
        ensures
            final(self).wf(),
            final(self).spec_my_peer_id() == old(self).spec_my_peer_id(),
            final(self).spec_peers() == old(self).spec_peers(),
            match r {
                TimeoutOutcome::Retry(peers) => {
                    &&& old(self).waiter_for(digest) is Some
                    &&& old(self).waiter_for(digest)->Some_0.retries_left > 0
                    &&& final(self).waiter_for(digest) is Some
                    &&& final(self).waiter_for(digest)->Some_0.info == old(self).waiter_for(
                        digest,
                    )->Some_0.info
                    &&& final(self).waiter_for(digest)->Some_0.retries_left == old(
                        self,
                    ).waiter_for(digest)->Some_0.retries_left - 1
                    &&& peers@.len() <= old(self).spec_num_peers_per_round()
                    &&& distinct_peer_ids(peers@)
                    &&& forall|i: int|
                        0 <= i < peers@.len() ==> old(self).spec_peers().contains(
                            #[trigger] peers@[i],
                        ) && peers@[i] != old(self).spec_my_peer_id()
                    &&& (peers@.len() == old(self).spec_num_peers_per_round() || (forall|p: PeerId|
                        old(self).spec_peers().contains(p) && p != old(self).spec_my_peer_id()
                            ==> peers@.contains(p)))
                    &&& (old(self).spec_peers().contains(
                        old(self).waiter_for(digest)->Some_0.info.author,
                    ) && old(self).waiter_for(digest)->Some_0.info.author != old(
                        self,
                    ).spec_my_peer_id() && old(self).spec_num_peers_per_round() > 0 ==> peers@.len()
                        > 0 && peers@[0] == old(self).waiter_for(digest)->Some_0.info.author)
                },
                TimeoutOutcome::GiveUp(e) => {
                    &&& old(self).waiter_for(digest) is Some
                    &&& old(self).waiter_for(digest)->Some_0.retries_left == 0
                    &&& e == QuorumStoreError::Timeout(
                        old(self).waiter_for(digest)->Some_0.info.batch_id,
                    )
                    &&& final(self).waiter_for(digest) is None
                },
                TimeoutOutcome::Ignored => old(self).waiter_for(digest) is None
                    && final(self).waiter_for(digest) is None,
            },
            forall|d: u64|
                d != digest ==> final(self).waiter_for(d) == old(self).waiter_for(d),
    {
        let w = match self.waiters.remove_entry(digest) {
            None => {
                return TimeoutOutcome::Ignored;
            },
            Some(w) => w,
        };
        if w.retries_left == 0 {
            return TimeoutOutcome::GiveUp(QuorumStoreError::Timeout(w.info.batch_id));
        }
        let peers = self.pick_round_peers(w.info.author);
        let next = FetchWaiter { info: w.info, retries_left: w.retries_left - 1 };
        self.waiters.insert_new(digest, next);
        TimeoutOutcome::Retry(peers)
    }

    /// The ordering layer committed a round: evict expired batches from the
    /// store, from memory and durable storage alike.
    pub fn update_committed_round(&self, store: &mut BatchStore, round: u64)
        requires
            old(store).wf(),
        ensures
            final(store).wf(),
            final(store).same_config(old(store)),
            final(store).spec_last_committed_round() == round,
            forall|d: u64|
                final(store).stored(d) == match old(store).stored(d) {
                    Some(b) => if crate::batch_store::expired(
                        b.info,
                        old(store).spec_grace(),
                        round,
                    ) {
                        None
                    } else {
                        Some(b)
                    },
                    None => None::<crate::batch_store::StoredBatch>,
                },
    {
        store.clean(round);
    }
}

} // verus!
