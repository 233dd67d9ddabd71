use quorum_store::batch_aggregator::{BatchAggregationError, BatchAggregator};
use quorum_store::batch_reader::{GetBatchResult, ResponseOutcome, TimeoutOutcome};
use quorum_store::batch_store::{FragmentOutcome, PersistError};
use quorum_store::digest::compute_digest;
use quorum_store::network_listener::{BatchRequest, ConsensusMsg, Destination};
use quorum_store::proof_builder::ProofUpdate;
use quorum_store::types::{
    BatchInfo, Fragment, LogicalTime, PersistRequest, QuorumStoreError, SerializedTransaction,
};
use quorum_store::validator_verifier::{ValidatorInfo, ValidatorSigner, ValidatorVerifier};
use quorum_store::{QuorumStore, QuorumStoreConfig};

fn config() -> QuorumStoreConfig {
    QuorumStoreConfig {
        channel_size: 100,
        proof_timeout_ms: 1000,
        batch_request_num_peers: 2,
        end_batch_ms: 500,
        max_batch_bytes: 1_000_000,
        batch_request_timeout_ms: 200,
        max_batch_expiry_round_gap: 100,
        batch_expiry_grace_rounds: 5,
        max_batch_size: 1_000_000,
        memory_quota: 120_000,
        db_quota: 300_000,
        mempool_txn_pull_max_count: 100,
    }
}

fn validators4() -> Vec<ValidatorInfo> {
    vec![
        ValidatorInfo { peer: 1, voting_power: 1 },
        ValidatorInfo { peer: 2, voting_power: 1 },
        ValidatorInfo { peer: 3, voting_power: 1 },
        ValidatorInfo { peer: 4, voting_power: 1 },
    ]
}

fn txns(count: usize, size: usize, tag: u8) -> Vec<SerializedTransaction> {
    let mut out = Vec::new();
    let mut i = 0;
    while i < count {
        out.push(SerializedTransaction::new(vec![tag; size]));
        i += 1;
    }
    out
}

fn payload_bytes(payload: &Vec<SerializedTransaction>) -> Vec<Vec<u8>> {
    payload.iter().map(|t| t.bytes.clone()).collect()
}

/// Single author, three fragments of 100 txns each, four validators with
/// quorum 3: after the end of the batch the caller receives a proof of store
/// carrying at least three signatures, the author's among them.
#[test]
fn happy_path_quorum() {
    let cfg = config();
    let (mut worker, mut store1, mut builder1, _reader1, _listener1) =
        QuorumStore::new(7, 0, 1, &cfg, validators4());
    let mut peer_stores = Vec::new();
    for p in [2u64, 3, 4] {
        let (_w, s, _b, _r, _l) = QuorumStore::new(7, 0, p, &cfg, validators4());
        peer_stores.push(s);
    }

    let f0 = worker.handle_append_to_batch(txns(100, 8, 1), 1);
    let f1 = worker.handle_append_to_batch(txns(100, 8, 2), 1);
    assert_eq!(f0.fragment_id, 0);
    assert_eq!(f1.fragment_id, 1);
    for s in peer_stores.iter_mut() {
        assert!(matches!(s.handle_fragment(f0.clone()), FragmentOutcome::Appended));
        assert!(matches!(s.handle_fragment(f1.clone()), FragmentOutcome::Appended));
    }

    let request = worker.handle_end_batch(txns(100, 8, 3), 1, LogicalTime::new(7, 50));
    let digest = request.info.digest;
    let self_signed = store1.persist(request).expect("own persist succeeds");
    assert_eq!(self_signed.signer, 1);
    let final_fragment = worker.handle_self_signed(&self_signed).expect("stash holds the digest");
    assert_eq!(final_fragment.maybe_expiry, Some(LogicalTime::new(7, 50)));
    assert!(matches!(builder1.init_proof(&self_signed), ProofUpdate::Added));

    let mut proof = None;
    for s in peer_stores.iter_mut() {
        match s.handle_fragment(final_fragment.clone()) {
            FragmentOutcome::Stored(sd) => {
                assert_eq!(sd.info.digest, digest);
                match builder1.append_signature(&sd) {
                    ProofUpdate::Added => {}
                    ProofUpdate::Completed(pos) => proof = Some(pos),
                    ProofUpdate::NotTracked => assert!(proof.is_some()),
                    other => panic!("unexpected update: {:?}", other),
                }
            }
            other => panic!("peer did not store the batch: {:?}", other),
        }
    }
    let pos = proof.expect("quorum reached");
    assert!(pos.signatures.len() >= 3);
    assert!(pos.signatures.iter().any(|(signer, _)| *signer == 1));
    let verifier = ValidatorVerifier::new(validators4());
    assert!(verifier.verify_proof(&pos));
    assert_eq!(builder1.num_tracked(), 0);
}

/// Three peers drop all signed digests: the timer fires, the caller receives
/// the timeout carrying the batch id, the table is empty, and a late
/// signature is ignored.
#[test]
fn proof_timeout_empties_table() {
    let cfg = config();
    let (mut worker, mut store1, mut builder1, _r, _l) =
        QuorumStore::new(7, 0, 1, &cfg, validators4());
    let request = worker.handle_end_batch(txns(10, 8, 1), 9, LogicalTime::new(7, 40));
    let digest = request.info.digest;
    let info = request.info;
    let self_signed = store1.persist(request).expect("own persist succeeds");
    assert!(matches!(builder1.init_proof(&self_signed), ProofUpdate::Added));

    let timeout = builder1.timer_elapsed(digest);
    assert_eq!(timeout, Some(QuorumStoreError::Timeout(9)));
    assert_eq!(builder1.num_tracked(), 0);

    let late = ValidatorSigner::new(2).sign(&info);
    assert!(matches!(builder1.append_signature(&late), ProofUpdate::NotTracked));
    assert!(matches!(builder1.timer_elapsed(digest), None));
}

/// A peer receives fragment 1 before fragment 0 of batch 7: the aggregation
/// is rejected and reset; batch 7 stays dead; batch 8 then begins correctly.
#[test]
fn out_of_order_fragment_resets() {
    let cfg = config();
    let (_w, mut store, _b, _r, _l) = QuorumStore::new(7, 0, 3, &cfg, validators4());
    let expiry = LogicalTime::new(7, 30);

    let late = Fragment::new(7, 7, 1, txns(2, 4, 1), None, 2);
    assert!(matches!(store.handle_fragment(late), FragmentOutcome::Ignored));
    let first_of_dead = Fragment::new(7, 7, 0, txns(2, 4, 2), None, 2);
    assert!(matches!(store.handle_fragment(first_of_dead), FragmentOutcome::Ignored));

    let fresh = Fragment::new(7, 8, 0, txns(2, 4, 3), None, 2);
    assert!(matches!(store.handle_fragment(fresh), FragmentOutcome::Appended));
    let last = Fragment::new(7, 8, 1, txns(2, 4, 4), Some(expiry), 2);
    match store.handle_fragment(last) {
        FragmentOutcome::Stored(sd) => {
            assert_eq!(sd.info.author, 2);
            assert_eq!(sd.info.batch_id, 8);
        }
        other => panic!("batch 8 did not complete: {:?}", other),
    }
}

/// With a 10 KB memory quota, five 3 KB batches: after the fourth at least
/// one payload is evicted from memory while its metadata and durable copy
/// remain, and the evicted batch is still produced locally.
#[test]
fn quota_eviction_keeps_durable() {
    let mut cfg = config();
    cfg.memory_quota = 10 * 1024;
    cfg.db_quota = 300_000;
    let (_w, mut store, _b, _r, _l) = QuorumStore::new(7, 0, 1, &cfg, validators4());

    let mut digests = Vec::new();
    for i in 0..5u64 {
        let payload = txns(1, 3 * 1024, i as u8 + 1);
        let (digest, num_bytes) = compute_digest(7, 2, 10 + i, &payload).unwrap();
        let info = BatchInfo {
            epoch: 7,
            author: 2,
            batch_id: 10 + i,
            digest,
            expiry: LogicalTime::new(7, 10 * (i + 1)),
            num_bytes,
        };
        store.persist(PersistRequest::new(info, payload)).expect("persist fits the db quota");
        digests.push(digest);
        assert!(store.mem_used() <= cfg.memory_quota as u64);
        assert!(store.db_used() <= cfg.db_quota as u64);
    }
    let evicted: Vec<u64> = digests.iter().copied().filter(|d| !store.is_in_memory(*d)).collect();
    assert!(!evicted.is_empty());
    // the earliest-expiry batch is evicted first
    assert!(evicted.contains(&digests[0]));
    for d in &digests {
        assert!(store.get_info(*d).is_some());
        let payload = store.get_batch_local(*d).expect("durable copy remains");
        assert_eq!(payload.len(), 1);
        assert_eq!(payload[0].bytes.len(), 3 * 1024);
    }
}

/// A local read of an absent digest issues requests to
/// `batch_request_num_peers` peers, the author first; the first matching
/// response resolves the waiter and a later duplicate is discarded.
#[test]
fn fetch_round_and_response() {
    let cfg = config();
    let (_w, store, _b, mut reader, _l) = QuorumStore::new(7, 0, 1, &cfg, validators4());

    let payload = txns(3, 16, 9);
    let (digest, num_bytes) = compute_digest(7, 2, 5, &payload).unwrap();
    let info = BatchInfo {
        epoch: 7,
        author: 2,
        batch_id: 5,
        digest,
        expiry: LogicalTime::new(7, 20),
        num_bytes,
    };

    match reader.get_batch(&store, info) {
        GetBatchResult::Fetching(peers) => {
            assert_eq!(peers.len(), cfg.batch_request_num_peers);
            assert_eq!(peers[0], 2);
            assert!(!peers.contains(&1));
        }
        GetBatchResult::Local(_) => panic!("digest cannot be local"),
    }

    let wrong = txns(3, 16, 8);
    assert!(matches!(reader.handle_response(digest, wrong), ResponseOutcome::Rejected));
    match reader.handle_response(digest, payload.clone()) {
        ResponseOutcome::Resolved(p) => assert_eq!(payload_bytes(&p), payload_bytes(&payload)),
        other => panic!("matching response did not resolve: {:?}", stringify_outcome(&other)),
    }
    assert!(matches!(reader.handle_response(digest, payload), ResponseOutcome::Dropped));
}

fn stringify_outcome(o: &ResponseOutcome) -> &'static str {
    match o {
        ResponseOutcome::Resolved(_) => "resolved",
        ResponseOutcome::Rejected => "rejected",
        ResponseOutcome::Dropped => "dropped",
    }
}

/// A fetch timer fires: another round of peers is tried while the retry
/// budget lasts, then the caller receives the timeout.
#[test]
fn fetch_timeout_retries_then_gives_up() {
    let cfg = config();
    let (_w, store, _b, mut reader, _l) = QuorumStore::new(7, 0, 1, &cfg, validators4());
    let payload = txns(1, 8, 3);
    let (digest, num_bytes) = compute_digest(7, 3, 2, &payload).unwrap();
    let info = BatchInfo {
        epoch: 7,
        author: 3,
        batch_id: 2,
        digest,
        expiry: LogicalTime::new(7, 20),
        num_bytes,
    };
    assert!(matches!(reader.get_batch(&store, info), GetBatchResult::Fetching(_)));
    match reader.handle_timeout(digest) {
        TimeoutOutcome::Retry(peers) => assert_eq!(peers[0], 3),
        _ => panic!("first timeout must retry"),
    }
    match reader.handle_timeout(digest) {
        TimeoutOutcome::GiveUp(e) => assert_eq!(e, QuorumStoreError::Timeout(2)),
        _ => panic!("second timeout must give up"),
    }
    assert!(matches!(reader.handle_timeout(digest), TimeoutOutcome::Ignored));
}

/// A batch with expiry round 100 under grace 10 survives a committed round of
/// 109 and is gone from memory and durable storage after round 111.
#[test]
fn expiry_cleans_memory_and_db() {
    let mut cfg = config();
    cfg.batch_expiry_grace_rounds = 10;
    let (_w, mut store, _b, reader, _l) = QuorumStore::new(7, 0, 1, &cfg, validators4());
    let payload = txns(2, 32, 5);
    let (digest, num_bytes) = compute_digest(7, 2, 3, &payload).unwrap();
    let info = BatchInfo {
        epoch: 7,
        author: 2,
        batch_id: 3,
        digest,
        expiry: LogicalTime::new(7, 100),
        num_bytes,
    };
    store.persist(PersistRequest::new(info, payload)).unwrap();

    reader.update_committed_round(&mut store, 109);
    assert!(store.get_info(digest).is_some());

    reader.update_committed_round(&mut store, 111);
    assert!(store.get_info(digest).is_none());
    assert!(store.get_batch_local(digest).is_none());
    assert_eq!(store.db_used(), 0);
    assert_eq!(store.mem_used(), 0);
}

/// The digest produced incrementally while fragments stream in equals the
/// canonical digest of the assembled payload hashed in one pass.
#[test]
fn incremental_digest_matches_whole() {
    let mut agg = BatchAggregator::new(7, 2, 1_000_000);
    let part1 = txns(3, 10, 1);
    let part2 = txns(2, 20, 2);
    let part3 = txns(4, 5, 3);
    let mut whole = Vec::new();
    for t in part1.iter().chain(part2.iter()).chain(part3.iter()) {
        whole.push(SerializedTransaction::new(t.bytes.clone()));
    }
    agg.append_transactions(1, 0, part1).unwrap();
    agg.append_transactions(1, 1, part2).unwrap();
    let (num_bytes, assembled, digest) = agg.end_batch(1, 2, part3).unwrap();
    let (expected_digest, expected_bytes) = compute_digest(7, 2, 1, &whole).unwrap();
    assert_eq!(digest, expected_digest);
    assert_eq!(num_bytes, expected_bytes);
    assert_eq!(payload_bytes(&assembled), payload_bytes(&whole));
}

/// Each aggregation error comes on exactly its input: a wrong batch id, a
/// fragment out of order, and a payload over the byte budget.
#[test]
fn aggregation_error_variants() {
    let mut agg = BatchAggregator::new(7, 2, 64);
    assert_eq!(agg.append_transactions(5, 1, txns(1, 4, 1)), Err(BatchAggregationError::OutOfOrder));
    // batch 5 is now dead
    assert_eq!(agg.append_transactions(5, 0, txns(1, 4, 1)), Err(BatchAggregationError::WrongBatch));
    assert_eq!(agg.append_transactions(6, 0, txns(1, 4, 1)), Ok(()));
    assert_eq!(
        agg.append_transactions(4, 1, txns(1, 4, 1)),
        Err(BatchAggregationError::WrongBatch),
    );
    assert_eq!(
        agg.append_transactions(6, 1, txns(1, 100, 1)),
        Err(BatchAggregationError::SizeExceeded),
    );
    // the failure dropped batch 6; a later batch starts fresh
    assert_eq!(agg.append_transactions(7, 0, txns(1, 4, 1)), Ok(()));
}

/// Each persist refusal comes on exactly its input: a foreign epoch, a digest
/// that does not match the payload, and a payload over the durable quota.
#[test]
fn persist_error_variants() {
    let mut cfg = config();
    cfg.db_quota = 100;
    let (_w, mut store, _b, _r, _l) = QuorumStore::new(7, 0, 1, &cfg, validators4());
    let payload = txns(1, 16, 1);
    let (digest, num_bytes) = compute_digest(7, 2, 1, &payload).unwrap();
    let expiry = LogicalTime::new(7, 10);

    let foreign = BatchInfo { epoch: 8, author: 2, batch_id: 1, digest, expiry, num_bytes };
    assert_eq!(
        store.persist(PersistRequest::new(foreign, txns(1, 16, 1))),
        Err(PersistError::WrongEpoch),
    );

    let tampered = BatchInfo {
        epoch: 7,
        author: 2,
        batch_id: 1,
        digest: digest.wrapping_add(1),
        expiry,
        num_bytes,
    };
    assert_eq!(
        store.persist(PersistRequest::new(tampered, txns(1, 16, 1))),
        Err(PersistError::DigestMismatch),
    );

    let big = txns(1, 200, 2);
    let (big_digest, big_bytes) = compute_digest(7, 2, 2, &big).unwrap();
    let big_info = BatchInfo {
        epoch: 7,
        author: 2,
        batch_id: 2,
        digest: big_digest,
        expiry,
        num_bytes: big_bytes,
    };
    assert_eq!(
        store.persist(PersistRequest::new(big_info, big)),
        Err(PersistError::QuotaExceeded),
    );

    let good = BatchInfo { epoch: 7, author: 2, batch_id: 1, digest, expiry, num_bytes };
    let sd = store.persist(PersistRequest::new(good, payload)).unwrap();
    assert_eq!(sd.info.digest, digest);
}

/// Signatures from a non-validator or over tampered metadata are rejected;
/// duplicate signers are counted once; mismatched metadata is refused.
#[test]
fn signature_checks_and_duplicates() {
    let cfg = config();
    let (mut worker, mut store, mut builder, _r, _l) =
        QuorumStore::new(7, 0, 1, &cfg, validators4());
    let request = worker.handle_end_batch(txns(4, 8, 1), 2, LogicalTime::new(7, 30));
    let info = request.info;
    let self_signed = store.persist(request).unwrap();
    assert!(matches!(builder.init_proof(&self_signed), ProofUpdate::Added));
    assert!(matches!(builder.init_proof(&self_signed), ProofUpdate::AlreadyTracked));

    let outsider = ValidatorSigner::new(99).sign(&info);
    assert!(matches!(builder.append_signature(&outsider), ProofUpdate::InvalidSignature));

    let mut tampered = ValidatorSigner::new(2).sign(&info);
    tampered.signature = tampered.signature.wrapping_add(1);
    assert!(matches!(builder.append_signature(&tampered), ProofUpdate::InvalidSignature));

    let mut wrong_info = info;
    wrong_info.num_bytes = wrong_info.num_bytes.wrapping_add(1);
    let mismatched = ValidatorSigner::new(2).sign(&wrong_info);
    assert!(matches!(builder.append_signature(&mismatched), ProofUpdate::WrongInfo));

    let dup = ValidatorSigner::new(1).sign(&info);
    assert!(matches!(builder.append_signature(&dup), ProofUpdate::DuplicateSigner));

    let ok = ValidatorSigner::new(2).sign(&info);
    assert!(matches!(builder.append_signature(&ok), ProofUpdate::Added));
}

/// A proof with a duplicated signer or a forged signature does not verify; a
/// quorum of authentic, distinct signatures does.
#[test]
fn proof_verification() {
    let verifier = ValidatorVerifier::new(validators4());
    let info = BatchInfo {
        epoch: 7,
        author: 1,
        batch_id: 1,
        digest: 42,
        expiry: LogicalTime::new(7, 10),
        num_bytes: 0,
    };
    let mut sigs = Vec::new();
    for p in [1u64, 2, 3] {
        let sd = ValidatorSigner::new(p).sign(&info);
        sigs.push((sd.signer, sd.signature));
    }
    let pos = quorum_store::types::ProofOfStore { info, signatures: sigs.clone() };
    assert!(verifier.verify_proof(&pos));

    let mut dup = sigs.clone();
    dup[2] = dup[0];
    let pos_dup = quorum_store::types::ProofOfStore { info, signatures: dup };
    assert!(!verifier.verify_proof(&pos_dup));

    let mut forged = sigs.clone();
    forged[2].1 = forged[2].1.wrapping_add(1);
    let pos_forged = quorum_store::types::ProofOfStore { info, signatures: forged };
    assert!(!verifier.verify_proof(&pos_forged));

    let short = vec![sigs[0], sigs[1]];
    let pos_short = quorum_store::types::ProofOfStore { info, signatures: short };
    assert!(!verifier.verify_proof(&pos_short));
}

/// Every message kind is routed to its component; a foreign epoch is dropped.
#[test]
fn listener_routes_by_kind_and_epoch() {
    let cfg = config();
    let (_w, _s, _b, _r, listener) = QuorumStore::new(7, 0, 1, &cfg, validators4());
    let fragment = Fragment::new(7, 1, 0, txns(1, 4, 1), None, 2);
    match listener.route(ConsensusMsg::FragmentMsg(fragment)) {
        Some(Destination::StoreFragment(f)) => assert_eq!(f.batch_id, 1),
        _ => panic!("fragment must go to the store"),
    }
    let stale = Fragment::new(6, 1, 0, txns(1, 4, 1), None, 2);
    assert!(listener.route(ConsensusMsg::FragmentMsg(stale)).is_none());

    let info = BatchInfo {
        epoch: 7,
        author: 2,
        batch_id: 1,
        digest: 9,
        expiry: LogicalTime::new(7, 10),
        num_bytes: 0,
    };
    let sd = ValidatorSigner::new(2).sign(&info);
    assert!(matches!(
        listener.route(ConsensusMsg::SignedDigestMsg(sd)),
        Some(Destination::BuilderSignedDigest(_))
    ));
    let req = BatchRequest { epoch: 7, digest: 9, requester: 2 };
    assert!(matches!(
        listener.route(ConsensusMsg::BatchRequestMsg(req)),
        Some(Destination::StoreBatchRequest(_))
    ));
    let stale_req = BatchRequest { epoch: 5, digest: 9, requester: 2 };
    assert!(listener.route(ConsensusMsg::BatchRequestMsg(stale_req)).is_none());
}

/// A served batch request returns exactly the stored payload, and an unknown
/// digest returns nothing.
#[test]
fn batch_request_serves_local_payload() {
    let cfg = config();
    let (_w, mut store, _b, _r, _l) = QuorumStore::new(7, 0, 1, &cfg, validators4());
    let payload = txns(2, 12, 6);
    let (digest, num_bytes) = compute_digest(7, 3, 4, &payload).unwrap();
    let info = BatchInfo {
        epoch: 7,
        author: 3,
        batch_id: 4,
        digest,
        expiry: LogicalTime::new(7, 40),
        num_bytes,
    };
    store.persist(PersistRequest::new(info, payload.clone())).unwrap();
    let served = store.get_batch_local(digest).expect("present locally");
    assert_eq!(payload_bytes(&served), payload_bytes(&payload));
    assert!(store.get_batch_local(digest.wrapping_add(1)).is_none());
}

/// A fragment announcing a newer batch from the same author replaces the
/// in-progress one.
#[test]
fn newer_batch_replaces_in_progress() {
    let cfg = config();
    let (_w, mut store, _b, _r, _l) = QuorumStore::new(7, 0, 1, &cfg, validators4());
    assert!(matches!(
        store.handle_fragment(Fragment::new(7, 5, 0, txns(1, 4, 1), None, 2)),
        FragmentOutcome::Appended
    ));
    // batch 6 begins although batch 5 never finished
    assert!(matches!(
        store.handle_fragment(Fragment::new(7, 6, 0, txns(1, 4, 2), None, 2)),
        FragmentOutcome::Appended
    ));
    // batch 5 is gone
    assert!(matches!(
        store.handle_fragment(Fragment::new(7, 5, 1, txns(1, 4, 3), None, 2)),
        FragmentOutcome::Ignored
    ));
    match store.handle_fragment(Fragment::new(7, 6, 1, txns(1, 4, 4), Some(LogicalTime::new(7, 9)), 2)) {
        FragmentOutcome::Stored(sd) => assert_eq!(sd.info.batch_id, 6),
        other => panic!("batch 6 did not complete: {:?}", other),
    }
}

/// Shutdown drops every entry of the proof builder, and cleaning twice at the
/// same round changes nothing more.
#[test]
fn shutdown_and_clean_idempotence() {
    let cfg = config();
    let (mut worker, mut store, mut builder, reader, _l) =
        QuorumStore::new(7, 0, 1, &cfg, validators4());
    let request = worker.handle_end_batch(txns(1, 8, 1), 1, LogicalTime::new(7, 3));
    let digest = request.info.digest;
    let sd = store.persist(request).unwrap();
    assert!(matches!(builder.init_proof(&sd), ProofUpdate::Added));
    builder.shutdown();
    assert_eq!(builder.num_tracked(), 0);

    reader.update_committed_round(&mut store, 100);
    assert!(store.get_info(digest).is_none());
    reader.update_committed_round(&mut store, 100);
    assert!(store.get_info(digest).is_none());
    assert_eq!(store.db_used(), 0);
}

/// An inbound proof of store is a hint: a validator that lacks the batch
/// should fetch it; one that holds it need not.
#[test]
fn proof_of_store_triggers_fetch_when_absent() {
    let cfg = config();
    let (_w, mut store, _b, mut reader, _l) = QuorumStore::new(7, 0, 1, &cfg, validators4());
    let payload = txns(2, 8, 4);
    let (digest, num_bytes) = compute_digest(7, 3, 6, &payload).unwrap();
    let info = BatchInfo {
        epoch: 7,
        author: 3,
        batch_id: 6,
        digest,
        expiry: LogicalTime::new(7, 25),
        num_bytes,
    };
    let mut sigs = Vec::new();
    for p in [2u64, 3, 4] {
        let sd = ValidatorSigner::new(p).sign(&info);
        sigs.push((sd.signer, sd.signature));
    }
    let pos = quorum_store::types::ProofOfStore { info, signatures: sigs };

    assert!(store.handle_proof_of_store(&pos));
    match reader.get_batch(&store, pos.info) {
        GetBatchResult::Fetching(peers) => assert_eq!(peers[0], 3),
        GetBatchResult::Local(_) => panic!("batch cannot be local yet"),
    }
    match reader.handle_response(digest, payload.clone()) {
        ResponseOutcome::Resolved(p) => {
            // the fetched payload is persisted so the batch is served from now on
            store.persist(PersistRequest::new(info, p)).unwrap();
        }
        _ => panic!("matching response must resolve"),
    }
    assert!(!store.handle_proof_of_store(&pos));
    assert_eq!(payload_bytes(&store.get_batch_local(digest).unwrap()), payload_bytes(&payload));
}
