use mysocial_network::actor::{
    ActorState, AuthorityEntry, CompleteOutcome, DkgOutput, ReceiveOutcome, SendOutcome,
    UpdateEpochError,
};
use mysocial_network::codec::encode_partial_signature;
use mysocial_network::metrics::Metrics;
use mysocial_network::signer::{make_full_signature, sign_partial, FullSignature};

fn entry(name: u64, peer_id: u64, party_id: u16, share_ids: Vec<u64>) -> AuthorityEntry {
    AuthorityEntry { name, peer_id, party_id, share_ids }
}

/// Three validators, one share each; this node is validator 1 with share 0.
fn committee3() -> Vec<AuthorityEntry> {
    vec![
        entry(1, 101, 0, vec![0]),
        entry(2, 102, 1, vec![1]),
        entry(3, 103, 2, vec![2]),
    ]
}

fn actor_epoch1_threshold2() -> ActorState {
    let mut a = ActorState::new(Metrics::enabled(), 100);
    let r = a.update_epoch(
        1,
        committee3(),
        DkgOutput { key: 7, share_ids: vec![0] },
        2,
        None,
    );
    assert!(r.is_ok());
    a
}

#[test]
fn round_trip_three_validators() {
    let mut a = actor_epoch1_threshold2();

    // Validator A starts broadcasting its partial signature for round 5.
    match a.send_partial_signatures(1, 5) {
        SendOutcome::Started(req, peers) => {
            assert_eq!(req.epoch, 1);
            assert_eq!(req.round, 5);
            assert!(req.sig.is_none());
            assert_eq!(req.partial_sigs.len(), 1);
            assert_eq!(
                req.partial_sigs[0],
                encode_partial_signature(&sign_partial(7, 5, 0))
            );
            assert_eq!(peers, vec![101, 102, 103]);
        },
        other => panic!("expected broadcast start, got {:?}", other),
    }

    // B contributes its partial signature: one share, below the threshold.
    let b_sig = encode_partial_signature(&sign_partial(7, 5, 1));
    match a.receive_signatures(102, 1, 5, vec![b_sig], None) {
        ReceiveOutcome::Stored => {},
        other => panic!("expected stored, got {:?}", other),
    }
    assert_eq!(a.metrics.num_rounds_pending(), Some(1));
    assert_eq!(a.highest_completed_round, None);

    // C's independent partial reaches the threshold: A aggregates, verifies
    // and emits exactly one completion.
    let c_sig = encode_partial_signature(&sign_partial(7, 5, 2));
    match a.receive_signatures(103, 1, 5, vec![c_sig], None) {
        ReceiveOutcome::Completed(ev) => {
            assert_eq!(ev.epoch, 1);
            assert_eq!(ev.round, 5);
            assert_eq!(ev.randomness, make_full_signature(7, 5).bytes);
        },
        other => panic!("expected completion, got {:?}", other),
    }
    assert_eq!(a.highest_completed_round, Some(5));
    assert_eq!(a.metrics.num_rounds_pending(), Some(0));
    assert_eq!(a.metrics.round_completion_sequence, Some(5));

    // A third incoming partial for round 5 thereafter is a no-op.
    let b_again = encode_partial_signature(&sign_partial(7, 5, 1));
    match a.receive_signatures(102, 1, 5, vec![b_again], None) {
        ReceiveOutcome::IgnoredStaleRound => {},
        other => panic!("expected stale drop, got {:?}", other),
    }
    assert_eq!(a.highest_completed_round, Some(5));
}

#[test]
fn short_circuit_full_signature() {
    let mut a = actor_epoch1_threshold2();

    // An invalid full signature is rejected and does not complete the round.
    let bad = FullSignature { bytes: vec![1, 2, 3] };
    match a.receive_signatures(102, 1, 5, vec![], Some(bad)) {
        ReceiveOutcome::RejectedFullSignature => {},
        other => panic!("expected rejection, got {:?}", other),
    }
    assert_eq!(a.highest_completed_round, None);

    // A full signature that verifies completes the round directly.
    let good = make_full_signature(7, 5);
    match a.receive_signatures(102, 1, 5, vec![], Some(good)) {
        ReceiveOutcome::Completed(ev) => {
            assert_eq!(ev.round, 5);
            assert_eq!(ev.randomness, make_full_signature(7, 5).bytes);
        },
        other => panic!("expected completion, got {:?}", other),
    }
    assert_eq!(a.highest_completed_round, Some(5));
}

#[test]
fn below_threshold_never_completes() {
    let mut a = actor_epoch1_threshold2();
    let b_sig = encode_partial_signature(&sign_partial(7, 9, 1));
    match a.receive_signatures(102, 1, 9, vec![b_sig], None) {
        ReceiveOutcome::Stored => {},
        other => panic!("expected stored, got {:?}", other),
    }
    // One distinct contributor is below the threshold of two: the round is
    // pending, never reported complete.
    assert_eq!(a.highest_completed_round, None);
    assert_eq!(a.rounds.len(), 1);
    assert_eq!(a.rounds[0].round, 9);
}

#[test]
fn wrong_share_index_flags_sender_byzantine() {
    let mut a = actor_epoch1_threshold2();

    // B claims C's share index 2: the message is discarded whole and B is
    // flagged Byzantine.
    let forged = encode_partial_signature(&sign_partial(7, 5, 2));
    match a.receive_signatures(102, 1, 5, vec![forged], None) {
        ReceiveOutcome::MarkedByzantine => {},
        other => panic!("expected byzantine flag, got {:?}", other),
    }
    assert_eq!(a.byzantine_peers, vec![102]);
    assert_eq!(a.metrics.num_ignored_byzantine_peers, Some(1));
    assert_eq!(a.rounds.len(), 0);

    // A subsequent valid message from B in the same epoch is still dropped.
    let valid = encode_partial_signature(&sign_partial(7, 5, 1));
    match a.receive_signatures(102, 1, 5, vec![valid], None) {
        ReceiveOutcome::IgnoredByzantinePeer => {},
        other => panic!("expected exclusion, got {:?}", other),
    }
    assert_eq!(a.rounds.len(), 0);

    // C is unaffected.
    let c_sig = encode_partial_signature(&sign_partial(7, 5, 2));
    match a.receive_signatures(103, 1, 5, vec![c_sig], None) {
        ReceiveOutcome::Stored => {},
        other => panic!("expected stored, got {:?}", other),
    }
}

#[test]
fn malformed_entry_flags_sender_byzantine() {
    let mut a = actor_epoch1_threshold2();
    // Too short to carry a share index.
    match a.receive_signatures(102, 1, 5, vec![vec![1, 2, 3]], None) {
        ReceiveOutcome::MarkedByzantine => {},
        other => panic!("expected byzantine flag, got {:?}", other),
    }
    assert_eq!(a.byzantine_peers, vec![102]);
}

#[test]
fn unordered_shares_flag_sender_byzantine() {
    let mut a = ActorState::new(Metrics::enabled(), 100);
    let committee = vec![entry(1, 101, 0, vec![0, 1]), entry(2, 102, 1, vec![2, 3])];
    a.update_epoch(1, committee, DkgOutput { key: 7, share_ids: vec![0, 1] }, 3, None)
        .unwrap();
    // B owns shares 2 and 3 but sends them out of order.
    let s3 = encode_partial_signature(&sign_partial(7, 5, 3));
    let s2 = encode_partial_signature(&sign_partial(7, 5, 2));
    match a.receive_signatures(102, 1, 5, vec![s3, s2], None) {
        ReceiveOutcome::MarkedByzantine => {},
        other => panic!("expected byzantine flag, got {:?}", other),
    }
}

#[test]
fn complete_round_is_idempotent_and_final() {
    let mut a = actor_epoch1_threshold2();
    let b_sig = encode_partial_signature(&sign_partial(7, 5, 1));
    a.receive_signatures(102, 1, 5, vec![b_sig], None);
    assert_eq!(a.rounds.len(), 1);

    // The round is learned complete through another path.
    assert_eq!(a.complete_round(1, 5), CompleteOutcome::Completed);
    assert_eq!(a.highest_completed_round, Some(5));
    assert_eq!(a.rounds.len(), 0);

    // Re-entrant completion attempts are no-ops.
    assert_eq!(a.complete_round(1, 5), CompleteOutcome::AlreadyCompleted);
    assert_eq!(a.complete_round(1, 3), CompleteOutcome::AlreadyCompleted);
    assert_eq!(a.highest_completed_round, Some(5));

    // Further signatures for the round never re-emit a completion and never
    // move the watermark backwards.
    let c_sig = encode_partial_signature(&sign_partial(7, 5, 2));
    match a.receive_signatures(103, 1, 5, vec![c_sig], None) {
        ReceiveOutcome::IgnoredStaleRound => {},
        other => panic!("expected stale drop, got {:?}", other),
    }
    assert_eq!(a.highest_completed_round, Some(5));
}

#[test]
fn epoch_transition_discards_old_state() {
    let mut a = actor_epoch1_threshold2();
    let b_sig = encode_partial_signature(&sign_partial(7, 9, 1));
    a.receive_signatures(102, 1, 9, vec![b_sig], None);
    let forged = encode_partial_signature(&sign_partial(7, 9, 0));
    a.receive_signatures(103, 1, 9, vec![forged], None);
    assert_eq!(a.rounds.len(), 1);
    assert_eq!(a.byzantine_peers, vec![103]);

    // Transition to epoch 2 with a fresh committee.
    let r = a.update_epoch(
        2,
        committee3(),
        DkgOutput { key: 8, share_ids: vec![0] },
        2,
        None,
    );
    assert!(r.is_ok());
    assert_eq!(a.epoch, 2);
    assert_eq!(a.rounds.len(), 0);
    assert_eq!(a.byzantine_peers.len(), 0);
    assert_eq!(a.highest_completed_round, None);
    assert_eq!(a.metrics.epoch, Some(2));

    // A message for the old epoch arriving after the transition is a no-op.
    let old_epoch_sig = encode_partial_signature(&sign_partial(7, 9, 1));
    match a.receive_signatures(102, 1, 9, vec![old_epoch_sig], None) {
        ReceiveOutcome::IgnoredWrongEpoch => {},
        other => panic!("expected wrong-epoch drop, got {:?}", other),
    }
    assert_eq!(a.rounds.len(), 0);
}

#[test]
fn recovered_watermark_seeds_epoch() {
    let mut a = ActorState::new(Metrics::enabled(), 100);
    a.update_epoch(
        3,
        committee3(),
        DkgOutput { key: 9, share_ids: vec![0] },
        2,
        Some(41),
    )
    .unwrap();
    assert_eq!(a.highest_completed_round, Some(41));
    // Rounds at or below the recovered watermark are stale.
    let b_sig = encode_partial_signature(&sign_partial(9, 41, 1));
    match a.receive_signatures(102, 3, 41, vec![b_sig], None) {
        ReceiveOutcome::IgnoredStaleRound => {},
        other => panic!("expected stale drop, got {:?}", other),
    }
}

#[test]
fn update_epoch_rejections_leave_state_unchanged() {
    let mut a = actor_epoch1_threshold2();

    // Epoch not advanced.
    let r = a.update_epoch(1, committee3(), DkgOutput { key: 9, share_ids: vec![0] }, 2, None);
    assert_eq!(r, Err(UpdateEpochError::EpochNotAdvanced));

    // Threshold exceeding the committee's share count.
    let r = a.update_epoch(2, committee3(), DkgOutput { key: 9, share_ids: vec![0] }, 4, None);
    assert_eq!(r, Err(UpdateEpochError::InvalidThreshold));

    // Zero threshold.
    let r = a.update_epoch(2, committee3(), DkgOutput { key: 9, share_ids: vec![0] }, 0, None);
    assert_eq!(r, Err(UpdateEpochError::InvalidThreshold));

    // Malformed committee: duplicate peer identity.
    let bad = vec![entry(1, 101, 0, vec![0]), entry(2, 101, 1, vec![1])];
    let r = a.update_epoch(2, bad, DkgOutput { key: 9, share_ids: vec![0] }, 1, None);
    assert_eq!(r, Err(UpdateEpochError::InvalidCommittee));

    // Malformed committee: empty.
    let r = a.update_epoch(2, vec![], DkgOutput { key: 9, share_ids: vec![0] }, 1, None);
    assert_eq!(r, Err(UpdateEpochError::InvalidCommittee));

    // Unsorted own share assignment.
    let r = a.update_epoch(
        2,
        committee3(),
        DkgOutput { key: 9, share_ids: vec![1, 0] },
        2,
        None,
    );
    assert_eq!(r, Err(UpdateEpochError::InvalidShareAssignment));

    // None of the rejections moved the epoch.
    assert_eq!(a.epoch, 1);
    assert_eq!(a.epoch_key, 7);
}

#[test]
fn aggregation_failure_retains_state_until_good_share_arrives() {
    let mut a = actor_epoch1_threshold2();

    // B sends a wrong payload under its own index: the index checks out, so
    // the share is accumulated; the rot shows only at aggregation.
    let mut bad = encode_partial_signature(&sign_partial(7, 5, 1));
    let last = bad.len() - 1;
    bad[last] ^= 0xff;
    match a.receive_signatures(102, 1, 5, vec![bad], None) {
        ReceiveOutcome::Stored => {},
        other => panic!("expected stored, got {:?}", other),
    }

    // C's valid share reaches the threshold, but aggregation fails on B's
    // bad share; state is retained and the failure counted.
    let c_sig = encode_partial_signature(&sign_partial(7, 5, 2));
    match a.receive_signatures(103, 1, 5, vec![c_sig], None) {
        ReceiveOutcome::AggregationFailed => {},
        other => panic!("expected aggregation failure, got {:?}", other),
    }
    assert_eq!(a.highest_completed_round, None);
    assert_eq!(a.rounds.len(), 1);
    assert_eq!(a.rounds[0].attempts, 1);
    assert!(!a.rounds[0].stuck);

    // B re-sends the correct share: it replaces the bad one and the round
    // completes.
    let good = encode_partial_signature(&sign_partial(7, 5, 1));
    match a.receive_signatures(102, 1, 5, vec![good], None) {
        ReceiveOutcome::Completed(ev) => {
            assert_eq!(ev.round, 5);
        },
        other => panic!("expected completion, got {:?}", other),
    }
}

#[test]
fn round_beyond_window_is_dropped() {
    let mut a = actor_epoch1_threshold2();
    // The retained-round window is 100 above the (empty) watermark.
    let b_sig = encode_partial_signature(&sign_partial(7, 101, 1));
    match a.receive_signatures(102, 1, 101, vec![b_sig], None) {
        ReceiveOutcome::IgnoredRoundTooFarAhead => {},
        other => panic!("expected window drop, got {:?}", other),
    }
    assert_eq!(a.rounds.len(), 0);
}

#[test]
fn unknown_peer_is_dropped() {
    let mut a = actor_epoch1_threshold2();
    let sig = encode_partial_signature(&sign_partial(7, 5, 1));
    match a.receive_signatures(999, 1, 5, vec![sig], None) {
        ReceiveOutcome::IgnoredUnknownPeer => {},
        other => panic!("expected unknown-peer drop, got {:?}", other),
    }
}

#[test]
fn send_partial_signatures_guards() {
    let mut a = actor_epoch1_threshold2();
    match a.send_partial_signatures(2, 5) {
        SendOutcome::IgnoredWrongEpoch => {},
        other => panic!("expected wrong-epoch drop, got {:?}", other),
    }
    match a.send_partial_signatures(1, 5) {
        SendOutcome::Started(_, _) => {},
        other => panic!("expected start, got {:?}", other),
    }
    match a.send_partial_signatures(1, 5) {
        SendOutcome::AlreadyBroadcasting => {},
        other => panic!("expected duplicate drop, got {:?}", other),
    }
    a.complete_round(1, 5);
    match a.send_partial_signatures(1, 5) {
        SendOutcome::IgnoredCompletedRound => {},
        other => panic!("expected completed drop, got {:?}", other),
    }

    let mut fresh = ActorState::new(Metrics::disabled(), 100);
    match fresh.send_partial_signatures(0, 1) {
        SendOutcome::NotInitialized => {},
        other => panic!("expected missing key material error, got {:?}", other),
    }
}

#[test]
fn maybe_ignore_byzantine_peer_is_idempotent() {
    let mut a = actor_epoch1_threshold2();
    assert!(a.maybe_ignore_byzantine_peer(1, 102));
    assert!(!a.maybe_ignore_byzantine_peer(1, 102));
    assert!(!a.maybe_ignore_byzantine_peer(2, 103));
    assert_eq!(a.byzantine_peers, vec![102]);
    assert_eq!(a.metrics.num_ignored_byzantine_peers, Some(1));
}

#[test]
fn repeated_aggregation_failures_mark_round_stuck() {
    let mut a = actor_epoch1_threshold2();

    // C's valid share, then B's bad share reaching the threshold.
    let c_sig = encode_partial_signature(&sign_partial(7, 5, 2));
    a.receive_signatures(103, 1, 5, vec![c_sig], None);
    let mut bad = encode_partial_signature(&sign_partial(7, 5, 1));
    let last = bad.len() - 1;
    bad[last] ^= 0xff;

    // Each re-delivery of the bad share retries aggregation; past the
    // ceiling the round is marked stuck, an observability signal rather
    // than a hard error.
    let mut stuck_seen = false;
    let mut i = 0u64;
    while i < 20 {
        match a.receive_signatures(102, 1, 5, vec![bad.clone()], None) {
            ReceiveOutcome::AggregationFailed => assert!(!stuck_seen),
            ReceiveOutcome::RoundStuck => stuck_seen = true,
            other => panic!("expected retry bookkeeping, got {:?}", other),
        }
        i += 1;
    }
    assert!(stuck_seen);
    assert!(a.rounds[0].stuck);
    assert_eq!(a.highest_completed_round, None);

    // A good share still completes a stuck round.
    let good = encode_partial_signature(&sign_partial(7, 5, 1));
    match a.receive_signatures(102, 1, 5, vec![good], None) {
        ReceiveOutcome::Completed(_) => {},
        other => panic!("expected completion, got {:?}", other),
    }
}
