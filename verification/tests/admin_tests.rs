use mysocial_network::actor::{
    ActorState, AdminError, AuthorityEntry, DkgOutput,
};
use mysocial_network::codec::{encode_partial_signature, PartialSignature};
use mysocial_network::metrics::Metrics;
use mysocial_network::signer::{make_full_signature, sign_partial, FullSignature};

fn committee() -> Vec<AuthorityEntry> {
    vec![
        AuthorityEntry { name: 1, peer_id: 101, party_id: 0, share_ids: vec![0] },
        AuthorityEntry { name: 2, peer_id: 102, party_id: 1, share_ids: vec![1] },
        AuthorityEntry { name: 3, peer_id: 103, party_id: 2, share_ids: vec![2] },
    ]
}

fn actor() -> ActorState {
    let mut a = ActorState::new(Metrics::disabled(), 100);
    a.update_epoch(1, committee(), DkgOutput { key: 7, share_ids: vec![0] }, 2, None)
        .unwrap();
    a
}

#[test]
fn admin_get_partial_signatures_returns_encoded_shares() {
    let a = actor();
    let sigs = a.admin_get_partial_signatures(5).unwrap();
    assert_eq!(sigs.len(), 1);
    assert_eq!(sigs[0], encode_partial_signature(&sign_partial(7, 5, 0)));

    let fresh = ActorState::new(Metrics::disabled(), 100);
    assert_eq!(
        fresh.admin_get_partial_signatures(5),
        Err(AdminError::NotInitialized)
    );
}

#[test]
fn admin_inject_partial_signatures_validates_and_completes() {
    let mut a = actor();

    // An unknown authority is rejected.
    let r = a.admin_inject_partial_signatures(9, 5, vec![sign_partial(7, 5, 1)]);
    assert_eq!(r, Err(AdminError::UnknownAuthority));

    // Shares not owned by the named authority are rejected.
    let r = a.admin_inject_partial_signatures(2, 5, vec![sign_partial(7, 5, 2)]);
    assert_eq!(r, Err(AdminError::InvalidShareIndexes));

    // One valid injected share is stored below the threshold.
    let r = a.admin_inject_partial_signatures(2, 5, vec![sign_partial(7, 5, 1)]);
    assert_eq!(r, Ok(None));

    // A second distinct share reaches the threshold and completes the round.
    match a.admin_inject_partial_signatures(3, 5, vec![sign_partial(7, 5, 2)]) {
        Ok(Some(ev)) => {
            assert_eq!(ev.epoch, 1);
            assert_eq!(ev.round, 5);
            assert_eq!(ev.randomness, make_full_signature(7, 5).bytes);
        },
        other => panic!("expected completion, got {:?}", other),
    }
    assert_eq!(a.highest_completed_round, Some(5));

    // Injections for completed rounds are explicit errors.
    let r = a.admin_inject_partial_signatures(2, 5, vec![sign_partial(7, 5, 1)]);
    assert_eq!(r, Err(AdminError::StaleRound));

    // As are injections beyond the retained-round window.
    let r = a.admin_inject_partial_signatures(2, 106, vec![sign_partial(7, 106, 1)]);
    assert_eq!(r, Err(AdminError::RoundTooFarAhead));
}

#[test]
fn admin_inject_partial_signatures_surfaces_failed_aggregation() {
    let mut a = actor();
    let bad = PartialSignature { index: 1, payload: vec![9, 9, 9] };
    assert_eq!(a.admin_inject_partial_signatures(2, 5, vec![bad]), Ok(None));
    // The second share reaches the threshold, but the bad payload makes
    // aggregation fail: an explicit error, with state retained.
    let r = a.admin_inject_partial_signatures(3, 5, vec![sign_partial(7, 5, 2)]);
    assert_eq!(r, Err(AdminError::VerificationFailed));
    assert_eq!(a.rounds.len(), 1);
    assert_eq!(a.rounds[0].attempts, 1);
    assert_eq!(a.highest_completed_round, None);
}

#[test]
fn admin_inject_full_signature_checks_verification() {
    let mut a = actor();

    let bad = FullSignature { bytes: vec![0, 1, 2] };
    match a.admin_inject_full_signature(5, bad) {
        Err(AdminError::VerificationFailed) => {},
        other => panic!("expected verification failure, got {:?}", other),
    }
    assert_eq!(a.highest_completed_round, None);

    match a.admin_inject_full_signature(5, make_full_signature(7, 5)) {
        Ok(ev) => {
            assert_eq!(ev.round, 5);
            assert_eq!(ev.randomness, make_full_signature(7, 5).bytes);
        },
        other => panic!("expected completion, got {:?}", other),
    }
    assert_eq!(a.highest_completed_round, Some(5));

    match a.admin_inject_full_signature(5, make_full_signature(7, 5)) {
        Err(AdminError::StaleRound) => {},
        other => panic!("expected stale error, got {:?}", other),
    }

    let mut fresh = ActorState::new(Metrics::disabled(), 100);
    match fresh.admin_inject_full_signature(5, make_full_signature(7, 5)) {
        Err(AdminError::NotInitialized) => {},
        other => panic!("expected missing key material error, got {:?}", other),
    }
}
