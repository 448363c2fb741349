use mysocial_network::actor::SendSignaturesRequest;
use mysocial_network::discovery::{self, get_known_peers_v2, DiscoveryError, SignedNodeInfo, State};
use mysocial_network::metrics::Metrics;
use mysocial_network::server::{validate_send_signatures, InboundError};
use mysocial_network::state_sync;
use mysocial_network::state_sync::CheckpointContentsDownloadLimitLayer;

fn info(peer_id: u64) -> SignedNodeInfo {
    SignedNodeInfo { peer_id, addresses: vec![String::from("/dns/x/udp/8084")], timestamp_ms: 1 }
}

fn request(n_sigs: usize) -> SendSignaturesRequest {
    SendSignaturesRequest {
        epoch: 1,
        round: 5,
        partial_sigs: vec![vec![0u8; 9]; n_sigs],
        sig: None,
    }
}

#[test]
fn inbound_gate_checks_identity_allowlist_and_size() {
    let allowed = vec![101, 102];

    assert_eq!(
        validate_send_signatures(None, &allowed, 10, &request(1)),
        Err(InboundError::MissingPeerId)
    );
    assert_eq!(
        validate_send_signatures(Some(999), &allowed, 10, &request(1)),
        Err(InboundError::SenderNotAllowed)
    );
    assert_eq!(
        validate_send_signatures(Some(101), &allowed, 10, &request(11)),
        Err(InboundError::TooManySignatures)
    );
    assert_eq!(validate_send_signatures(Some(101), &allowed, 10, &request(10)), Ok(101));
}

#[test]
fn known_peers_response_is_bounded() {
    let empty = State { our_info: None, known_peers: vec![] };
    assert!(matches!(get_known_peers_v2(&empty), Err(DiscoveryError::NotInitialized)));

    let mut peers = Vec::new();
    let mut i: u64 = 0;
    while i < 250 {
        peers.push(info(1000 + i));
        i += 1;
    }
    let state = State { our_info: Some(info(7)), known_peers: peers };
    let resp = get_known_peers_v2(&state).unwrap();
    assert_eq!(resp.own_info.peer_id, 7);
    assert_eq!(resp.own_info.addresses, vec![String::from("/dns/x/udp/8084")]);
    assert_eq!(resp.known_peers.len(), 200);
    assert_eq!(resp.known_peers[0].peer_id, 1000);
    assert_eq!(resp.known_peers[199].peer_id, 1199);
}

#[test]
fn discovery_gauge_moves_both_ways() {
    let mut m = discovery::Metrics::enabled();
    m.inc_num_peers_with_external_address();
    m.inc_num_peers_with_external_address();
    m.dec_num_peers_with_external_address();
    assert_eq!(m.num_peers_with_external_address, Some(1));

    let mut off = discovery::Metrics::disabled();
    off.inc_num_peers_with_external_address();
    assert_eq!(off.num_peers_with_external_address, None);
}

#[test]
fn randomness_metrics_record_signals() {
    let mut m = Metrics::enabled();
    m.set_epoch(4);
    m.set_num_rounds_pending(3);
    m.inc_num_ignored_byzantine_peers();
    assert_eq!(m.epoch, Some(4));
    assert_eq!(m.num_rounds_pending(), Some(3));
    assert_eq!(m.num_ignored_byzantine_peers, Some(1));

    // The completion sequence only ever moves forward.
    m.record_completed_round(5);
    m.record_completed_round(3);
    assert_eq!(m.round_completion_sequence, Some(5));
    m.record_completed_round(8);
    assert_eq!(m.round_completion_sequence, Some(8));

    let mut off = Metrics::disabled();
    off.set_epoch(4);
    off.record_completed_round(5);
    assert_eq!(off.epoch, None);
    assert_eq!(off.round_completion_sequence, None);
    // The monotonicity field tracks even with the sink disabled.
    assert_eq!(off.last_completed_round, 5);
}

#[test]
fn state_sync_metrics_and_checkpoint_age() {
    let mut m = state_sync::Metrics::enabled();
    m.set_highest_known_checkpoint(10);
    m.set_highest_verified_checkpoint(8);
    m.set_highest_synced_checkpoint(6);
    assert_eq!(m.highest_known_checkpoint, Some(10));
    assert_eq!(m.highest_verified_checkpoint, Some(8));
    assert_eq!(m.highest_synced_checkpoint, Some(6));

    assert_eq!(state_sync::checkpoint_age_ms(1000, 400), Some(600));
    assert_eq!(state_sync::checkpoint_age_ms(400, 1000), None);
    assert_eq!(state_sync::checkpoint_age_ms(400, 400), None);
}

#[test]
fn download_limiter_bounds_and_prunes() {
    let mut layer = CheckpointContentsDownloadLimitLayer::new(2);
    assert!(layer.try_acquire(7));
    assert!(layer.try_acquire(7));
    assert!(!layer.try_acquire(7));
    // Other checkpoints are counted independently.
    assert!(layer.try_acquire(8));

    // Within the pruning interval nothing is cleared.
    assert!(!layer.maybe_prune_map(300));
    assert!(!layer.try_acquire(7));

    // Past the interval the table is cleared and downloads flow again.
    assert!(layer.maybe_prune_map(301));
    assert!(layer.try_acquire(7));

    let mut closed = CheckpointContentsDownloadLimitLayer::new(0);
    assert!(!closed.try_acquire(9));
}
