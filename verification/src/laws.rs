//! Protocol laws: properties of the actor that span more than one command,
//! proved from the commands' contracts alone.
//!
//! Each law is a public proof function whose premises are one or two command
//! transitions, written with the same predicates the commands' contracts
//! use; nothing here inspects a command's body.

use vstd::prelude::*;

use crate::actor::{
    accept_case, all_pairs_valid, completes_to, flat_sigs, has_round, peer_entry,
    prior_contributions, receive_post, sender_acceptable, updated_contributions, wire_view,
    ActorState, CompleteOutcome, Contribution, ReceiveOutcome,
};
use crate::signer::FullSignature;

verus! {

/// A round is reported complete from partial signatures only once at least
/// `aggregation_threshold` distinct, ordered, correct shares have been
/// accumulated for it: any completion without a short-circuit full
/// signature exhibits such a set.
pub proof fn lemma_completion_needs_threshold(
    pre: ActorState,
    post: ActorState,
    peer_id: u64,
    epoch: u64,
    round: u64,
    bytes: Vec<Vec<u8>>,
    r: ReceiveOutcome,
)
    requires
        receive_post(pre, post, peer_id, epoch, round, bytes, Option::None, r),
        r is Completed,
    ensures
        exists|cs: Seq<Contribution>|
            {
                &&& updated_contributions(
                    prior_contributions(pre.rounds@, round),
                    peer_entry(pre.authorities@, peer_id).party_id,
                    wire_view(bytes@),
                    cs,
                )
                &&& (#[trigger] flat_sigs(cs)).len() >= pre.aggregation_threshold
                &&& all_pairs_valid(pre.epoch_key, round, flat_sigs(cs))
            },
        completes_to(pre, post, round),
{
    assert(epoch == pre.epoch);
    assert(!pre.peer_is_byzantine(peer_id));
    assert(pre.known_peer(peer_id));
    assert(!pre.round_is_stale(round));
    assert(!pre.round_too_far(round));
    assert(pre.accepts_from(peer_id, epoch, round));
    assert(sender_acceptable(bytes@, peer_entry(pre.authorities@, peer_id).share_ids@));
    let cs = choose|cs: Seq<Contribution>|
        {
            &&& updated_contributions(
                prior_contributions(pre.rounds@, round),
                peer_entry(pre.authorities@, peer_id).party_id,
                wire_view(bytes@),
                cs,
            )
            &&& #[trigger] accept_case(pre, post, round, cs, r)
        };
    assert(flat_sigs(cs).len() >= pre.aggregation_threshold);
    assert(all_pairs_valid(pre.epoch_key, round, flat_sigs(cs)));
}

/// While a round's accumulated shares stay below the aggregation threshold,
/// an accepted contribution is only stored: the completion watermark does
/// not move, the round stays pending, and nothing is emitted.
pub proof fn lemma_below_threshold_stays_pending(
    pre: ActorState,
    post: ActorState,
    peer_id: u64,
    epoch: u64,
    round: u64,
    bytes: Vec<Vec<u8>>,
    r: ReceiveOutcome,
)
    requires
        receive_post(pre, post, peer_id, epoch, round, bytes, Option::None, r),
        r is Stored,
    ensures
        post.highest_completed_round == pre.highest_completed_round,
        has_round(post.rounds@, round),
{
    assert(pre.accepts_from(peer_id, epoch, round));
    assert(sender_acceptable(bytes@, peer_entry(pre.authorities@, peer_id).share_ids@));
    let cs = choose|cs: Seq<Contribution>|
        {
            &&& updated_contributions(
                prior_contributions(pre.rounds@, round),
                peer_entry(pre.authorities@, peer_id).party_id,
                wire_view(bytes@),
                cs,
            )
            &&& #[trigger] accept_case(pre, post, round, cs, r)
        };
    assert(flat_sigs(cs).len() < pre.aggregation_threshold);
}

/// A partial signature whose share index is inconsistent with the declared
/// sender is always rejected whole, and the sender is flagged Byzantine.
pub proof fn lemma_invalid_share_flags_sender(
    pre: ActorState,
    post: ActorState,
    peer_id: u64,
    epoch: u64,
    round: u64,
    bytes: Vec<Vec<u8>>,
    r: ReceiveOutcome,
)
    requires
        receive_post(pre, post, peer_id, epoch, round, bytes, Option::None, r),
        pre.accepts_from(peer_id, epoch, round),
        !sender_acceptable(bytes@, peer_entry(pre.authorities@, peer_id).share_ids@),
    ensures
        r is MarkedByzantine,
        post.peer_is_byzantine(peer_id),
        post.rounds == pre.rounds,
        post.highest_completed_round == pre.highest_completed_round,
{
    assert(post.byzantine_peers@ == pre.byzantine_peers@.push(peer_id));
    assert(post.byzantine_peers@[post.byzantine_peers@.len() - 1] == peer_id);
    assert(post.byzantine_peers@.contains(peer_id));
}

/// A sender flagged Byzantine stays excluded for the rest of the epoch: any
/// later message from it in the same epoch is dropped without effect, valid
/// or not.
pub proof fn lemma_byzantine_peer_stays_excluded(
    s0: ActorState,
    s1: ActorState,
    s2: ActorState,
    peer_id: u64,
    epoch: u64,
    round1: u64,
    bytes1: Vec<Vec<u8>>,
    r1: ReceiveOutcome,
    round2: u64,
    bytes2: Vec<Vec<u8>>,
    fsig2: Option<FullSignature>,
    r2: ReceiveOutcome,
)
    requires
        receive_post(s0, s1, peer_id, epoch, round1, bytes1, Option::None, r1),
        r1 is MarkedByzantine,
        receive_post(s1, s2, peer_id, epoch, round2, bytes2, fsig2, r2),
    ensures
        r2 is IgnoredByzantinePeer,
        s2 == s1,
{
    assert(epoch == s0.epoch);
    assert(s1.epoch == s0.epoch);
    assert(s1.byzantine_peers@ == s0.byzantine_peers@.push(peer_id));
    assert(s1.byzantine_peers@[s1.byzantine_peers@.len() - 1] == peer_id);
    assert(s1.peer_is_byzantine(peer_id));
}

/// Once a round is at or below the completion watermark, any further
/// inbound signature message for it is a no-op: no completion event is
/// re-emitted and the watermark does not move.
pub proof fn lemma_no_reemission_for_stale_round(
    s1: ActorState,
    s2: ActorState,
    peer_id: u64,
    epoch: u64,
    round: u64,
    bytes: Vec<Vec<u8>>,
    fsig: Option<FullSignature>,
    r: ReceiveOutcome,
)
    requires
        s1.round_is_stale(round),
        receive_post(s1, s2, peer_id, epoch, round, bytes, fsig, r),
    ensures
        !(r is Completed),
        s2 == s1,
{
    if epoch != s1.epoch {
        assert(r is IgnoredWrongEpoch);
    } else if s1.peer_is_byzantine(peer_id) {
        assert(r is IgnoredByzantinePeer);
    } else if !s1.known_peer(peer_id) {
        assert(r is IgnoredUnknownPeer);
    } else {
        assert(r is IgnoredStaleRound);
    }
}

/// Completing a round is final: after `complete_round(epoch, round)` took
/// effect (or found the round already complete), any further inbound
/// signature message for `(epoch, round)` never re-emits a completion event
/// for it and never moves `highest_completed_round` backwards.
pub proof fn lemma_complete_round_is_final(
    s0: ActorState,
    s1: ActorState,
    s2: ActorState,
    epoch: u64,
    round: u64,
    c: CompleteOutcome,
    peer_id: u64,
    bytes: Vec<Vec<u8>>,
    fsig: Option<FullSignature>,
    r: ReceiveOutcome,
)
    requires
        epoch == s0.epoch,
        c == CompleteOutcome::Completed ==> completes_to(s0, s1, round),
        c == CompleteOutcome::AlreadyCompleted ==> s1 == s0 && s0.round_is_stale(round),
        c == CompleteOutcome::Completed || c == CompleteOutcome::AlreadyCompleted,
        receive_post(s1, s2, peer_id, epoch, round, bytes, fsig, r),
    ensures
        !(r is Completed),
        s2 == s1,
        s2.round_is_stale(round),
{
    assert(s1.round_is_stale(round));
    lemma_no_reemission_for_stale_round(s1, s2, peer_id, epoch, round, bytes, fsig, r);
}

/// A completion event is canonical: whichever path produced it — local
/// aggregation or a short-circuit full signature — its randomness is the
/// epoch key's unique full-signature bytes for its round, and it names the
/// current epoch and the round it was asked about. Two completions of the
/// same round under the same key therefore carry the same randomness.
pub proof fn lemma_completion_is_canonical(
    pre: ActorState,
    post: ActorState,
    peer_id: u64,
    epoch: u64,
    round: u64,
    bytes: Vec<Vec<u8>>,
    fsig: Option<FullSignature>,
    r: ReceiveOutcome,
)
    requires
        receive_post(pre, post, peer_id, epoch, round, bytes, fsig, r),
        r is Completed,
    ensures
        r matches ReceiveOutcome::Completed(ev) ==> {
            &&& ev.epoch == pre.epoch
            &&& ev.round == round
            &&& ev.randomness@ == crate::signer::full_signature_bytes(pre.epoch_key, round)
        },
        completes_to(pre, post, round),
{
    assert(pre.accepts_from(peer_id, epoch, round));
    match fsig {
        Some(fs) => {
            assert(!(r is RejectedFullSignature));
            assert(crate::signer::signature_verifies(pre.epoch_key, round, fs));
        },
        None => {
            lemma_completion_needs_threshold(pre, post, peer_id, epoch, round, bytes, r);
        },
    }
}

/// An epoch transition shields the actor from the past: it discards every
/// pending round of the previous epoch, and a signature message for the old
/// epoch arriving afterwards is a no-op.
pub proof fn lemma_epoch_transition_discards_old_epoch(
    s1: ActorState,
    s2: ActorState,
    old_epoch: u64,
    peer_id: u64,
    round: u64,
    bytes: Vec<Vec<u8>>,
    fsig: Option<FullSignature>,
    r: ReceiveOutcome,
)
    requires
        old_epoch < s1.epoch,
        s1.rounds@.len() == 0,
        receive_post(s1, s2, peer_id, old_epoch, round, bytes, fsig, r),
    ensures
        r is IgnoredWrongEpoch,
        s2 == s1,
        s2.rounds@.len() == 0,
{
}

} // verus!
