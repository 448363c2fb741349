//! The randomness actor: a single-writer state machine owning all round
//! state for the current epoch.
//!
//! The actor is driven by commands (epoch transition, broadcast requests,
//! inbound signature messages, administrative injections) and answers each
//! with an outcome describing what the embedding should do: spawn or cancel
//! broadcasts, emit a completed round downstream, or nothing. All protocol
//! decisions are made here over plain values; transport and timers live
//! outside.

use vstd::pervasive::VecAdditionalExecFns;
use vstd::prelude::*;

use crate::codec::{
    decode_partial_signature, encode_partial_signature, encoded_partial_signature,
    u64_from_be_bytes, PartialSignature,
};
use crate::metrics::{
    with_byzantine_inc, with_completed_round, with_epoch, with_rounds_pending, Metrics,
};
use crate::signer::{
    aggregate, all_shares_valid, full_signature_bytes, partial_payload, share_valid, sign_partial,
    signature_verifies, strictly_sorted_by_index, verify_signature, FullSignature,
};

verus! {

/// One committee member of the current epoch: a stable validator identity
/// mapped to its network peer and its position in the threshold scheme,
/// together with the share indexes that position owns.
pub struct AuthorityEntry {
    pub name: u64,
    pub peer_id: u64,
    pub party_id: u16,
    pub share_ids: Vec<u64>,
}

/// The per-epoch output of the key generation ceremony, as the actor
/// consumes it: the epoch's public key identity and this node's own share
/// indexes.
pub struct DkgOutput {
    pub key: u64,
    pub share_ids: Vec<u64>,
}

/// One sender's partial signatures for a round. A later contribution from
/// the same party replaces the earlier one wholesale; it never doubles.
pub struct Contribution {
    pub party_id: u16,
    pub sigs: Vec<PartialSignature>,
}

/// Accumulated state of one in-flight round: contributions keyed by sending
/// party, kept in party order, and the aggregation bookkeeping.
pub struct RoundState {
    pub round: u64,
    pub contributions: Vec<Contribution>,
    /// Failed aggregation attempts at or above the threshold.
    pub attempts: u64,
    /// Set once the attempt ceiling is exceeded; an observability signal,
    /// not a hard error.
    pub stuck: bool,
}

/// A completed round handed to the downstream consumer: the bytes are the
/// round's randomness.
#[derive(Debug, PartialEq, Eq)]
pub struct CompletionEvent {
    pub epoch: u64,
    pub round: u64,
    pub randomness: Vec<u8>,
}

/// Failed aggregation attempts tolerated for one round before it is marked
/// stuck.
pub const AGGREGATE_ATTEMPT_CEILING: u64 = 16;

/// Whether a sequence of share indexes or round numbers is strictly
/// increasing.
pub open spec fn indexes_sorted(s: Seq<u64>) -> bool {
    forall|i: int, j: int| 0 <= i < j < s.len() ==> s[i] < s[j]
}

/// Well-formedness of one committee entry: a non-empty, strictly sorted set
/// of owned share indexes.
pub open spec fn entry_wf(e: AuthorityEntry) -> bool {
    &&& e.share_ids@.len() >= 1
    &&& indexes_sorted(e.share_ids@)
}

/// Well-formedness of a committee: entries sorted by name and party, peers
/// pairwise distinct, and the share index ranges of distinct entries
/// pairwise disjoint (every share of an earlier entry below every share of a
/// later one).
pub open spec fn committee_wf(auths: Seq<AuthorityEntry>) -> bool {
    &&& auths.len() >= 1
    &&& forall|i: int| 0 <= i < auths.len() ==> entry_wf(#[trigger] auths[i])
    &&& forall|i: int, j: int|
        0 <= i < j < auths.len() ==> #[trigger] auths[i].name < #[trigger] auths[j].name
    &&& forall|i: int, j: int|
        0 <= i < j < auths.len() ==> #[trigger] auths[i].party_id < #[trigger] auths[j].party_id
    &&& forall|i: int, j: int|
        0 <= i < j < auths.len() ==> #[trigger] auths[i].peer_id != #[trigger] auths[j].peer_id
    &&& forall|i: int, j: int, a: int, b: int|
        0 <= i < j < auths.len() && 0 <= a < auths[i].share_ids@.len() && 0 <= b
            < auths[j].share_ids@.len() ==> #[trigger] auths[i].share_ids@[a]
            < #[trigger] auths[j].share_ids@[b]
}

/// Total number of shares held by a committee.
pub open spec fn total_shares(auths: Seq<AuthorityEntry>) -> int
    decreases auths.len(),
{
    if auths.len() == 0 {
        0
    } else {
        total_shares(auths.drop_last()) + auths.last().share_ids@.len()
    }
}

/// A committee the actor accepts: well-formed, with a total share count a
/// machine word can hold.
pub open spec fn committee_acceptable(auths: Seq<AuthorityEntry>) -> bool {
    &&& committee_wf(auths)
    &&& total_shares(auths) <= u64::MAX
}

/// A partial signature reduced to what the protocol reasons about: its share
/// index and its payload bytes.
pub open spec fn sig_pair(s: PartialSignature) -> (u64, Seq<u8>) {
    (s.index, s.payload@)
}

/// The view of a sequence of partial signatures as index/payload pairs.
pub open spec fn sigs_view(s: Seq<PartialSignature>) -> Seq<(u64, Seq<u8>)> {
    Seq::new(s.len(), |i: int| sig_pair(s[i]))
}

/// Whether index/payload pairs are in strictly increasing index order.
pub open spec fn pair_sorted(s: Seq<(u64, Seq<u8>)>) -> bool {
    forall|i: int, j: int| 0 <= i < j < s.len() ==> s[i].0 < s[j].0
}

/// Whether every pair's index belongs to a given share set.
pub open spec fn pairs_owned_by(s: Seq<(u64, Seq<u8>)>, shares: Seq<u64>) -> bool {
    forall|i: int| 0 <= i < s.len() ==> shares.contains((#[trigger] s[i]).0)
}

/// Whether one pair carries the correct partial signature for its index.
pub open spec fn pair_valid(key: u64, round: u64, p: (u64, Seq<u8>)) -> bool {
    p.1 == partial_payload(key, round, p.0)
}

/// Whether every pair carries a correct partial signature.
pub open spec fn all_pairs_valid(key: u64, round: u64, s: Seq<(u64, Seq<u8>)>) -> bool {
    forall|i: int| 0 <= i < s.len() ==> pair_valid(key, round, #[trigger] s[i])
}

/// Whether contributions are in strictly increasing party order.
pub open spec fn contributions_sorted(cs: Seq<Contribution>) -> bool {
    forall|i: int, j: int| 0 <= i < j < cs.len() ==> cs[i].party_id < cs[j].party_id
}

/// The share set owned by a party of the committee; empty for an unknown
/// party.
pub open spec fn party_shares(auths: Seq<AuthorityEntry>, party: u16) -> Seq<u64> {
    if exists|i: int| 0 <= i < auths.len() && (#[trigger] auths[i]).party_id == party {
        auths[choose|i: int| 0 <= i < auths.len() && (#[trigger] auths[i]).party_id == party]
            .share_ids@
    } else {
        Seq::empty()
    }
}

/// Whether a party belongs to the committee.
pub open spec fn party_known(auths: Seq<AuthorityEntry>, party: u16) -> bool {
    exists|i: int| 0 <= i < auths.len() && (#[trigger] auths[i]).party_id == party
}

/// Well-formedness of one contribution: a known sender, signatures strictly
/// ordered by share index, every index among the sender's own shares.
pub open spec fn contribution_wf(auths: Seq<AuthorityEntry>, c: Contribution) -> bool {
    &&& party_known(auths, c.party_id)
    &&& strictly_sorted_by_index(c.sigs@)
    &&& forall|k: int|
        0 <= k < c.sigs@.len() ==> party_shares(auths, c.party_id).contains(
            (#[trigger] c.sigs@[k]).index,
        )
}

/// Well-formedness of one round's accumulation.
pub open spec fn round_state_wf(auths: Seq<AuthorityEntry>, rs: RoundState) -> bool {
    &&& contributions_sorted(rs.contributions@)
    &&& forall|i: int|
        0 <= i < rs.contributions@.len() ==> contribution_wf(
            auths,
            #[trigger] rs.contributions@[i],
        )
}

/// All accumulated partial signatures of a round, as index/payload pairs, in
/// contribution order.
pub open spec fn flat_sigs(cs: Seq<Contribution>) -> Seq<(u64, Seq<u8>)>
    decreases cs.len(),
{
    if cs.len() == 0 {
        Seq::empty()
    } else {
        flat_sigs(cs.drop_last()) + sigs_view(cs.last().sigs@)
    }
}

/// Whether pending rounds are strictly ordered by round number.
pub open spec fn rounds_sorted(rs: Seq<RoundState>) -> bool {
    forall|i: int, j: int| 0 <= i < j < rs.len() ==> rs[i].round < rs[j].round
}

/// Whether a round number lies above the completion watermark.
pub open spec fn round_above_watermark(watermark: Option<u64>, round: u64) -> bool {
    match watermark {
        Some(h) => round > h,
        None => true,
    }
}

/// The randomness actor's entire state. One value of this type is owned by
/// a single logical task; every mutation happens while processing one
/// command.
pub struct ActorState {
    /// The current committee era; data from any other epoch is never
    /// processed.
    pub epoch: u64,
    /// Whether an epoch transition has supplied key material yet.
    pub initialized: bool,
    /// The epoch's public key identity from the key generation output.
    pub epoch_key: u64,
    /// This node's own share indexes for the epoch.
    pub my_share_ids: Vec<u64>,
    /// The current committee, rebuilt wholesale on every epoch transition.
    pub authorities: Vec<AuthorityEntry>,
    /// Number of distinct shares needed to aggregate a full signature.
    pub aggregation_threshold: u64,
    /// Highest round completed in this epoch; monotonically non-decreasing.
    pub highest_completed_round: Option<u64>,
    /// Accumulation state of in-flight rounds, strictly ordered by round and
    /// all above the watermark.
    pub rounds: Vec<RoundState>,
    /// Peers flagged Byzantine for the current epoch.
    pub byzantine_peers: Vec<u64>,
    /// Rounds with active outbound partial-signature broadcasts.
    pub broadcast_rounds: Vec<u64>,
    /// Bound on how far above the watermark a round may be accumulated.
    pub max_pending_rounds: u64,
    /// The metric signals the actor records.
    pub metrics: Metrics,
}

impl ActorState {
    /// The actor's invariant, established by the constructor and preserved
    /// by every command.
    pub open spec fn wf(self) -> bool {
        &&& self.max_pending_rounds >= 1
        &&& indexes_sorted(self.my_share_ids@)
        &&& !self.initialized ==> {
            &&& self.authorities@.len() == 0
            &&& self.rounds@.len() == 0
            &&& self.broadcast_rounds@.len() == 0
            &&& self.byzantine_peers@.len() == 0
        }
        &&& self.initialized ==> {
            &&& committee_acceptable(self.authorities@)
            &&& 1 <= self.aggregation_threshold <= total_shares(self.authorities@)
        }
        &&& rounds_sorted(self.rounds@)
        &&& forall|i: int|
            0 <= i < self.rounds@.len() ==> round_state_wf(
                self.authorities@,
                #[trigger] self.rounds@[i],
            )
        &&& forall|i: int|
            0 <= i < self.rounds@.len() ==> round_above_watermark(
                self.highest_completed_round,
                (#[trigger] self.rounds@[i]).round,
            )
        &&& forall|i: int, j: int|
            0 <= i < j < self.byzantine_peers@.len() ==> self.byzantine_peers@[i]
                != self.byzantine_peers@[j]
        &&& indexes_sorted(self.broadcast_rounds@)
        &&& forall|i: int|
            0 <= i < self.broadcast_rounds@.len() ==> round_above_watermark(
                self.highest_completed_round,
                #[trigger] self.broadcast_rounds@[i],
            )
    }

    /// Whether a peer is flagged Byzantine.
    pub open spec fn peer_is_byzantine(self, peer_id: u64) -> bool {
        self.byzantine_peers@.contains(peer_id)
    }

    /// Whether a peer belongs to the current committee.
    pub open spec fn known_peer(self, peer_id: u64) -> bool {
        exists|i: int|
            0 <= i < self.authorities@.len() && (#[trigger] self.authorities@[i]).peer_id
                == peer_id
    }

    /// Whether a round is at or below the completion watermark.
    pub open spec fn round_is_stale(self, round: u64) -> bool {
        match self.highest_completed_round {
            Some(h) => round <= h,
            None => false,
        }
    }

    /// Whether a round lies beyond the retained-round window above the
    /// watermark.
    pub open spec fn round_too_far(self, round: u64) -> bool {
        match self.highest_completed_round {
            Some(h) => round > h && round - h > self.max_pending_rounds,
            None => round > self.max_pending_rounds,
        }
    }

    /// A fresh actor: no epoch material yet, nothing pending.
    pub fn new(metrics: Metrics, max_pending_rounds: u64) -> (actor: ActorState)
        requires
            max_pending_rounds >= 1,
        ensures
            actor.wf(),
            !actor.initialized,
            actor.epoch == 0,
            actor.highest_completed_round is None,
            actor.rounds@.len() == 0,
            actor.byzantine_peers@.len() == 0,
            actor.broadcast_rounds@.len() == 0,
            actor.max_pending_rounds == max_pending_rounds,
            actor.metrics == metrics,
    {
        ActorState {
            epoch: 0,
            initialized: false,
            epoch_key: 0,
            my_share_ids: Vec::new(),
            authorities: Vec::new(),
            aggregation_threshold: 0,
            highest_completed_round: None,
            rounds: Vec::new(),
            byzantine_peers: Vec::new(),
            broadcast_rounds: Vec::new(),
            max_pending_rounds,
            metrics,
        }
    }
}

/// Why an epoch transition was rejected. A rejected transition leaves the
/// actor exactly as it was.
#[derive(Clone, Copy, Debug, PartialEq, Eq, Structural)]
pub enum UpdateEpochError {
    /// The new epoch does not advance past the current one.
    EpochNotAdvanced,
    /// The committee is malformed or its share count overflows.
    InvalidCommittee,
    /// The aggregation threshold is zero or exceeds the committee's shares.
    InvalidThreshold,
    /// This node's own share indexes are not strictly ordered.
    InvalidShareAssignment,
}

/// Checks that a vector of indexes is strictly increasing.
fn check_indexes_sorted(v: &Vec<u64>) -> (r: bool)
    ensures
        r <==> indexes_sorted(v@),
{
    let mut i: usize = 1;
    while i < v.len()
        invariant
            1 <= i,
            i <= v@.len() || v@.len() == 0,
            forall|p: int, q: int| 0 <= p < q < i && q < v@.len() ==> v@[p] < v@[q],
        decreases v@.len() - i,
    {
        if v[i - 1] >= v[i] {
            return false;
        }
        i = i + 1;
    }
    true
}

/// Adding one entry to a committee prefix adds its share count.
proof fn lemma_total_shares_step(auths: Seq<AuthorityEntry>, k: int)
    requires
        0 <= k < auths.len(),
    ensures
        total_shares(auths.subrange(0, k + 1)) == total_shares(auths.subrange(0, k))
            + auths[k].share_ids@.len(),
{
    let prefix = auths.subrange(0, k + 1);
    assert(prefix.drop_last() =~= auths.subrange(0, k));
    assert(prefix.last() == auths[k]);
}

/// A committee never holds a negative number of shares.
proof fn lemma_total_shares_nonneg(auths: Seq<AuthorityEntry>)
    ensures
        total_shares(auths) >= 0,
    decreases auths.len(),
{
    if auths.len() > 0 {
        lemma_total_shares_nonneg(auths.drop_last());
    }
}

/// A prefix of a committee holds no more shares than the whole.
proof fn lemma_total_shares_prefix(auths: Seq<AuthorityEntry>, k: int)
    requires
        0 <= k <= auths.len(),
    ensures
        total_shares(auths.subrange(0, k)) <= total_shares(auths),
    decreases auths.len() - k,
{
    if k == auths.len() {
        assert(auths.subrange(0, k) =~= auths);
    } else {
        lemma_total_shares_step(auths, k);
        lemma_total_shares_prefix(auths, k + 1);
    }
}

/// Validates a proposed committee and returns its total share count.
fn check_committee(auths: &Vec<AuthorityEntry>) -> (r: Option<u64>)
    ensures
        r is Some <==> committee_acceptable(auths@),
        r matches Some(t) ==> t == total_shares(auths@),
{
    if auths.len() == 0 {
        return None;
    }
    let ghost gauths = auths@;
    let mut total: u64 = 0;
    let mut i: usize = 0;
    while i < auths.len()
        invariant
            0 <= i <= gauths.len(),
            gauths.len() >= 1,
            auths@ == gauths,
            forall|p: int| 0 <= p < i ==> entry_wf(#[trigger] gauths[p]),
            forall|p: int, q: int|
                0 <= p < q < i ==> #[trigger] gauths[p].name < #[trigger] gauths[q].name,
            forall|p: int, q: int|
                0 <= p < q < i ==> #[trigger] gauths[p].party_id < #[trigger] gauths[q].party_id,
            forall|p: int, q: int|
                0 <= p < q < i ==> #[trigger] gauths[p].peer_id != #[trigger] gauths[q].peer_id,
            forall|p: int, q: int, a: int, b: int|
                0 <= p < q < i && 0 <= a < gauths[p].share_ids@.len() && 0 <= b
                    < gauths[q].share_ids@.len() ==> #[trigger] gauths[p].share_ids@[a]
                    < #[trigger] gauths[q].share_ids@[b],
            i > 0 ==> forall|p: int, a: int|
                0 <= p < i && 0 <= a < gauths[p].share_ids@.len()
                    ==> #[trigger] gauths[p].share_ids@[a] <= gauths[i - 1].share_ids@.last(),
            total == total_shares(gauths.subrange(0, i as int)),
        decreases gauths.len() - i,
    {
        if auths[i].share_ids.len() == 0 {
            return None;
        }
        if !check_indexes_sorted(&auths[i].share_ids) {
            return None;
        }
        if i > 0 {
            if auths[i - 1].name >= auths[i].name {
                return None;
            }
            if auths[i - 1].party_id >= auths[i].party_id {
                return None;
            }
            let prev_last = auths[i - 1].share_ids[auths[i - 1].share_ids.len() - 1];
            if prev_last >= auths[i].share_ids[0] {
                return None;
            }
        }
        let mut j: usize = 0;
        while j < i
            invariant
                0 <= j <= i < gauths.len(),
                auths@ == gauths,
                forall|q: int| 0 <= q < j ==> gauths[q].peer_id != gauths[i as int].peer_id,
            decreases i - j,
        {
            if auths[j].peer_id == auths[i].peer_id {
                return None;
            }
            j = j + 1;
        }
        let cnt = auths[i].share_ids.len() as u64;
        if cnt > u64::MAX - total {
            proof {
                lemma_total_shares_step(gauths, i as int);
                lemma_total_shares_prefix(gauths, i as int + 1);
            }
            return None;
        }
        total = total + cnt;
        proof {
            lemma_total_shares_step(gauths, i as int);
        }
        i = i + 1;
    }
    proof {
        assert(gauths.subrange(0, gauths.len() as int) =~= gauths);
    }
    Some(total)
}

impl ActorState {
    /// Transitions the actor to a new epoch: replaces the key material,
    /// committee and threshold wholesale, clears every pending round, all
    /// broadcasts and the Byzantine set, and seeds the completion watermark
    /// from a recovered value when restarting mid-epoch. An invalid
    /// transition is rejected and leaves the actor unchanged.
    pub fn update_epoch(
        &mut self,
        new_epoch: u64,
        authority_info: Vec<AuthorityEntry>,
        dkg_output: DkgOutput,
        aggregation_threshold: u64,
        recovered_last_completed_round: Option<u64>,
    ) -> (r: Result<(), UpdateEpochError>)
        requires
            old(self).wf(),
        ensures
            final(self).wf(),
            r == Err::<(), UpdateEpochError>(UpdateEpochError::EpochNotAdvanced) <==> {
                &&& old(self).initialized
                &&& new_epoch <= old(self).epoch
            },
            r == Err::<(), UpdateEpochError>(UpdateEpochError::InvalidCommittee) <==> {
                &&& !(old(self).initialized && new_epoch <= old(self).epoch)
                &&& !committee_acceptable(authority_info@)
            },
            r == Err::<(), UpdateEpochError>(UpdateEpochError::InvalidThreshold) <==> {
                &&& !(old(self).initialized && new_epoch <= old(self).epoch)
                &&& committee_acceptable(authority_info@)
                &&& !(1 <= aggregation_threshold <= total_shares(authority_info@))
            },
            r == Err::<(), UpdateEpochError>(UpdateEpochError::InvalidShareAssignment) <==> {
                &&& !(old(self).initialized && new_epoch <= old(self).epoch)
                &&& committee_acceptable(authority_info@)
                &&& 1 <= aggregation_threshold <= total_shares(authority_info@)
                &&& !indexes_sorted(dkg_output.share_ids@)
            },
            r is Err ==> *final(self) == *old(self),
            r is Ok ==> {
                &&& final(self).epoch == new_epoch
                &&& final(self).initialized
                &&& final(self).epoch_key == dkg_output.key
                &&& final(self).my_share_ids == dkg_output.share_ids
                &&& final(self).authorities == authority_info
                &&& final(self).aggregation_threshold == aggregation_threshold
                &&& final(self).highest_completed_round == recovered_last_completed_round
                &&& final(self).rounds@.len() == 0
                &&& final(self).byzantine_peers@.len() == 0
                &&& final(self).broadcast_rounds@.len() == 0
                &&& final(self).max_pending_rounds == old(self).max_pending_rounds
                &&& final(self).metrics == with_rounds_pending(
                    with_epoch(old(self).metrics, new_epoch),
                    0,
                )
            },
    {
        if self.initialized && new_epoch <= self.epoch {
            return Err(UpdateEpochError::EpochNotAdvanced);
        }
        let total = match check_committee(&authority_info) {
            Some(t) => t,
            None => {
                return Err(UpdateEpochError::InvalidCommittee);
            },
        };
        if aggregation_threshold == 0 || aggregation_threshold > total {
            return Err(UpdateEpochError::InvalidThreshold);
        }
        if !check_indexes_sorted(&dkg_output.share_ids) {
            return Err(UpdateEpochError::InvalidShareAssignment);
        }
        self.epoch = new_epoch;
        self.initialized = true;
        self.epoch_key = dkg_output.key;
        self.my_share_ids = dkg_output.share_ids;
        self.authorities = authority_info;
        self.aggregation_threshold = aggregation_threshold;
        self.highest_completed_round = recovered_last_completed_round;
        self.rounds = Vec::new();
        self.byzantine_peers = Vec::new();
        self.broadcast_rounds = Vec::new();
        self.metrics.set_epoch(new_epoch);
        self.metrics.set_num_rounds_pending(0);
        Ok(())
    }
}

/// Drops every pending round at or below a new watermark, keeping the rest
/// in order.
fn prune_rounds_vec(v: &mut Vec<RoundState>, watermark: u64)
    requires
        rounds_sorted(old(v)@),
    ensures
        rounds_sorted(final(v)@),
        forall|rs: RoundState|
            final(v)@.contains(rs) <==> old(v)@.contains(rs) && rs.round > watermark,
        final(v)@.len() <= old(v)@.len(),
        forall|i: int| 0 <= i < final(v)@.len() ==> old(v)@.contains(#[trigger] final(v)@[i]),
{
    let ghost pre = v@;
    while v.len() > 0 && v[0].round <= watermark
        invariant
            rounds_sorted(pre),
            v@.len() <= pre.len(),
            v@ == pre.subrange(pre.len() - v@.len(), pre.len() as int),
            forall|p: int| 0 <= p < pre.len() - v@.len() ==> pre[p].round <= watermark,
        decreases v@.len(),
    {
        v.remove(0);
        proof {
            assert(v@ =~= pre.subrange(pre.len() - v@.len(), pre.len() as int));
        }
    }
    proof {
        let k = pre.len() - v@.len();
        assert forall|rs: RoundState|
            #![trigger v@.contains(rs)]
            v@.contains(rs) implies pre.contains(rs) && rs.round > watermark by {
            let i = choose|i: int| 0 <= i < v@.len() && v@[i] == rs;
            assert(pre[k + i] == rs);
            assert(v@[0] == pre[k as int]);
            assert(pre[k as int].round > watermark);
            if i > 0 {
                assert(pre[k as int].round < pre[k + i].round);
            }
        }
        assert forall|rs: RoundState|
            #![trigger pre.contains(rs)]
            pre.contains(rs) && rs.round > watermark implies v@.contains(rs) by {
            let i = choose|i: int| 0 <= i < pre.len() && pre[i] == rs;
            assert(i >= k);
            assert(v@[i - k] == rs);
        }
    }
}

/// Drops every broadcast round at or below a new watermark.
fn prune_sorted_u64(v: &mut Vec<u64>, watermark: u64)
    requires
        indexes_sorted(old(v)@),
    ensures
        indexes_sorted(final(v)@),
        forall|x: u64| final(v)@.contains(x) <==> old(v)@.contains(x) && x > watermark,
{
    let ghost pre = v@;
    while v.len() > 0 && v[0] <= watermark
        invariant
            indexes_sorted(pre),
            v@.len() <= pre.len(),
            v@ == pre.subrange(pre.len() - v@.len(), pre.len() as int),
            forall|p: int| 0 <= p < pre.len() - v@.len() ==> pre[p] <= watermark,
        decreases v@.len(),
    {
        v.remove(0);
        proof {
            assert(v@ =~= pre.subrange(pre.len() - v@.len(), pre.len() as int));
        }
    }
    proof {
        let k = pre.len() - v@.len();
        assert forall|x: u64|
            #![trigger v@.contains(x)]
            v@.contains(x) implies pre.contains(x) && x > watermark by {
            let i = choose|i: int| 0 <= i < v@.len() && v@[i] == x;
            assert(pre[k + i] == x);
            assert(v@[0] == pre[k as int]);
            if i > 0 {
                assert(pre[k as int] < pre[k + i]);
            }
        }
        assert forall|x: u64|
            #![trigger pre.contains(x)]
            pre.contains(x) && x > watermark implies v@.contains(x) by {
            let i = choose|i: int| 0 <= i < pre.len() && pre[i] == x;
            assert(i >= k);
            assert(v@[i - k] == x);
        }
    }
}

/// Inserts a new round into a strictly sorted list of broadcast rounds.
fn insert_sorted_u64(v: &mut Vec<u64>, x: u64)
    requires
        indexes_sorted(old(v)@),
        !old(v)@.contains(x),
    ensures
        indexes_sorted(final(v)@),
        forall|y: u64| final(v)@.contains(y) <==> old(v)@.contains(y) || y == x,
{
    let ghost pre = v@;
    let mut k: usize = 0;
    while k < v.len() && v[k] < x
        invariant
            0 <= k <= v@.len(),
            v@ == pre,
            forall|p: int| 0 <= p < k ==> pre[p] < x,
        decreases v@.len() - k,
    {
        k = k + 1;
    }
    proof {
        if k < pre.len() {
            assert(pre[k as int] != x);
            assert(pre[k as int] > x);
        }
        assert forall|p: int| k <= p < pre.len() implies pre[p] > x by {
            if p > k {
                assert(pre[k as int] < pre[p]);
            }
        }
    }
    v.insert(k, x);
    proof {
        assert forall|y: u64|
            #![trigger v@.contains(y)]
            v@.contains(y) implies pre.contains(y) || y == x by {
            let i = choose|i: int| 0 <= i < v@.len() && v@[i] == y;
            if i < k {
                assert(pre[i] == y);
            } else if i > k {
                assert(pre[i - 1] == y);
            }
        }
        assert forall|y: u64|
            #![trigger pre.contains(y)]
            pre.contains(y) || y == x implies v@.contains(y) by {
            if y == x {
                assert(v@[k as int] == y);
            } else {
                let i = choose|i: int| 0 <= i < pre.len() && pre[i] == y;
                if i < k {
                    assert(v@[i] == y);
                } else {
                    assert(v@[i + 1] == y);
                }
            }
        }
        assert forall|i: int, j: int| 0 <= i < j < v@.len() implies v@[i] < v@[j] by {
            let ki = k as int;
            if i < ki && j == ki {
            } else if i == ki && j > ki {
            } else if i < ki && j > ki {
                assert(pre[i] < x);
            }
        }
    }
}

/// The state change of flagging one peer Byzantine: the peer joins the
/// epoch's exclusion set and the counter metric ticks; nothing else moves.
pub open spec fn flags_byzantine(pre: ActorState, post: ActorState, peer_id: u64) -> bool {
    &&& post.byzantine_peers@ == pre.byzantine_peers@.push(peer_id)
    &&& post.metrics == with_byzantine_inc(pre.metrics)
    &&& post.epoch == pre.epoch
    &&& post.initialized == pre.initialized
    &&& post.epoch_key == pre.epoch_key
    &&& post.my_share_ids == pre.my_share_ids
    &&& post.authorities == pre.authorities
    &&& post.aggregation_threshold == pre.aggregation_threshold
    &&& post.highest_completed_round == pre.highest_completed_round
    &&& post.rounds == pre.rounds
    &&& post.broadcast_rounds == pre.broadcast_rounds
    &&& post.max_pending_rounds == pre.max_pending_rounds
}

/// The state change of completing a round: the watermark advances to it,
/// every pending round and broadcast at or below it is dropped, and the
/// completion metrics are recorded; committee data and the Byzantine set
/// stay as they were.
pub open spec fn completes_to(pre: ActorState, post: ActorState, round: u64) -> bool {
    &&& post.epoch == pre.epoch
    &&& post.initialized == pre.initialized
    &&& post.epoch_key == pre.epoch_key
    &&& post.my_share_ids == pre.my_share_ids
    &&& post.authorities == pre.authorities
    &&& post.aggregation_threshold == pre.aggregation_threshold
    &&& post.highest_completed_round == Some(round)
    &&& rounds_sorted(post.rounds@)
    &&& forall|rs: RoundState|
        post.rounds@.contains(rs) <==> pre.rounds@.contains(rs) && rs.round > round
    &&& post.byzantine_peers == pre.byzantine_peers
    &&& indexes_sorted(post.broadcast_rounds@)
    &&& forall|x: u64|
        post.broadcast_rounds@.contains(x) <==> pre.broadcast_rounds@.contains(x) && x > round
    &&& post.max_pending_rounds == pre.max_pending_rounds
    &&& post.metrics == with_rounds_pending(
        with_completed_round(pre.metrics, round),
        post.rounds@.len() as u64,
    )
}

/// The outcome of a local completion signal.
#[derive(Clone, Copy, Debug, PartialEq, Eq, Structural)]
pub enum CompleteOutcome {
    /// The signal names another epoch; dropped silently.
    IgnoredWrongEpoch,
    /// The round is already at or below the watermark; a no-op.
    AlreadyCompleted,
    /// The watermark advanced and the round's state was dropped.
    Completed,
}

impl ActorState {
    /// Internal transition to a completed round above the watermark.
    fn apply_completion(&mut self, round: u64)
        requires
            old(self).wf(),
            round_above_watermark(old(self).highest_completed_round, round),
        ensures
            final(self).wf(),
            completes_to(*old(self), *final(self), round),
    {
        self.highest_completed_round = Some(round);
        prune_rounds_vec(&mut self.rounds, round);
        prune_sorted_u64(&mut self.broadcast_rounds, round);
        self.metrics.record_completed_round(round);
        let pending = self.rounds.len() as u64;
        self.metrics.set_num_rounds_pending(pending);
        proof {
            let pre = *old(self);
            assert forall|i: int| 0 <= i < self.rounds@.len() implies round_state_wf(
                self.authorities@,
                #[trigger] self.rounds@[i],
            ) by {
                assert(self.rounds@.contains(self.rounds@[i]));
                let j = choose|j: int|
                    0 <= j < pre.rounds@.len() && pre.rounds@[j] == self.rounds@[i];
                assert(round_state_wf(pre.authorities@, pre.rounds@[j]));
            }
            assert forall|i: int| 0 <= i < self.rounds@.len() implies round_above_watermark(
                self.highest_completed_round,
                (#[trigger] self.rounds@[i]).round,
            ) by {
                assert(self.rounds@.contains(self.rounds@[i]));
            }
            assert forall|i: int| 0 <= i < self.broadcast_rounds@.len() implies
                round_above_watermark(
                self.highest_completed_round,
                #[trigger] self.broadcast_rounds@[i],
            ) by {
                assert(self.broadcast_rounds@.contains(self.broadcast_rounds@[i]));
            }
            if !self.initialized {
                assert(self.rounds@.len() == 0) by {
                    if self.rounds@.len() > 0 {
                        assert(self.rounds@.contains(self.rounds@[0]));
                        assert(pre.rounds@.contains(self.rounds@[0]));
                    }
                }
                assert(self.broadcast_rounds@.len() == 0) by {
                    if self.broadcast_rounds@.len() > 0 {
                        assert(self.broadcast_rounds@.contains(self.broadcast_rounds@[0]));
                        assert(pre.broadcast_rounds@.contains(self.broadcast_rounds@[0]));
                    }
                }
            }
        }
    }

    /// Records a round as complete, learned through a path other than local
    /// aggregation: advances the watermark if applicable, cancels the
    /// round's broadcasts and drops its accumulation state. Signals for
    /// other epochs, and rounds already at or below the watermark, are
    /// no-ops.
    pub fn complete_round(&mut self, epoch: u64, round: u64) -> (r: CompleteOutcome)
        requires
            old(self).wf(),
        ensures
            final(self).wf(),
            r == CompleteOutcome::IgnoredWrongEpoch <==> epoch != old(self).epoch,
            r == CompleteOutcome::AlreadyCompleted <==> epoch == old(self).epoch && old(
                self,
            ).round_is_stale(round),
            r == CompleteOutcome::Completed <==> epoch == old(self).epoch && !old(
                self,
            ).round_is_stale(round),
            r != CompleteOutcome::Completed ==> *final(self) == *old(self),
            r == CompleteOutcome::Completed ==> completes_to(*old(self), *final(self), round),
            watermark_monotone(*old(self), *final(self)),
    {
        if epoch != self.epoch {
            return CompleteOutcome::IgnoredWrongEpoch;
        }
        let stale = match self.highest_completed_round {
            Some(h) => round <= h,
            None => false,
        };
        if stale {
            return CompleteOutcome::AlreadyCompleted;
        }
        self.apply_completion(round);
        CompleteOutcome::Completed
    }

    /// Idempotently adds a peer to the epoch's Byzantine set and counts it.
    /// Signals for other epochs, or before any epoch is installed, change
    /// nothing, as does a peer already flagged. Returns whether the peer was
    /// newly flagged.
    pub fn maybe_ignore_byzantine_peer(&mut self, epoch: u64, peer_id: u64) -> (newly_flagged:
        bool)
        requires
            old(self).wf(),
        ensures
            final(self).wf(),
            newly_flagged <==> {
                &&& epoch == old(self).epoch
                &&& old(self).initialized
                &&& !old(self).peer_is_byzantine(peer_id)
            },
            newly_flagged ==> flags_byzantine(*old(self), *final(self), peer_id),
            !newly_flagged ==> *final(self) == *old(self),
            final(self).peer_is_byzantine(peer_id) <==> old(self).peer_is_byzantine(peer_id)
                || newly_flagged,
    {
        if epoch != self.epoch || !self.initialized {
            return false;
        }
        if contains_u64(&self.byzantine_peers, peer_id) {
            return false;
        }
        self.byzantine_peers.push(peer_id);
        self.metrics.inc_num_ignored_byzantine_peers();
        proof {
            assert(self.byzantine_peers@[self.byzantine_peers@.len() - 1] == peer_id);
            assert(self.byzantine_peers@.contains(peer_id));
            assert forall|i: int, j: int|
                0 <= i < j < self.byzantine_peers@.len() implies self.byzantine_peers@[i]
                != self.byzantine_peers@[j] by {
                if j == self.byzantine_peers@.len() - 1 {
                    assert(old(self).byzantine_peers@.contains(old(self).byzantine_peers@[i]));
                }
            }
        }
        true
    }
}

/// Whether a list of identifiers contains one.
fn contains_u64(v: &Vec<u64>, x: u64) -> (r: bool)
    ensures
        r <==> v@.contains(x),
{
    let mut i: usize = 0;
    while i < v.len()
        invariant
            0 <= i <= v@.len(),
            forall|p: int| 0 <= p < i ==> v@[p] != x,
        decreases v@.len() - i,
    {
        if v[i] == x {
            assert(v@.contains(x));
            return true;
        }
        i = i + 1;
    }
    false
}

/// The wire request broadcasting one round's partial signatures to a peer.
/// The signatures are raw byte strings, ordered by share index; a node that
/// already holds the round's full signature sends it in place of partials.
#[derive(Debug)]
pub struct SendSignaturesRequest {
    pub epoch: u64,
    pub round: u64,
    pub partial_sigs: Vec<Vec<u8>>,
    pub sig: Option<FullSignature>,
}

/// The encoded partial signatures this node contributes for a round, one
/// per owned share index, in share-index order.
pub open spec fn own_encoded_sigs(key: u64, round: u64, shares: Seq<u64>) -> Seq<Seq<u8>> {
    Seq::new(
        shares.len(),
        |i: int| encoded_partial_signature(shares[i], partial_payload(key, round, shares[i])),
    )
}

/// The outcome of a request to broadcast this node's partial signatures.
#[derive(Debug)]
pub enum SendOutcome {
    /// The request names another epoch; dropped silently.
    IgnoredWrongEpoch,
    /// No key material installed yet: a local misconfiguration, rejected.
    NotInitialized,
    /// The round is already at or below the watermark; dropped silently.
    IgnoredCompletedRound,
    /// A broadcast for this round is already running.
    AlreadyBroadcasting,
    /// Broadcasts should start: one request, sent to each listed peer.
    Started(SendSignaturesRequest, Vec<u64>),
}

impl ActorState {
    /// Begins transmitting this node's partial signatures for a round. The
    /// returned request carries one encoded signature per owned share, in
    /// share-index order, and is addressed to every committee peer; the
    /// round is recorded as broadcasting until completed or the epoch moves.
    pub fn send_partial_signatures(&mut self, epoch: u64, round: u64) -> (r: SendOutcome)
        requires
            old(self).wf(),
        ensures
            final(self).wf(),
            r is IgnoredWrongEpoch <==> epoch != old(self).epoch,
            r is NotInitialized <==> epoch == old(self).epoch && !old(self).initialized,
            r is IgnoredCompletedRound <==> {
                &&& epoch == old(self).epoch
                &&& old(self).initialized
                &&& old(self).round_is_stale(round)
            },
            r is AlreadyBroadcasting <==> {
                &&& epoch == old(self).epoch
                &&& old(self).initialized
                &&& !old(self).round_is_stale(round)
                &&& old(self).broadcast_rounds@.contains(round)
            },
            r is Started <==> {
                &&& epoch == old(self).epoch
                &&& old(self).initialized
                &&& !old(self).round_is_stale(round)
                &&& !old(self).broadcast_rounds@.contains(round)
            },
            !(r is Started) ==> *final(self) == *old(self),
            r matches SendOutcome::Started(req, peers) ==> {
                &&& req.epoch == epoch
                &&& req.round == round
                &&& req.sig is None
                &&& req.partial_sigs@.len() == old(self).my_share_ids@.len()
                &&& forall|i: int|
                    0 <= i < req.partial_sigs@.len() ==> (#[trigger] req.partial_sigs@[i])@
                        == own_encoded_sigs(
                        old(self).epoch_key,
                        round,
                        old(self).my_share_ids@,
                    )[i]
                &&& peers@.len() == old(self).authorities@.len()
                &&& forall|i: int|
                    0 <= i < peers@.len() ==> peers@[i] == (#[trigger] old(
                        self,
                    ).authorities@[i]).peer_id
                &&& indexes_sorted(final(self).broadcast_rounds@)
                &&& forall|y: u64|
                    final(self).broadcast_rounds@.contains(y) <==> old(
                        self,
                    ).broadcast_rounds@.contains(y) || y == round
                &&& final(self).epoch == old(self).epoch
                &&& final(self).initialized == old(self).initialized
                &&& final(self).epoch_key == old(self).epoch_key
                &&& final(self).my_share_ids == old(self).my_share_ids
                &&& final(self).authorities == old(self).authorities
                &&& final(self).aggregation_threshold == old(self).aggregation_threshold
                &&& final(self).highest_completed_round == old(self).highest_completed_round
                &&& final(self).rounds == old(self).rounds
                &&& final(self).byzantine_peers == old(self).byzantine_peers
                &&& final(self).max_pending_rounds == old(self).max_pending_rounds
                &&& final(self).metrics == old(self).metrics
            },
    {
        if epoch != self.epoch {
            return SendOutcome::IgnoredWrongEpoch;
        }
        if !self.initialized {
            return SendOutcome::NotInitialized;
        }
        let stale = match self.highest_completed_round {
            Some(h) => round <= h,
            None => false,
        };
        if stale {
            return SendOutcome::IgnoredCompletedRound;
        }
        if contains_u64(&self.broadcast_rounds, round) {
            return SendOutcome::AlreadyBroadcasting;
        }
        let ghost shares = self.my_share_ids@;
        let ghost key = self.epoch_key;
        let mut partial_sigs: Vec<Vec<u8>> = Vec::new();
        let mut i: usize = 0;
        while i < self.my_share_ids.len()
            invariant
                0 <= i <= shares.len(),
                self.my_share_ids@ == shares,
                self.epoch_key == key,
                partial_sigs@.len() == i,
                forall|p: int|
                    0 <= p < i ==> (#[trigger] partial_sigs@[p])@ == own_encoded_sigs(
                        key,
                        round,
                        shares,
                    )[p],
            decreases shares.len() - i,
        {
            let sig = sign_partial(self.epoch_key, round, self.my_share_ids[i]);
            let bytes = encode_partial_signature(&sig);
            partial_sigs.push(bytes);
            i = i + 1;
        }
        let mut peers: Vec<u64> = Vec::new();
        let mut j: usize = 0;
        while j < self.authorities.len()
            invariant
                0 <= j <= self.authorities@.len(),
                peers@.len() == j,
                forall|p: int|
                    0 <= p < j ==> peers@[p] == (#[trigger] self.authorities@[p]).peer_id,
            decreases self.authorities@.len() - j,
        {
            peers.push(self.authorities[j].peer_id);
            j = j + 1;
        }
        insert_sorted_u64(&mut self.broadcast_rounds, round);
        proof {
            assert forall|k: int| 0 <= k < self.broadcast_rounds@.len() implies
                round_above_watermark(
                self.highest_completed_round,
                #[trigger] self.broadcast_rounds@[k],
            ) by {
                assert(self.broadcast_rounds@.contains(self.broadcast_rounds@[k]));
                if self.broadcast_rounds@[k] != round {
                    assert(old(self).broadcast_rounds@.contains(self.broadcast_rounds@[k]));
                }
            }
        }
        SendOutcome::Started(
            SendSignaturesRequest { epoch, round, partial_sigs, sig: None },
            peers,
        )
    }
}

/// Copies a byte string.
fn clone_bytes(v: &Vec<u8>) -> (r: Vec<u8>)
    ensures
        r@ == v@,
{
    let mut r: Vec<u8> = Vec::new();
    let mut i: usize = 0;
    while i < v.len()
        invariant
            0 <= i <= v@.len(),
            r@ == v@.subrange(0, i as int),
        decreases v@.len() - i,
    {
        r.push(v[i]);
        i = i + 1;
        proof {
            assert(r@ =~= v@.subrange(0, i as int));
        }
    }
    proof {
        assert(v@.subrange(0, v@.len() as int) =~= v@);
    }
    r
}

/// Copies a partial signature.
fn clone_sig(s: &PartialSignature) -> (r: PartialSignature)
    ensures
        r.index == s.index,
        r.payload@ == s.payload@,
        sig_pair(r) == sig_pair(*s),
{
    PartialSignature { index: s.index, payload: clone_bytes(&s.payload) }
}

/// Two committee entries with the same party are the same entry.
proof fn lemma_party_unique(auths: Seq<AuthorityEntry>, i: int, j: int)
    requires
        committee_wf(auths),
        0 <= i < auths.len(),
        0 <= j < auths.len(),
        auths[i].party_id == auths[j].party_id,
    ensures
        i == j,
{
}

/// A committee entry's share set is its party's share set.
proof fn lemma_party_shares_of_entry(auths: Seq<AuthorityEntry>, k: int)
    requires
        committee_wf(auths),
        0 <= k < auths.len(),
    ensures
        party_known(auths, auths[k].party_id),
        party_shares(auths, auths[k].party_id) == auths[k].share_ids@,
{
    assert(0 <= k < auths.len() && auths[k].party_id == auths[k].party_id);
    let i = choose|i: int|
        0 <= i < auths.len() && (#[trigger] auths[i]).party_id == auths[k].party_id;
    lemma_party_unique(auths, i, k);
}

/// Every share of a lower party precedes every share of a higher one.
proof fn lemma_party_order_shares(auths: Seq<AuthorityEntry>, p: u16, q: u16)
    requires
        committee_wf(auths),
        party_known(auths, p),
        party_known(auths, q),
        p < q,
    ensures
        forall|a: int, b: int|
            0 <= a < party_shares(auths, p).len() && 0 <= b < party_shares(auths, q).len()
                ==> party_shares(auths, p)[a] < party_shares(auths, q)[b],
{
    let i = choose|i: int| 0 <= i < auths.len() && (#[trigger] auths[i]).party_id == p;
    let j = choose|j: int| 0 <= j < auths.len() && (#[trigger] auths[j]).party_id == q;
    lemma_party_shares_of_entry(auths, i);
    lemma_party_shares_of_entry(auths, j);
    assert(i != j);
    if j < i {
        assert(auths[j].party_id < auths[i].party_id);
    }
}

/// Dropping the last contribution drops its pairs from the flattened view.
proof fn lemma_flat_sigs_step(cs: Seq<Contribution>, k: int)
    requires
        0 <= k < cs.len(),
    ensures
        flat_sigs(cs.subrange(0, k + 1)) == flat_sigs(cs.subrange(0, k)) + sigs_view(
            cs[k].sigs@,
        ),
{
    let prefix = cs.subrange(0, k + 1);
    assert(prefix.drop_last() =~= cs.subrange(0, k));
    assert(prefix.last() == cs[k]);
}

/// The flattened view of ordered, well-formed contributions is in strictly
/// increasing share-index order, and every pair's index is a share of some
/// contributing party.
proof fn lemma_flat_sorted(auths: Seq<AuthorityEntry>, cs: Seq<Contribution>)
    requires
        committee_wf(auths),
        contributions_sorted(cs),
        forall|i: int| 0 <= i < cs.len() ==> contribution_wf(auths, #[trigger] cs[i]),
    ensures
        pair_sorted(flat_sigs(cs)),
        forall|t: int|
            0 <= t < flat_sigs(cs).len() ==> exists|i: int|
                0 <= i < cs.len() && party_shares(auths, (#[trigger] cs[i]).party_id).contains(
                    (#[trigger] flat_sigs(cs)[t]).0,
                ),
    decreases cs.len(),
{
    if cs.len() > 0 {
        let prefix = cs.drop_last();
        let c = cs.last();
        assert(forall|i: int| 0 <= i < prefix.len() ==> prefix[i] == cs[i]);
        lemma_flat_sorted(auths, prefix);
        let flat = flat_sigs(cs);
        let fp = flat_sigs(prefix);
        let cv = sigs_view(c.sigs@);
        assert(flat == fp + cv);
        assert forall|t: int| 0 <= t < flat.len() implies exists|i: int|
            0 <= i < cs.len() && party_shares(auths, (#[trigger] cs[i]).party_id).contains(
                (#[trigger] flat[t]).0,
            ) by {
            if t < fp.len() {
                let i = choose|i: int|
                    0 <= i < prefix.len() && party_shares(
                        auths,
                        (#[trigger] prefix[i]).party_id,
                    ).contains(fp[t].0);
                assert(cs[i] == prefix[i]);
                assert(party_shares(auths, cs[i].party_id).contains(flat[t].0));
            } else {
                let k = t - fp.len();
                assert(cv[k] == sig_pair(c.sigs@[k]));
                assert(party_shares(auths, c.party_id).contains(c.sigs@[k].index));
                let last = cs.len() - 1;
                assert(cs[last] == c);
                assert(party_shares(auths, cs[last].party_id).contains(flat[t].0));
            }
        }
        assert forall|t1: int, t2: int| 0 <= t1 < t2 < flat.len() implies flat[t1].0
            < flat[t2].0 by {
            if t2 < fp.len() {
                assert(fp[t1].0 < fp[t2].0);
            } else if t1 >= fp.len() {
                let k1 = t1 - fp.len();
                let k2 = t2 - fp.len();
                assert(cv[k1] == sig_pair(c.sigs@[k1]));
                assert(cv[k2] == sig_pair(c.sigs@[k2]));
                assert(c.sigs@[k1].index < c.sigs@[k2].index);
            } else {
                let i = choose|i: int|
                    0 <= i < prefix.len() && party_shares(
                        auths,
                        (#[trigger] prefix[i]).party_id,
                    ).contains(fp[t1].0);
                let k2 = t2 - fp.len();
                assert(cv[k2] == sig_pair(c.sigs@[k2]));
                assert(party_shares(auths, c.party_id).contains(c.sigs@[k2].index));
                assert(cs[i] == prefix[i]);
                assert(prefix[i].party_id < c.party_id);
                assert(contribution_wf(auths, cs[i]));
                lemma_party_order_shares(auths, prefix[i].party_id, c.party_id);
                let shares_p = party_shares(auths, prefix[i].party_id);
                let shares_q = party_shares(auths, c.party_id);
                let a = choose|a: int| 0 <= a < shares_p.len() && shares_p[a] == fp[t1].0;
                let b = choose|b: int| 0 <= b < shares_q.len() && shares_q[b] == cv[k2].0;
                assert(shares_p[a] < shares_q[b]);
            }
        }
    }
}

/// Finds the accumulation state of a round, if any.
fn find_round_index(rounds: &Vec<RoundState>, round: u64) -> (r: Option<usize>)
    ensures
        r matches Some(k) ==> k < rounds@.len() && rounds@[k as int].round == round,
        r is None ==> forall|i: int| 0 <= i < rounds@.len() ==> rounds@[i].round != round,
{
    let mut i: usize = 0;
    while i < rounds.len()
        invariant
            0 <= i <= rounds@.len(),
            forall|p: int| 0 <= p < i ==> rounds@[p].round != round,
        decreases rounds@.len() - i,
    {
        if rounds[i].round == round {
            return Some(i);
        }
        i = i + 1;
    }
    None
}

/// Finds the committee entry of a peer, if the peer is a member.
fn find_authority_by_peer(auths: &Vec<AuthorityEntry>, peer_id: u64) -> (r: Option<usize>)
    ensures
        r matches Some(k) ==> k < auths@.len() && auths@[k as int].peer_id == peer_id,
        r is None ==> forall|i: int| 0 <= i < auths@.len() ==> auths@[i].peer_id != peer_id,
{
    let mut i: usize = 0;
    while i < auths.len()
        invariant
            0 <= i <= auths@.len(),
            forall|p: int| 0 <= p < i ==> auths@[p].peer_id != peer_id,
        decreases auths@.len() - i,
    {
        if auths[i].peer_id == peer_id {
            return Some(i);
        }
        i = i + 1;
    }
    None
}

/// Finds the committee entry of a validator name, if it is a member.
fn find_authority_by_name(auths: &Vec<AuthorityEntry>, name: u64) -> (r: Option<usize>)
    ensures
        r matches Some(k) ==> k < auths@.len() && auths@[k as int].name == name,
        r is None ==> forall|i: int| 0 <= i < auths@.len() ==> auths@[i].name != name,
{
    let mut i: usize = 0;
    while i < auths.len()
        invariant
            0 <= i <= auths@.len(),
            forall|p: int| 0 <= p < i ==> auths@[p].name != name,
        decreases auths@.len() - i,
    {
        if auths[i].name == name {
            return Some(i);
        }
        i = i + 1;
    }
    None
}

/// Replaces a party's contribution, or inserts it at its party-ordered
/// position; contributions of other parties are untouched.
fn upsert_contribution(cs: &mut Vec<Contribution>, c: Contribution)
    requires
        contributions_sorted(old(cs)@),
    ensures
        contributions_sorted(final(cs)@),
        forall|x: Contribution|
            final(cs)@.contains(x) <==> ((old(cs)@.contains(x) && x.party_id != c.party_id) || x
                == c),
{
    let ghost pre = cs@;
    let mut k: usize = 0;
    while k < cs.len() && cs[k].party_id < c.party_id
        invariant
            0 <= k <= cs@.len(),
            cs@ == pre,
            forall|p: int| 0 <= p < k ==> pre[p].party_id < c.party_id,
        decreases cs@.len() - k,
    {
        k = k + 1;
    }
    proof {
        assert forall|p: int| k <= p < pre.len() implies pre[p].party_id >= c.party_id by {
            if p > k {
                assert(pre[k as int].party_id < pre[p].party_id);
            }
        }
    }
    let ghost replaced = k < pre.len() && pre[k as int].party_id == c.party_id;
    if k < cs.len() && cs[k].party_id == c.party_id {
        cs.set(k, c);
    } else {
        proof {
            assert forall|p: int| k <= p < pre.len() implies pre[p].party_id > c.party_id by {
                if p == k {
                    assert(pre[k as int].party_id >= c.party_id);
                    assert(pre[k as int].party_id != c.party_id);
                } else {
                    assert(pre[k as int].party_id < pre[p].party_id);
                    assert(pre[k as int].party_id >= c.party_id);
                }
            }
        }
        cs.insert(k, c);
    }
    proof {
        let ki = k as int;
        if replaced {
            assert(cs@ == pre.update(ki, c));
            assert forall|x: Contribution|
                #![trigger cs@.contains(x)]
                #![trigger pre.contains(x)]
                cs@.contains(x) == ((pre.contains(x) && x.party_id != c.party_id) || x == c) by {
                if cs@.contains(x) {
                    let i = choose|i: int| 0 <= i < cs@.len() && cs@[i] == x;
                    if i != ki {
                        assert(pre[i] == x);
                        if i < ki {
                            assert(pre[i].party_id < pre[ki].party_id);
                        } else {
                            assert(pre[ki].party_id < pre[i].party_id);
                        }
                    }
                }
                if (pre.contains(x) && x.party_id != c.party_id) || x == c {
                    if x == c {
                        assert(cs@[ki] == x);
                    } else {
                        let i = choose|i: int| 0 <= i < pre.len() && pre[i] == x;
                        assert(i != ki);
                        assert(cs@[i] == x);
                    }
                    assert(cs@.contains(x));
                }
            }
        } else {
            assert(cs@ == pre.insert(ki, c));
            assert forall|p: int| ki <= p < pre.len() implies pre[p].party_id > c.party_id by {
                if p == ki {
                    assert(pre[ki].party_id >= c.party_id);
                    assert(pre[ki].party_id != c.party_id);
                } else {
                    assert(pre[ki].party_id < pre[p].party_id);
                    assert(pre[ki].party_id >= c.party_id);
                }
            }
            assert forall|x: Contribution|
                #![trigger cs@.contains(x)]
                #![trigger pre.contains(x)]
                cs@.contains(x) == ((pre.contains(x) && x.party_id != c.party_id) || x == c) by {
                if cs@.contains(x) {
                    let i = choose|i: int| 0 <= i < cs@.len() && cs@[i] == x;
                    if i < ki {
                        assert(pre[i] == x);
                        assert(pre[i].party_id < c.party_id);
                    } else if i > ki {
                        assert(pre[i - 1] == x);
                        assert(pre[i - 1].party_id > c.party_id);
                    }
                }
                if (pre.contains(x) && x.party_id != c.party_id) || x == c {
                    if x == c {
                        assert(cs@[ki] == x);
                    } else {
                        let i = choose|i: int| 0 <= i < pre.len() && pre[i] == x;
                        if i < ki {
                            assert(cs@[i] == x);
                        } else {
                            assert(cs@[i + 1] == x);
                        }
                    }
                    assert(cs@.contains(x));
                }
            }
            assert forall|i: int, j: int| 0 <= i < j < cs@.len() implies cs@[i].party_id
                < cs@[j].party_id by {
                if i < ki && j == ki {
                } else if i == ki && j > ki {
                } else if i < ki && j > ki {
                    assert(pre[i].party_id < c.party_id);
                }
            }
        }
    }
}

/// Inserts a fresh round's state at its round-ordered position.
fn insert_round_sorted(rounds: &mut Vec<RoundState>, rs: RoundState)
    requires
        rounds_sorted(old(rounds)@),
        forall|i: int| 0 <= i < old(rounds)@.len() ==> old(rounds)@[i].round != rs.round,
    ensures
        rounds_sorted(final(rounds)@),
        forall|x: RoundState|
            final(rounds)@.contains(x) <==> old(rounds)@.contains(x) || x == rs,
{
    let ghost pre = rounds@;
    let mut k: usize = 0;
    while k < rounds.len() && rounds[k].round < rs.round
        invariant
            0 <= k <= rounds@.len(),
            rounds@ == pre,
            forall|p: int| 0 <= p < k ==> pre[p].round < rs.round,
        decreases rounds@.len() - k,
    {
        k = k + 1;
    }
    proof {
        assert forall|p: int| k <= p < pre.len() implies pre[p].round > rs.round by {
            if p == k {
                assert(pre[k as int].round >= rs.round);
                assert(pre[k as int].round != rs.round);
            } else {
                assert(pre[k as int].round < pre[p].round);
                assert(pre[k as int].round >= rs.round);
                assert(pre[k as int].round != rs.round);
            }
        }
    }
    rounds.insert(k, rs);
    proof {
        let ki = k as int;
        assert forall|x: RoundState|
            #![trigger rounds@.contains(x)]
            #![trigger pre.contains(x)]
            rounds@.contains(x) == (pre.contains(x) || x == rs) by {
            if rounds@.contains(x) {
                let i = choose|i: int| 0 <= i < rounds@.len() && rounds@[i] == x;
                if i < ki {
                    assert(pre[i] == x);
                } else if i > ki {
                    assert(pre[i - 1] == x);
                }
            }
            if pre.contains(x) || x == rs {
                if x == rs {
                    assert(rounds@[ki] == x);
                } else {
                    let i = choose|i: int| 0 <= i < pre.len() && pre[i] == x;
                    if i < ki {
                        assert(rounds@[i] == x);
                    } else {
                        assert(rounds@[i + 1] == x);
                    }
                }
                assert(rounds@.contains(x));
            }
        }
        assert forall|i: int, j: int| 0 <= i < j < rounds@.len() implies rounds@[i].round
            < rounds@[j].round by {
            if i < ki && j == ki {
            } else if i == ki && j > ki {
            } else if i < ki && j > ki {
                assert(pre[i].round < rs.round);
            }
        }
    }
}

/// Flattens a round's contributions into one ordered list of partial
/// signatures for aggregation.
fn flatten_contributions(cs: &Vec<Contribution>) -> (r: Vec<PartialSignature>)
    ensures
        sigs_view(r@) == flat_sigs(cs@),
{
    let mut r: Vec<PartialSignature> = Vec::new();
    let mut i: usize = 0;
    while i < cs.len()
        invariant
            0 <= i <= cs@.len(),
            sigs_view(r@) == flat_sigs(cs@.subrange(0, i as int)),
        decreases cs@.len() - i,
    {
        let mut k: usize = 0;
        while k < cs[i].sigs.len()
            invariant
                0 <= i < cs@.len(),
                0 <= k <= cs@[i as int].sigs@.len(),
                sigs_view(r@) == flat_sigs(cs@.subrange(0, i as int)) + sigs_view(
                    cs@[i as int].sigs@.subrange(0, k as int),
                ),
            decreases cs@[i as int].sigs@.len() - k,
        {
            let ghost r_before = r@;
            let s = clone_sig(&cs[i].sigs[k]);
            let ghost sp = sig_pair(s);
            r.push(s);
            k = k + 1;
            proof {
                let c_sigs = cs@[i as int].sigs@;
                let fl = flat_sigs(cs@.subrange(0, i as int));
                let prev = fl + sigs_view(c_sigs.subrange(0, k - 1));
                let cur = fl + sigs_view(c_sigs.subrange(0, k as int));
                assert(sigs_view(r_before) == prev);
                assert(sp == sig_pair(c_sigs[k - 1]));
                assert forall|p: int| 0 <= p < sigs_view(r@).len() implies sigs_view(r@)[p]
                    == cur[p] by {
                    assert(sigs_view(r@)[p] == sig_pair(r@[p]));
                    if p < r_before.len() {
                        assert(r@[p] == r_before[p]);
                        assert(sigs_view(r_before)[p] == sig_pair(r_before[p]));
                        if p >= fl.len() {
                            assert(sigs_view(c_sigs.subrange(0, k - 1))[p - fl.len()]
                                == sig_pair(c_sigs.subrange(0, k - 1)[p - fl.len()]));
                            assert(c_sigs.subrange(0, k - 1)[p - fl.len()] == c_sigs[p - fl.len()]);
                            assert(sigs_view(c_sigs.subrange(0, k as int))[p - fl.len()]
                                == sig_pair(c_sigs.subrange(0, k as int)[p - fl.len()]));
                        }
                    } else {
                        assert(r@[p] == r_before.push(s)[r_before.len() as int]);
                        assert(sig_pair(r@[p]) == sp);
                        assert(cur[p] == sigs_view(c_sigs.subrange(0, k as int))[k - 1]);
                        assert(c_sigs.subrange(0, k as int)[k - 1] == c_sigs[k - 1]);
                    }
                }
                assert(sigs_view(r@) =~= cur);
            }
        }
        i = i + 1;
        proof {
            lemma_flat_sigs_step(cs@, i as int - 1);
            assert(cs@[i as int - 1].sigs@.subrange(0, cs@[i as int - 1].sigs@.len() as int)
                =~= cs@[i as int - 1].sigs@);
        }
    }
    proof {
        assert(cs@.subrange(0, cs@.len() as int) =~= cs@);
    }
    r
}

/// Whether every entry of an inbound message is long enough to carry a
/// share index.
pub open spec fn wire_well_formed(bytes: Seq<Vec<u8>>) -> bool {
    forall|i: int| 0 <= i < bytes.len() ==> (#[trigger] bytes[i])@.len() >= 8
}

/// The index/payload pairs an inbound message decodes to.
pub open spec fn wire_view(bytes: Seq<Vec<u8>>) -> Seq<(u64, Seq<u8>)> {
    Seq::new(
        bytes.len(),
        |i: int|
            (
                u64_from_be_bytes(bytes[i]@.subrange(0, 8)),
                bytes[i]@.subrange(8, bytes[i]@.len() as int),
            ),
    )
}

/// Whether an inbound message is acceptable from a sender owning the given
/// shares: every entry decodes, the indexes are strictly increasing, and
/// each one is a share of the sender. Anything else is protocol-invalid
/// input attributed to the sender.
pub open spec fn sender_acceptable(bytes: Seq<Vec<u8>>, shares: Seq<u64>) -> bool {
    &&& wire_well_formed(bytes)
    &&& pair_sorted(wire_view(bytes))
    &&& pairs_owned_by(wire_view(bytes), shares)
}

/// Decodes an inbound message and validates it against the sender's share
/// set; fails exactly on protocol-invalid input.
fn decode_and_validate(bytes: &Vec<Vec<u8>>, shares: &Vec<u64>) -> (r: Option<
    Vec<PartialSignature>,
>)
    ensures
        r is Some <==> sender_acceptable(bytes@, shares@),
        r matches Some(v) ==> {
            &&& sigs_view(v@) == wire_view(bytes@)
            &&& strictly_sorted_by_index(v@)
            &&& forall|i: int| 0 <= i < v@.len() ==> shares@.contains((#[trigger] v@[i]).index)
        },
{
    let mut out: Vec<PartialSignature> = Vec::new();
    let mut i: usize = 0;
    while i < bytes.len()
        invariant
            0 <= i <= bytes@.len(),
            out@.len() == i,
            forall|p: int| 0 <= p < i ==> (#[trigger] bytes@[p])@.len() >= 8,
            forall|p: int| 0 <= p < i ==> sig_pair(#[trigger] out@[p]) == wire_view(bytes@)[p],
            strictly_sorted_by_index(out@),
            forall|p: int| 0 <= p < i ==> shares@.contains((#[trigger] out@[p]).index),
        decreases bytes@.len() - i,
    {
        let decoded = decode_partial_signature(&bytes[i]);
        match decoded {
            None => {
                return None;
            },
            Some(s) => {
                if out.len() > 0 {
                    let last = out.len() - 1;
                    if out[last].index >= s.index {
                        proof {
                            let wv = wire_view(bytes@);
                            assert(wv[i as int - 1].0 == out@[i as int - 1].index);
                            assert(wv[i as int].0 == s.index);
                            assert(!pair_sorted(wv));
                        }
                        return None;
                    }
                }
                if !contains_u64(shares, s.index) {
                    proof {
                        assert(wire_view(bytes@)[i as int].0 == s.index);
                        assert(!pairs_owned_by(wire_view(bytes@), shares@));
                    }
                    return None;
                }
                out.push(s);
            },
        }
        i = i + 1;
    }
    proof {
        assert(sigs_view(out@) =~= wire_view(bytes@));
    }
    Some(out)
}

/// Whether some round has accumulation state.
pub open spec fn has_round(rounds: Seq<RoundState>, round: u64) -> bool {
    exists|i: int| 0 <= i < rounds.len() && (#[trigger] rounds[i]).round == round
}

/// The accumulation state of a round (meaningful when `has_round` holds; the
/// entry is unique because rounds are strictly ordered).
pub open spec fn round_entry(rounds: Seq<RoundState>, round: u64) -> RoundState {
    rounds[choose|i: int| 0 <= i < rounds.len() && (#[trigger] rounds[i]).round == round]
}

/// The contributions already accumulated for a round; empty when none.
pub open spec fn prior_contributions(rounds: Seq<RoundState>, round: u64) -> Seq<Contribution> {
    if has_round(rounds, round) {
        round_entry(rounds, round).contributions@
    } else {
        Seq::empty()
    }
}

/// The failed aggregation attempts already counted for a round.
pub open spec fn prior_attempts(rounds: Seq<RoundState>, round: u64) -> u64 {
    if has_round(rounds, round) {
        round_entry(rounds, round).attempts
    } else {
        0
    }
}

/// Whether a round was already marked stuck.
pub open spec fn prior_stuck(rounds: Seq<RoundState>, round: u64) -> bool {
    if has_round(rounds, round) {
        round_entry(rounds, round).stuck
    } else {
        false
    }
}

/// In a strictly ordered round list, the entry at a known index is the
/// round's unique entry.
proof fn lemma_round_entry_at(rounds: Seq<RoundState>, k: int)
    requires
        rounds_sorted(rounds),
        0 <= k < rounds.len(),
    ensures
        has_round(rounds, rounds[k].round),
        round_entry(rounds, rounds[k].round) == rounds[k],
{
    let round = rounds[k].round;
    assert(0 <= k < rounds.len() && rounds[k].round == round);
    let i = choose|i: int| 0 <= i < rounds.len() && (#[trigger] rounds[i]).round == round;
    if i < k {
        assert(rounds[i].round < rounds[k].round);
    } else if i > k {
        assert(rounds[k].round < rounds[i].round);
    }
}

/// The committee entry of a peer (meaningful when the peer is known; unique
/// because peers are pairwise distinct).
pub open spec fn peer_entry(auths: Seq<AuthorityEntry>, peer_id: u64) -> AuthorityEntry {
    auths[choose|i: int| 0 <= i < auths.len() && (#[trigger] auths[i]).peer_id == peer_id]
}

/// In a well-formed committee, the entry at a known index is the peer's
/// unique entry.
proof fn lemma_peer_entry_at(auths: Seq<AuthorityEntry>, k: int)
    requires
        committee_wf(auths),
        0 <= k < auths.len(),
    ensures
        peer_entry(auths, auths[k].peer_id) == auths[k],
{
    let peer = auths[k].peer_id;
    assert(0 <= k < auths.len() && auths[k].peer_id == peer);
    let i = choose|i: int| 0 <= i < auths.len() && (#[trigger] auths[i]).peer_id == peer;
    if i < k {
        assert(auths[i].peer_id != auths[k].peer_id);
    } else if i > k {
        assert(auths[k].peer_id != auths[i].peer_id);
    }
}

/// How one sender's contribution changes a round's accumulated set: the
/// sender's previous contribution, if any, is replaced by the new one; every
/// other party's contribution is kept as it was.
pub open spec fn updated_contributions(
    prior: Seq<Contribution>,
    party: u16,
    new_view: Seq<(u64, Seq<u8>)>,
    cs: Seq<Contribution>,
) -> bool {
    &&& contributions_sorted(cs)
    &&& forall|x: Contribution|
        #![trigger cs.contains(x)]
        cs.contains(x) && x.party_id != party ==> prior.contains(x)
    &&& forall|x: Contribution|
        #![trigger prior.contains(x)]
        prior.contains(x) && x.party_id != party ==> cs.contains(x)
    &&& exists|x: Contribution|
        cs.contains(x) && (#[trigger] x.party_id) == party && sigs_view(x.sigs@) == new_view
    &&& forall|x: Contribution|
        #![trigger cs.contains(x)]
        cs.contains(x) && x.party_id == party ==> sigs_view(x.sigs@) == new_view
}

/// The state change of accumulating one round's updated contributions with
/// fresh bookkeeping: the round's entry holds exactly the given
/// contributions, every other round is untouched, and only the pending-round
/// gauge moves.
pub open spec fn accumulates_to(
    pre: ActorState,
    post: ActorState,
    round: u64,
    cs: Seq<Contribution>,
    attempts: u64,
    stuck: bool,
) -> bool {
    &&& post.epoch == pre.epoch
    &&& post.initialized == pre.initialized
    &&& post.epoch_key == pre.epoch_key
    &&& post.my_share_ids == pre.my_share_ids
    &&& post.authorities == pre.authorities
    &&& post.aggregation_threshold == pre.aggregation_threshold
    &&& post.highest_completed_round == pre.highest_completed_round
    &&& post.byzantine_peers == pre.byzantine_peers
    &&& post.broadcast_rounds == pre.broadcast_rounds
    &&& post.max_pending_rounds == pre.max_pending_rounds
    &&& rounds_sorted(post.rounds@)
    &&& has_round(post.rounds@, round)
    &&& round_entry(post.rounds@, round).round == round
    &&& round_entry(post.rounds@, round).contributions@ == cs
    &&& round_entry(post.rounds@, round).attempts == attempts
    &&& round_entry(post.rounds@, round).stuck == stuck
    &&& forall|x: RoundState|
        #![trigger post.rounds@.contains(x)]
        post.rounds@.contains(x) && x.round != round ==> pre.rounds@.contains(x)
    &&& forall|x: RoundState|
        #![trigger pre.rounds@.contains(x)]
        pre.rounds@.contains(x) && x.round != round ==> post.rounds@.contains(x)
    &&& post.metrics == with_rounds_pending(pre.metrics, post.rounds@.len() as u64)
}

/// The outcome of one inbound signature message.
#[derive(Debug)]
pub enum ReceiveOutcome {
    /// The message names another epoch; dropped silently.
    IgnoredWrongEpoch,
    /// The sender is in the epoch's Byzantine set; dropped.
    IgnoredByzantinePeer,
    /// The sender is not a member of the current committee; dropped.
    IgnoredUnknownPeer,
    /// The round is already at or below the watermark; dropped silently.
    IgnoredStaleRound,
    /// The round lies beyond the retained-round window; dropped.
    IgnoredRoundTooFarAhead,
    /// The message was protocol-invalid; it was discarded whole and the
    /// sender was flagged Byzantine.
    MarkedByzantine,
    /// The short-circuit full signature failed verification; rejected, the
    /// round is not completed.
    RejectedFullSignature,
    /// The round completed; the event is for the downstream consumer.
    Completed(CompletionEvent),
    /// The contribution was merged; the threshold is not reached yet.
    Stored,
    /// The threshold was reached but aggregation failed (a bad share is
    /// hiding among the accumulated ones); state is retained for further
    /// shares.
    AggregationFailed,
    /// As `AggregationFailed`, but the attempt ceiling is exceeded; the
    /// round is marked stuck as an observability signal.
    RoundStuck,
}

impl ActorState {
    /// Whether the actor accepts signature data from a peer for a round: the
    /// message is for the current epoch, the sender is a known, non-Byzantine
    /// committee member, and the round is neither completed nor beyond the
    /// retained window.
    pub open spec fn accepts_from(self, peer_id: u64, epoch: u64, round: u64) -> bool {
        &&& epoch == self.epoch
        &&& !self.peer_is_byzantine(peer_id)
        &&& self.known_peer(peer_id)
        &&& !self.round_is_stale(round)
        &&& !self.round_too_far(round)
    }
}

/// The completion watermark never moves backwards across a transition.
pub open spec fn watermark_monotone(pre: ActorState, post: ActorState) -> bool {
    match pre.highest_completed_round {
        Some(h0) => match post.highest_completed_round {
            Some(h1) => h1 >= h0,
            None => false,
        },
        None => true,
    }
}

/// The aggregation bookkeeping and outcome of accumulating contributions
/// `cs` for a round: below the threshold the merge is stored; at or above
/// it, aggregation either completes the round or counts one more failed
/// attempt, marking the round stuck past the ceiling.
pub open spec fn accept_case(
    pre: ActorState,
    post: ActorState,
    round: u64,
    cs: Seq<Contribution>,
    r: ReceiveOutcome,
) -> bool {
    let flat = flat_sigs(cs);
    let a0 = prior_attempts(pre.rounds@, round);
    let a1: u64 = if a0 == u64::MAX {
        u64::MAX
    } else {
        (a0 + 1) as u64
    };
    let st = prior_stuck(pre.rounds@, round) || a1 > AGGREGATE_ATTEMPT_CEILING;
    if flat.len() < pre.aggregation_threshold {
        &&& r is Stored
        &&& accumulates_to(pre, post, round, cs, a0, prior_stuck(pre.rounds@, round))
    } else if all_pairs_valid(pre.epoch_key, round, flat) {
        &&& completes_to(pre, post, round)
        &&& r matches ReceiveOutcome::Completed(ev) && ev.epoch == pre.epoch && ev.round == round
            && ev.randomness@ == full_signature_bytes(pre.epoch_key, round)
    } else {
        &&& accumulates_to(pre, post, round, cs, a1, st)
        &&& (st ==> r is RoundStuck)
        &&& (!st ==> r is AggregationFailed)
    }
}

/// The state change and outcome of accepting a protocol-valid partial
/// signature message: the sender's contribution replaces its earlier one and
/// the aggregation bookkeeping of `accept_case` applies.
pub open spec fn partial_accept_post(
    pre: ActorState,
    post: ActorState,
    peer_id: u64,
    round: u64,
    bytes: Seq<Vec<u8>>,
    r: ReceiveOutcome,
) -> bool {
    let entry = peer_entry(pre.authorities@, peer_id);
    exists|cs: Seq<Contribution>|
        {
            &&& updated_contributions(
                prior_contributions(pre.rounds@, round),
                entry.party_id,
                wire_view(bytes),
                cs,
            )
            &&& #[trigger] accept_case(pre, post, round, cs, r)
        }
}

/// The full contract of one inbound signature message: which outcome each
/// input yields, and how the state moves for each.
pub open spec fn receive_post(
    pre: ActorState,
    post: ActorState,
    peer_id: u64,
    epoch: u64,
    round: u64,
    partial_sig_bytes: Vec<Vec<u8>>,
    full_sig: Option<FullSignature>,
    r: ReceiveOutcome,
) -> bool {
    &&& (r is IgnoredWrongEpoch <==> epoch != pre.epoch)
    &&& (r is IgnoredByzantinePeer <==> epoch == pre.epoch && pre.peer_is_byzantine(peer_id))
    &&& (r is IgnoredUnknownPeer <==> {
        &&& epoch == pre.epoch
        &&& !pre.peer_is_byzantine(peer_id)
        &&& !pre.known_peer(peer_id)
    })
    &&& (r is IgnoredStaleRound <==> {
        &&& epoch == pre.epoch
        &&& !pre.peer_is_byzantine(peer_id)
        &&& pre.known_peer(peer_id)
        &&& pre.round_is_stale(round)
    })
    &&& (r is IgnoredRoundTooFarAhead <==> {
        &&& epoch == pre.epoch
        &&& !pre.peer_is_byzantine(peer_id)
        &&& pre.known_peer(peer_id)
        &&& !pre.round_is_stale(round)
        &&& pre.round_too_far(round)
    })
    &&& ((r is IgnoredWrongEpoch || r is IgnoredByzantinePeer || r is IgnoredUnknownPeer
        || r is IgnoredStaleRound || r is IgnoredRoundTooFarAhead || r is RejectedFullSignature)
        ==> post == pre)
    &&& (r is RejectedFullSignature <==> {
        &&& pre.accepts_from(peer_id, epoch, round)
        &&& full_sig matches Some(fs) && !signature_verifies(pre.epoch_key, round, fs)
    })
    &&& (pre.accepts_from(peer_id, epoch, round) ==> (full_sig matches Some(fs)
        ==> (signature_verifies(pre.epoch_key, round, fs) ==> {
        &&& completes_to(pre, post, round)
        &&& r matches ReceiveOutcome::Completed(ev) && ev.epoch == pre.epoch && ev.round == round
            && ev.randomness@ == fs.bytes@
    })))
    &&& (r is MarkedByzantine <==> {
        &&& pre.accepts_from(peer_id, epoch, round)
        &&& full_sig is None
        &&& !sender_acceptable(
            partial_sig_bytes@,
            peer_entry(pre.authorities@, peer_id).share_ids@,
        )
    })
    &&& (r is MarkedByzantine ==> flags_byzantine(pre, post, peer_id))
    &&& ({
        &&& pre.accepts_from(peer_id, epoch, round)
        &&& full_sig is None
        &&& sender_acceptable(
            partial_sig_bytes@,
            peer_entry(pre.authorities@, peer_id).share_ids@,
        )
    } ==> partial_accept_post(pre, post, peer_id, round, partial_sig_bytes@, r))
}

impl ActorState {
    /// Processes one inbound signature message from a peer.
    ///
    /// Messages for another epoch, from Byzantine or unknown peers, for
    /// completed rounds or for rounds beyond the retained window are dropped
    /// without changing anything. A full signature that verifies completes
    /// the round in one step; one that does not is rejected. Otherwise every
    /// entry is decoded and validated against the sender's share indexes;
    /// protocol-invalid input discards the whole message and flags the
    /// sender Byzantine. Valid shares replace the sender's earlier
    /// contribution, and once the distinct accumulated shares reach the
    /// aggregation threshold the round is aggregated, completing it on
    /// success and counting a bounded retry on failure.
    pub fn receive_signatures(
        &mut self,
        peer_id: u64,
        epoch: u64,
        round: u64,
        partial_sig_bytes: Vec<Vec<u8>>,
        full_sig: Option<FullSignature>,
    ) -> (r: ReceiveOutcome)
        requires
            old(self).wf(),
        ensures
            final(self).wf(),
            watermark_monotone(*old(self), *final(self)),
            receive_post(
                *old(self),
                *final(self),
                peer_id,
                epoch,
                round,
                partial_sig_bytes,
                full_sig,
                r,
            ),
    {
        let ghost pre = *old(self);
        if epoch != self.epoch {
            return ReceiveOutcome::IgnoredWrongEpoch;
        }
        if contains_u64(&self.byzantine_peers, peer_id) {
            return ReceiveOutcome::IgnoredByzantinePeer;
        }
        let entry_idx = match find_authority_by_peer(&self.authorities, peer_id) {
            Some(k) => k,
            None => {
                return ReceiveOutcome::IgnoredUnknownPeer;
            },
        };
        proof {
            assert(self.known_peer(peer_id));
            if !self.initialized {
                assert(self.authorities@.len() == 0);
            }
            assert(self.initialized);
            lemma_peer_entry_at(self.authorities@, entry_idx as int);
            assert(peer_entry(pre.authorities@, peer_id) == pre.authorities@[entry_idx as int]);
        }
        let stale = match self.highest_completed_round {
            Some(h) => round <= h,
            None => false,
        };
        if stale {
            return ReceiveOutcome::IgnoredStaleRound;
        }
        let too_far = match self.highest_completed_round {
            Some(h) => round > h && round - h > self.max_pending_rounds,
            None => round > self.max_pending_rounds,
        };
        if too_far {
            return ReceiveOutcome::IgnoredRoundTooFarAhead;
        }
        match full_sig {
            Some(fs) => {
                if verify_signature(self.epoch_key, round, &fs) {
                    self.apply_completion(round);
                    return ReceiveOutcome::Completed(
                        CompletionEvent { epoch, round, randomness: fs.bytes },
                    );
                } else {
                    return ReceiveOutcome::RejectedFullSignature;
                }
            },
            None => {},
        }
        let decoded = match decode_and_validate(
            &partial_sig_bytes,
            &self.authorities[entry_idx].share_ids,
        ) {
            Some(v) => v,
            None => {
                self.byzantine_peers.push(peer_id);
                self.metrics.inc_num_ignored_byzantine_peers();
                proof {
                    assert(self.byzantine_peers@[self.byzantine_peers@.len() - 1] == peer_id);
                    assert forall|i: int, j: int|
                        0 <= i < j < self.byzantine_peers@.len() implies self.byzantine_peers@[i]
                        != self.byzantine_peers@[j] by {
                        if j == self.byzantine_peers@.len() - 1 {
                            assert(pre.byzantine_peers@.contains(pre.byzantine_peers@[i]));
                        }
                    }
                }
                return ReceiveOutcome::MarkedByzantine;
            },
        };
        let party = self.authorities[entry_idx].party_id;
        let ghost shares = pre.authorities@[entry_idx as int].share_ids@;
        proof {
            lemma_party_shares_of_entry(pre.authorities@, entry_idx as int);
        }
        let c = Contribution { party_id: party, sigs: decoded };
        let ghost new_view = wire_view(partial_sig_bytes@);
        let ghost prior = prior_contributions(pre.rounds@, round);
        let ghost a0 = prior_attempts(pre.rounds@, round);
        let ghost st0 = prior_stuck(pre.rounds@, round);
        let mut rs = match find_round_index(&self.rounds, round) {
            Some(k) => {
                proof {
                    lemma_round_entry_at(self.rounds@, k as int);
                }
                let taken = self.rounds.remove(k);
                proof {
                    let ki = k as int;
                    assert(taken == pre.rounds@[ki]);
                    assert forall|i: int, j: int|
                        0 <= i < j < self.rounds@.len() implies self.rounds@[i].round
                        < self.rounds@[j].round by {
                        if j < ki {
                        } else if i < ki {
                            assert(self.rounds@[j] == pre.rounds@[j + 1]);
                        } else {
                            assert(self.rounds@[i] == pre.rounds@[i + 1]);
                            assert(self.rounds@[j] == pre.rounds@[j + 1]);
                        }
                    }
                    assert forall|i: int| 0 <= i < self.rounds@.len() implies (
                    #[trigger] self.rounds@[i]).round != round by {
                        if i < ki {
                            assert(self.rounds@[i] == pre.rounds@[i]);
                            if pre.rounds@[i].round == round {
                                assert(pre.rounds@[i].round < pre.rounds@[ki].round);
                            }
                        } else {
                            assert(self.rounds@[i] == pre.rounds@[i + 1]);
                            if pre.rounds@[i + 1].round == round {
                                assert(pre.rounds@[ki].round < pre.rounds@[i + 1].round);
                            }
                        }
                    }
                    assert forall|x: RoundState|
                        #![trigger self.rounds@.contains(x)]
                        self.rounds@.contains(x) implies pre.rounds@.contains(x) by {
                        let i = choose|i: int| 0 <= i < self.rounds@.len() && self.rounds@[i] == x;
                        if i < ki {
                            assert(pre.rounds@[i] == x);
                        } else {
                            assert(pre.rounds@[i + 1] == x);
                        }
                    }
                    assert forall|x: RoundState|
                        #![trigger pre.rounds@.contains(x)]
                        pre.rounds@.contains(x) && x.round != round implies self.rounds@.contains(
                        x,
                    ) by {
                        let i = choose|i: int| 0 <= i < pre.rounds@.len() && pre.rounds@[i] == x;
                        assert(i != ki);
                        if i < ki {
                            assert(self.rounds@[i] == x);
                        } else {
                            assert(self.rounds@[i - 1] == x);
                        }
                    }
                    assert(prior == taken.contributions@);
                    assert(a0 == taken.attempts && st0 == taken.stuck);
                }
                taken
            },
            None => {
                proof {
                    assert(!has_round(pre.rounds@, round));
                    assert(prior =~= Seq::<Contribution>::empty());
                }
                RoundState { round, contributions: Vec::new(), attempts: 0, stuck: false }
            },
        };
        proof {
            assert(rs.round == round);
            assert(self.wf());
            assert(rounds_sorted(self.rounds@));
            assert(contributions_sorted(rs.contributions@));
            assert(rs.contributions@ == prior);
            assert(forall|i: int|
                0 <= i < self.rounds@.len() ==> (#[trigger] self.rounds@[i]).round != round);
        }
        let ghost mid_rounds = self.rounds@;
        upsert_contribution(&mut rs.contributions, c);
        let ghost cs = rs.contributions@;
        proof {
            assert(sigs_view(c.sigs@) == new_view);
            assert(party_shares(pre.authorities@, party) == shares);
            assert(updated_contributions(prior, party, new_view, cs)) by {
                assert(cs.contains(c) && c.party_id == party && sigs_view(c.sigs@) == new_view);
                assert forall|x: Contribution|
                    #![trigger cs.contains(x)]
                    cs.contains(x) && x.party_id == party implies sigs_view(x.sigs@)
                    == new_view by {
                    if x != c {
                        assert(prior.contains(x) && x.party_id != c.party_id);
                    }
                }
            }
            assert forall|i: int| 0 <= i < cs.len() implies contribution_wf(
                pre.authorities@,
                #[trigger] cs[i],
            ) by {
                assert(cs.contains(cs[i]));
                let x = cs[i];
                if x == c {
                    assert(party_known(pre.authorities@, party));
                    assert(forall|k: int|
                        0 <= k < c.sigs@.len() ==> shares.contains((#[trigger] c.sigs@[k]).index));
                } else {
                    assert(prior.contains(x));
                    if has_round(pre.rounds@, round) {
                        let re = round_entry(pre.rounds@, round);
                        assert(pre.rounds@.contains(re)) by {
                            let i0 = choose|i0: int|
                                0 <= i0 < pre.rounds@.len() && (#[trigger] pre.rounds@[i0]).round
                                    == round;
                            assert(pre.rounds@[i0] == re);
                        }
                        let j = choose|j: int|
                            0 <= j < pre.rounds@.len() && pre.rounds@[j] == re;
                        assert(round_state_wf(pre.authorities@, pre.rounds@[j]));
                        let t = choose|t: int| 0 <= t < prior.len() && prior[t] == x;
                        assert(contribution_wf(pre.authorities@, prior[t]));
                    }
                }
            }
        }
        let flat = flatten_contributions(&rs.contributions);
        proof {
            lemma_flat_sorted(pre.authorities@, cs);
            assert forall|i: int, j: int|
                0 <= i < j < flat@.len() implies flat@[i].index < flat@[j].index by {
                assert(sigs_view(flat@)[i] == sig_pair(flat@[i]));
                assert(sigs_view(flat@)[j] == sig_pair(flat@[j]));
                assert(flat_sigs(cs)[i].0 < flat_sigs(cs)[j].0);
            }
            assert(strictly_sorted_by_index(flat@));
            assert forall|i: int|
                0 <= i < flat@.len() implies share_valid(pre.epoch_key, round, #[trigger] flat@[i])
                == pair_valid(pre.epoch_key, round, flat_sigs(cs)[i]) by {
                assert(sigs_view(flat@)[i] == sig_pair(flat@[i]));
            }
        }
        if (flat.len() as u64) < self.aggregation_threshold {
            let ghost rs_snapshot = rs;
            insert_round_sorted(&mut self.rounds, rs);
            let pending = self.rounds.len() as u64;
            self.metrics.set_num_rounds_pending(pending);
            proof {
                lemma_inserted_round_facts(pre, mid_rounds, self.rounds@, rs_snapshot, round);
                lemma_upserted_round_wf(pre, mid_rounds, *self, rs_snapshot, round);
                assert(flat_sigs(cs).len() < pre.aggregation_threshold) by {
                    assert(sigs_view(flat@).len() == flat@.len());
                }
                assert(accept_case(pre, *self, round, cs, ReceiveOutcome::Stored));
                assert(partial_accept_post(
                    pre,
                    *self,
                    peer_id,
                    round,
                    partial_sig_bytes@,
                    ReceiveOutcome::Stored,
                ));
            }
            return ReceiveOutcome::Stored;
        }
        let agg = aggregate(self.epoch_key, round, self.aggregation_threshold, &flat);
        match agg {
            Ok(full) => {
                proof {
                    assert(all_pairs_valid(pre.epoch_key, round, flat_sigs(cs))) by {
                        assert(forall|i: int|
                            0 <= i < flat@.len() ==> share_valid(
                                pre.epoch_key,
                                round,
                                #[trigger] flat@[i],
                            ));
                    }
                }
                let ghost mid_state = *self;
                self.apply_completion(round);
                proof {
                    assert(completes_to(mid_state, *self, round));
                    assert forall|x: RoundState|
                        #![trigger self.rounds@.contains(x)]
                        self.rounds@.contains(x) implies pre.rounds@.contains(x) && x.round
                        > round by {
                        assert(mid_rounds.contains(x));
                    }
                    assert forall|x: RoundState|
                        #![trigger pre.rounds@.contains(x)]
                        pre.rounds@.contains(x) && x.round > round implies self.rounds@.contains(
                        x,
                    ) by {
                        assert(x.round != round);
                        assert(mid_rounds.contains(x));
                    }
                    assert(completes_to(pre, *self, round));
                    let ev = CompletionEvent { epoch, round, randomness: full.bytes };
                    assert(ev.randomness@ == full_signature_bytes(pre.epoch_key, round));
                    assert(accept_case(pre, *self, round, cs, ReceiveOutcome::Completed(ev)));
                    assert(partial_accept_post(
                        pre,
                        *self,
                        peer_id,
                        round,
                        partial_sig_bytes@,
                        ReceiveOutcome::Completed(ev),
                    ));
                }
                return ReceiveOutcome::Completed(
                    CompletionEvent { epoch, round, randomness: full.bytes },
                );
            },
            Err(_) => {
                proof {
                    assert(!all_pairs_valid(pre.epoch_key, round, flat_sigs(cs))) by {
                        assert(flat@.len() >= pre.aggregation_threshold);
                        assert(!all_shares_valid(pre.epoch_key, round, flat@));
                        let i = choose|i: int|
                            0 <= i < flat@.len() && !share_valid(
                                pre.epoch_key,
                                round,
                                #[trigger] flat@[i],
                            );
                        assert(!pair_valid(pre.epoch_key, round, flat_sigs(cs)[i]));
                    }
                }
                if rs.attempts < u64::MAX {
                    rs.attempts = rs.attempts + 1;
                }
                if rs.attempts > AGGREGATE_ATTEMPT_CEILING {
                    rs.stuck = true;
                }
                let stuck = rs.stuck;
                let ghost rs_snapshot = rs;
                insert_round_sorted(&mut self.rounds, rs);
                let pending = self.rounds.len() as u64;
                self.metrics.set_num_rounds_pending(pending);
                let r = if stuck {
                    ReceiveOutcome::RoundStuck
                } else {
                    ReceiveOutcome::AggregationFailed
                };
                proof {
                    lemma_inserted_round_facts(pre, mid_rounds, self.rounds@, rs_snapshot, round);
                    lemma_upserted_round_wf(pre, mid_rounds, *self, rs_snapshot, round);
                    assert(accept_case(pre, *self, round, cs, r));
                }
                return r;
            },
        }
    }
}

/// Why an administrative operation was rejected.
#[derive(Clone, Copy, Debug, PartialEq, Eq, Structural)]
pub enum AdminError {
    /// No key material installed yet.
    NotInitialized,
    /// The named validator is not in the current committee.
    UnknownAuthority,
    /// The round is already at or below the watermark.
    StaleRound,
    /// The round lies beyond the retained-round window.
    RoundTooFarAhead,
    /// The injected shares are unordered or not owned by the authority.
    InvalidShareIndexes,
    /// The injected data fails verification.
    VerificationFailed,
}

/// Whether injected partial signatures respect per-epoch validity for an
/// authority owning the given shares: strictly ordered, every index owned.
pub open spec fn inject_acceptable(sigs: Seq<PartialSignature>, shares: Seq<u64>) -> bool {
    &&& strictly_sorted_by_index(sigs)
    &&& forall|i: int| 0 <= i < sigs.len() ==> shares.contains((#[trigger] sigs[i]).index)
}

/// The aggregation bookkeeping and result of an administrative injection,
/// mirroring `accept_case`: a merge below the threshold is stored silently,
/// aggregation success completes the round, and aggregation failure is
/// surfaced as an explicit error while the merged state is retained.
pub open spec fn inject_case(
    pre: ActorState,
    post: ActorState,
    round: u64,
    cs: Seq<Contribution>,
    r: Result<Option<CompletionEvent>, AdminError>,
) -> bool {
    let flat = flat_sigs(cs);
    let a0 = prior_attempts(pre.rounds@, round);
    let a1: u64 = if a0 == u64::MAX {
        u64::MAX
    } else {
        (a0 + 1) as u64
    };
    let st = prior_stuck(pre.rounds@, round) || a1 > AGGREGATE_ATTEMPT_CEILING;
    if flat.len() < pre.aggregation_threshold {
        &&& r matches Ok(None)
        &&& accumulates_to(pre, post, round, cs, a0, prior_stuck(pre.rounds@, round))
    } else if all_pairs_valid(pre.epoch_key, round, flat) {
        &&& completes_to(pre, post, round)
        &&& r matches Ok(Some(ev)) && ev.epoch == pre.epoch && ev.round == round
            && ev.randomness@ == full_signature_bytes(pre.epoch_key, round)
    } else {
        &&& accumulates_to(pre, post, round, cs, a1, st)
        &&& r == Result::<Option<CompletionEvent>, AdminError>::Err(AdminError::VerificationFailed)
    }
}

/// The committee entry of a validator name (meaningful when the name is
/// known; unique because names are strictly ordered).
pub open spec fn name_entry(auths: Seq<AuthorityEntry>, name: u64) -> AuthorityEntry {
    auths[choose|i: int| 0 <= i < auths.len() && (#[trigger] auths[i]).name == name]
}

/// Whether a validator name belongs to the committee.
pub open spec fn name_known(auths: Seq<AuthorityEntry>, name: u64) -> bool {
    exists|i: int| 0 <= i < auths.len() && (#[trigger] auths[i]).name == name
}

/// In a well-formed committee, the entry at a known index is the name's
/// unique entry.
proof fn lemma_name_entry_at(auths: Seq<AuthorityEntry>, k: int)
    requires
        committee_wf(auths),
        0 <= k < auths.len(),
    ensures
        name_known(auths, auths[k].name),
        name_entry(auths, auths[k].name) == auths[k],
{
    let name = auths[k].name;
    assert(0 <= k < auths.len() && auths[k].name == name);
    let i = choose|i: int| 0 <= i < auths.len() && (#[trigger] auths[i]).name == name;
    if i < k {
        assert(auths[i].name < auths[k].name);
    } else if i > k {
        assert(auths[k].name < auths[i].name);
    }
}

/// The full contract of an administrative partial-signature injection.
pub open spec fn inject_partial_post(
    pre: ActorState,
    post: ActorState,
    authority_name: u64,
    round: u64,
    sigs: Vec<PartialSignature>,
    r: Result<Option<CompletionEvent>, AdminError>,
) -> bool {
    &&& (r == Result::<Option<CompletionEvent>, AdminError>::Err(AdminError::NotInitialized)
        <==> !pre.initialized)
    &&& (r == Result::<Option<CompletionEvent>, AdminError>::Err(AdminError::UnknownAuthority)
        <==> pre.initialized && !name_known(pre.authorities@, authority_name))
    &&& (r == Result::<Option<CompletionEvent>, AdminError>::Err(AdminError::StaleRound) <==> {
        &&& pre.initialized
        &&& name_known(pre.authorities@, authority_name)
        &&& pre.round_is_stale(round)
    })
    &&& (r == Result::<Option<CompletionEvent>, AdminError>::Err(AdminError::RoundTooFarAhead)
        <==> {
        &&& pre.initialized
        &&& name_known(pre.authorities@, authority_name)
        &&& !pre.round_is_stale(round)
        &&& pre.round_too_far(round)
    })
    &&& (r == Result::<Option<CompletionEvent>, AdminError>::Err(AdminError::InvalidShareIndexes)
        <==> {
        &&& pre.initialized
        &&& name_known(pre.authorities@, authority_name)
        &&& !pre.round_is_stale(round)
        &&& !pre.round_too_far(round)
        &&& !inject_acceptable(sigs@, name_entry(pre.authorities@, authority_name).share_ids@)
    })
    &&& ((r == Result::<Option<CompletionEvent>, AdminError>::Err(AdminError::NotInitialized) || r
        == Result::<Option<CompletionEvent>, AdminError>::Err(AdminError::UnknownAuthority) || r
        == Result::<Option<CompletionEvent>, AdminError>::Err(AdminError::StaleRound) || r
        == Result::<Option<CompletionEvent>, AdminError>::Err(AdminError::RoundTooFarAhead) || r
        == Result::<Option<CompletionEvent>, AdminError>::Err(AdminError::InvalidShareIndexes))
        ==> post == pre)
    &&& ({
        &&& pre.initialized
        &&& name_known(pre.authorities@, authority_name)
        &&& !pre.round_is_stale(round)
        &&& !pre.round_too_far(round)
        &&& inject_acceptable(sigs@, name_entry(pre.authorities@, authority_name).share_ids@)
    } ==> exists|cs: Seq<Contribution>|
        {
            &&& updated_contributions(
                prior_contributions(pre.rounds@, round),
                name_entry(pre.authorities@, authority_name).party_id,
                sigs_view(sigs@),
                cs,
            )
            &&& #[trigger] inject_case(pre, post, round, cs, r)
        })
}

/// Checks injected partial signatures against an authority's share set.
fn check_inject_acceptable(sigs: &Vec<PartialSignature>, shares: &Vec<u64>) -> (r: bool)
    ensures
        r <==> inject_acceptable(sigs@, shares@),
{
    let mut i: usize = 0;
    while i < sigs.len()
        invariant
            0 <= i <= sigs@.len(),
            forall|p: int, q: int| 0 <= p < q < i ==> sigs@[p].index < sigs@[q].index,
            forall|p: int| 0 <= p < i ==> shares@.contains((#[trigger] sigs@[p]).index),
        decreases sigs@.len() - i,
    {
        if i > 0 && sigs[i - 1].index >= sigs[i].index {
            return false;
        }
        if !contains_u64(shares, sigs[i].index) {
            return false;
        }
        i = i + 1;
        proof {
            assert forall|p: int, q: int| 0 <= p < q < i implies sigs@[p].index
                < sigs@[q].index by {
                if q == i - 1 && p < q - 1 {
                    assert(sigs@[p].index < sigs@[q - 1].index);
                }
            }
        }
    }
    true
}

impl ActorState {
    /// Produces this node's encoded partial signatures for a round at the
    /// current epoch, for the operator interface. Fails only when no epoch
    /// key material is installed.
    pub fn admin_get_partial_signatures(&self, round: u64) -> (r: Result<Vec<Vec<u8>>, AdminError>)
        requires
            self.wf(),
        ensures
            r is Err <==> !self.initialized,
            r matches Err(e) ==> e == AdminError::NotInitialized,
            r matches Ok(v) ==> {
                &&& v@.len() == self.my_share_ids@.len()
                &&& forall|i: int|
                    0 <= i < v@.len() ==> (#[trigger] v@[i])@ == own_encoded_sigs(
                        self.epoch_key,
                        round,
                        self.my_share_ids@,
                    )[i]
            },
    {
        if !self.initialized {
            return Err(AdminError::NotInitialized);
        }
        let mut out: Vec<Vec<u8>> = Vec::new();
        let mut i: usize = 0;
        while i < self.my_share_ids.len()
            invariant
                0 <= i <= self.my_share_ids@.len(),
                out@.len() == i,
                forall|p: int|
                    0 <= p < i ==> (#[trigger] out@[p])@ == own_encoded_sigs(
                        self.epoch_key,
                        round,
                        self.my_share_ids@,
                    )[p],
            decreases self.my_share_ids@.len() - i,
        {
            let sig = sign_partial(self.epoch_key, round, self.my_share_ids[i]);
            out.push(encode_partial_signature(&sig));
            i = i + 1;
        }
        Ok(out)
    }

    /// Injects partial signatures for a round on behalf of a named
    /// authority, bypassing the network but still respecting per-epoch
    /// validity: unknown authorities, stale or too-distant rounds and
    /// ill-formed shares are rejected synchronously, and a failed
    /// aggregation is surfaced as an explicit error rather than absorbed.
    pub fn admin_inject_partial_signatures(
        &mut self,
        authority_name: u64,
        round: u64,
        sigs: Vec<PartialSignature>,
    ) -> (r: Result<Option<CompletionEvent>, AdminError>)
        requires
            old(self).wf(),
        ensures
            final(self).wf(),
            watermark_monotone(*old(self), *final(self)),
            inject_partial_post(*old(self), *final(self), authority_name, round, sigs, r),
    {
        let ghost pre = *old(self);
        if !self.initialized {
            return Err(AdminError::NotInitialized);
        }
        let entry_idx = match find_authority_by_name(&self.authorities, authority_name) {
            Some(k) => k,
            None => {
                return Err(AdminError::UnknownAuthority);
            },
        };
        proof {
            lemma_name_entry_at(self.authorities@, entry_idx as int);
        }
        let stale = match self.highest_completed_round {
            Some(h) => round <= h,
            None => false,
        };
        if stale {
            return Err(AdminError::StaleRound);
        }
        let too_far = match self.highest_completed_round {
            Some(h) => round > h && round - h > self.max_pending_rounds,
            None => round > self.max_pending_rounds,
        };
        if too_far {
            return Err(AdminError::RoundTooFarAhead);
        }
        if !check_inject_acceptable(&sigs, &self.authorities[entry_idx].share_ids) {
            return Err(AdminError::InvalidShareIndexes);
        }
        let party = self.authorities[entry_idx].party_id;
        let ghost shares = pre.authorities@[entry_idx as int].share_ids@;
        proof {
            lemma_party_shares_of_entry(pre.authorities@, entry_idx as int);
        }
        let ghost new_view = sigs_view(sigs@);
        let c = Contribution { party_id: party, sigs };
        let ghost prior = prior_contributions(pre.rounds@, round);
        let ghost a0 = prior_attempts(pre.rounds@, round);
        let ghost st0 = prior_stuck(pre.rounds@, round);
        let mut rs = match find_round_index(&self.rounds, round) {
            Some(k) => {
                proof {
                    lemma_round_entry_at(self.rounds@, k as int);
                }
                let taken = self.rounds.remove(k);
                proof {
                    let ki = k as int;
                    assert(taken == pre.rounds@[ki]);
                    assert forall|i: int, j: int|
                        0 <= i < j < self.rounds@.len() implies self.rounds@[i].round
                        < self.rounds@[j].round by {
                        if j < ki {
                        } else if i < ki {
                            assert(self.rounds@[j] == pre.rounds@[j + 1]);
                        } else {
                            assert(self.rounds@[i] == pre.rounds@[i + 1]);
                            assert(self.rounds@[j] == pre.rounds@[j + 1]);
                        }
                    }
                    assert forall|i: int| 0 <= i < self.rounds@.len() implies (
                    #[trigger] self.rounds@[i]).round != round by {
                        if i < ki {
                            assert(self.rounds@[i] == pre.rounds@[i]);
                            if pre.rounds@[i].round == round {
                                assert(pre.rounds@[i].round < pre.rounds@[ki].round);
                            }
                        } else {
                            assert(self.rounds@[i] == pre.rounds@[i + 1]);
                            if pre.rounds@[i + 1].round == round {
                                assert(pre.rounds@[ki].round < pre.rounds@[i + 1].round);
                            }
                        }
                    }
                    assert forall|x: RoundState|
                        #![trigger self.rounds@.contains(x)]
                        self.rounds@.contains(x) implies pre.rounds@.contains(x) by {
                        let i = choose|i: int| 0 <= i < self.rounds@.len() && self.rounds@[i] == x;
                        if i < ki {
                            assert(pre.rounds@[i] == x);
                        } else {
                            assert(pre.rounds@[i + 1] == x);
                        }
                    }
                    assert forall|x: RoundState|
                        #![trigger pre.rounds@.contains(x)]
                        pre.rounds@.contains(x) && x.round != round implies self.rounds@.contains(
                        x,
                    ) by {
                        let i = choose|i: int| 0 <= i < pre.rounds@.len() && pre.rounds@[i] == x;
                        assert(i != ki);
                        if i < ki {
                            assert(self.rounds@[i] == x);
                        } else {
                            assert(self.rounds@[i - 1] == x);
                        }
                    }
                    assert(prior == taken.contributions@);
                    assert(a0 == taken.attempts && st0 == taken.stuck);
                }
                taken
            },
            None => {
                proof {
                    assert(!has_round(pre.rounds@, round));
                    assert(prior =~= Seq::<Contribution>::empty());
                }
                RoundState { round, contributions: Vec::new(), attempts: 0, stuck: false }
            },
        };
        proof {
            assert(self.wf());
            assert(rs.contributions@ == prior);
        }
        let ghost mid_rounds = self.rounds@;
        upsert_contribution(&mut rs.contributions, c);
        let ghost cs = rs.contributions@;
        proof {
            assert(sigs_view(c.sigs@) == new_view);
            assert(party_shares(pre.authorities@, party) == shares);
            assert(updated_contributions(prior, party, new_view, cs)) by {
                assert(cs.contains(c) && c.party_id == party && sigs_view(c.sigs@) == new_view);
                assert forall|x: Contribution|
                    #![trigger cs.contains(x)]
                    cs.contains(x) && x.party_id == party implies sigs_view(x.sigs@)
                    == new_view by {
                    if x != c {
                        assert(prior.contains(x) && x.party_id != c.party_id);
                    }
                }
            }
            assert forall|i: int| 0 <= i < cs.len() implies contribution_wf(
                pre.authorities@,
                #[trigger] cs[i],
            ) by {
                assert(cs.contains(cs[i]));
                let x = cs[i];
                if x == c {
                    assert(party_known(pre.authorities@, party));
                } else {
                    assert(prior.contains(x));
                    if has_round(pre.rounds@, round) {
                        let re = round_entry(pre.rounds@, round);
                        assert(pre.rounds@.contains(re)) by {
                            let i0 = choose|i0: int|
                                0 <= i0 < pre.rounds@.len() && (#[trigger] pre.rounds@[i0]).round
                                    == round;
                            assert(pre.rounds@[i0] == re);
                        }
                        let j = choose|j: int|
                            0 <= j < pre.rounds@.len() && pre.rounds@[j] == re;
                        assert(round_state_wf(pre.authorities@, pre.rounds@[j]));
                        let t = choose|t: int| 0 <= t < prior.len() && prior[t] == x;
                        assert(contribution_wf(pre.authorities@, prior[t]));
                    }
                }
            }
        }
        let flat = flatten_contributions(&rs.contributions);
        proof {
            lemma_flat_sorted(pre.authorities@, cs);
            assert forall|i: int, j: int|
                0 <= i < j < flat@.len() implies flat@[i].index < flat@[j].index by {
                assert(sigs_view(flat@)[i] == sig_pair(flat@[i]));
                assert(sigs_view(flat@)[j] == sig_pair(flat@[j]));
                assert(flat_sigs(cs)[i].0 < flat_sigs(cs)[j].0);
            }
            assert(strictly_sorted_by_index(flat@));
            assert forall|i: int|
                0 <= i < flat@.len() implies share_valid(pre.epoch_key, round, #[trigger] flat@[i])
                == pair_valid(pre.epoch_key, round, flat_sigs(cs)[i]) by {
                assert(sigs_view(flat@)[i] == sig_pair(flat@[i]));
            }
        }
        if (flat.len() as u64) < self.aggregation_threshold {
            let ghost rs_snapshot = rs;
            insert_round_sorted(&mut self.rounds, rs);
            let pending = self.rounds.len() as u64;
            self.metrics.set_num_rounds_pending(pending);
            proof {
                lemma_inserted_round_facts(pre, mid_rounds, self.rounds@, rs_snapshot, round);
                lemma_upserted_round_wf(pre, mid_rounds, *self, rs_snapshot, round);
                assert(flat_sigs(cs).len() < pre.aggregation_threshold) by {
                    assert(sigs_view(flat@).len() == flat@.len());
                }
                assert(inject_case(
                    pre,
                    *self,
                    round,
                    cs,
                    Result::<Option<CompletionEvent>, AdminError>::Ok(None),
                ));
            }
            return Ok(None);
        }
        let agg = aggregate(self.epoch_key, round, self.aggregation_threshold, &flat);
        match agg {
            Ok(full) => {
                proof {
                    assert(all_pairs_valid(pre.epoch_key, round, flat_sigs(cs))) by {
                        assert(forall|i: int|
                            0 <= i < flat@.len() ==> share_valid(
                                pre.epoch_key,
                                round,
                                #[trigger] flat@[i],
                            ));
                    }
                }
                let ghost mid_state = *self;
                self.apply_completion(round);
                let epoch = self.epoch;
                proof {
                    assert(completes_to(mid_state, *self, round));
                    assert forall|x: RoundState|
                        #![trigger self.rounds@.contains(x)]
                        self.rounds@.contains(x) implies pre.rounds@.contains(x) && x.round
                        > round by {
                        assert(mid_rounds.contains(x));
                    }
                    assert forall|x: RoundState|
                        #![trigger pre.rounds@.contains(x)]
                        pre.rounds@.contains(x) && x.round > round implies self.rounds@.contains(
                        x,
                    ) by {
                        assert(x.round != round);
                        assert(mid_rounds.contains(x));
                    }
                    assert(completes_to(pre, *self, round));
                    let ev = CompletionEvent { epoch, round, randomness: full.bytes };
                    assert(inject_case(
                        pre,
                        *self,
                        round,
                        cs,
                        Result::<Option<CompletionEvent>, AdminError>::Ok(Some(ev)),
                    ));
                }
                return Ok(Some(CompletionEvent { epoch, round, randomness: full.bytes }));
            },
            Err(_) => {
                proof {
                    assert(!all_pairs_valid(pre.epoch_key, round, flat_sigs(cs))) by {
                        assert(flat@.len() >= pre.aggregation_threshold);
                        assert(!all_shares_valid(pre.epoch_key, round, flat@));
                        let i = choose|i: int|
                            0 <= i < flat@.len() && !share_valid(
                                pre.epoch_key,
                                round,
                                #[trigger] flat@[i],
                            );
                        assert(!pair_valid(pre.epoch_key, round, flat_sigs(cs)[i]));
                    }
                }
                if rs.attempts < u64::MAX {
                    rs.attempts = rs.attempts + 1;
                }
                if rs.attempts > AGGREGATE_ATTEMPT_CEILING {
                    rs.stuck = true;
                }
                let ghost rs_snapshot = rs;
                insert_round_sorted(&mut self.rounds, rs);
                let pending = self.rounds.len() as u64;
                self.metrics.set_num_rounds_pending(pending);
                proof {
                    lemma_inserted_round_facts(pre, mid_rounds, self.rounds@, rs_snapshot, round);
                    lemma_upserted_round_wf(pre, mid_rounds, *self, rs_snapshot, round);
                    assert(inject_case(
                        pre,
                        *self,
                        round,
                        cs,
                        Result::<Option<CompletionEvent>, AdminError>::Err(
                            AdminError::VerificationFailed,
                        ),
                    ));
                }
                return Err(AdminError::VerificationFailed);
            },
        }
    }

    /// Injects a full signature for a round at the current epoch: it
    /// completes the round exactly when it passes verification against the
    /// epoch key; anything else is an explicit error returned to the caller.
    pub fn admin_inject_full_signature(&mut self, round: u64, sig: FullSignature) -> (r: Result<
        CompletionEvent,
        AdminError,
    >)
        requires
            old(self).wf(),
        ensures
            final(self).wf(),
            watermark_monotone(*old(self), *final(self)),
            r matches Err(e) ==> *final(self) == *old(self),
            r == Result::<CompletionEvent, AdminError>::Err(AdminError::NotInitialized) <==> !old(
                self,
            ).initialized,
            r == Result::<CompletionEvent, AdminError>::Err(AdminError::StaleRound) <==> {
                &&& old(self).initialized
                &&& old(self).round_is_stale(round)
            },
            r == Result::<CompletionEvent, AdminError>::Err(AdminError::VerificationFailed) <==> {
                &&& old(self).initialized
                &&& !old(self).round_is_stale(round)
                &&& !signature_verifies(old(self).epoch_key, round, sig)
            },
            r matches Ok(ev) <==> {
                &&& old(self).initialized
                &&& !old(self).round_is_stale(round)
                &&& signature_verifies(old(self).epoch_key, round, sig)
            },
            r matches Ok(ev) ==> {
                &&& completes_to(*old(self), *final(self), round)
                &&& ev.epoch == old(self).epoch
                &&& ev.round == round
                &&& ev.randomness@ == sig.bytes@
            },
    {
        if !self.initialized {
            return Err(AdminError::NotInitialized);
        }
        let stale = match self.highest_completed_round {
            Some(h) => round <= h,
            None => false,
        };
        if stale {
            return Err(AdminError::StaleRound);
        }
        if !verify_signature(self.epoch_key, round, &sig) {
            return Err(AdminError::VerificationFailed);
        }
        self.apply_completion(round);
        let epoch = self.epoch;
        Ok(CompletionEvent { epoch, round, randomness: sig.bytes })
    }
}

/// An actor whose round list took one well-formed updated entry, everything
/// else staying put, is still well-formed.
proof fn lemma_upserted_round_wf(
    pre: ActorState,
    mid_rounds: Seq<RoundState>,
    post: ActorState,
    rs: RoundState,
    round: u64,
)
    requires
        pre.wf(),
        pre.initialized,
        rs.round == round,
        round_state_wf(pre.authorities@, rs),
        round_above_watermark(pre.highest_completed_round, round),
        post.epoch == pre.epoch,
        post.initialized == pre.initialized,
        post.epoch_key == pre.epoch_key,
        post.my_share_ids == pre.my_share_ids,
        post.authorities == pre.authorities,
        post.aggregation_threshold == pre.aggregation_threshold,
        post.highest_completed_round == pre.highest_completed_round,
        post.byzantine_peers == pre.byzantine_peers,
        post.broadcast_rounds == pre.broadcast_rounds,
        post.max_pending_rounds == pre.max_pending_rounds,
        rounds_sorted(post.rounds@),
        forall|x: RoundState|
            #![trigger post.rounds@.contains(x)]
            post.rounds@.contains(x) <==> mid_rounds.contains(x) || x == rs,
        forall|x: RoundState|
            #![trigger mid_rounds.contains(x)]
            mid_rounds.contains(x) ==> pre.rounds@.contains(x),
    ensures
        post.wf(),
{
    assert forall|i: int| 0 <= i < post.rounds@.len() implies round_state_wf(
        post.authorities@,
        #[trigger] post.rounds@[i],
    ) by {
        assert(post.rounds@.contains(post.rounds@[i]));
        let x = post.rounds@[i];
        if x != rs {
            assert(pre.rounds@.contains(x));
            let j = choose|j: int| 0 <= j < pre.rounds@.len() && pre.rounds@[j] == x;
            assert(round_state_wf(pre.authorities@, pre.rounds@[j]));
        }
    }
    assert forall|i: int| 0 <= i < post.rounds@.len() implies round_above_watermark(
        post.highest_completed_round,
        (#[trigger] post.rounds@[i]).round,
    ) by {
        assert(post.rounds@.contains(post.rounds@[i]));
        let x = post.rounds@[i];
        if x != rs {
            assert(pre.rounds@.contains(x));
            let j = choose|j: int| 0 <= j < pre.rounds@.len() && pre.rounds@[j] == x;
            assert(round_above_watermark(pre.highest_completed_round, pre.rounds@[j].round));
        }
    }
}

/// After removing a round's old entry and inserting its updated one, the
/// round map changed only at that round.
proof fn lemma_inserted_round_facts(
    pre: ActorState,
    mid_rounds: Seq<RoundState>,
    post_rounds: Seq<RoundState>,
    rs: RoundState,
    round: u64,
)
    requires
        rs.round == round,
        rounds_sorted(post_rounds),
        forall|x: RoundState|
            #![trigger post_rounds.contains(x)]
            post_rounds.contains(x) <==> mid_rounds.contains(x) || x == rs,
        forall|x: RoundState|
            #![trigger mid_rounds.contains(x)]
            mid_rounds.contains(x) ==> pre.rounds@.contains(x),
        forall|x: RoundState|
            #![trigger pre.rounds@.contains(x)]
            pre.rounds@.contains(x) && x.round != round ==> mid_rounds.contains(x),
        forall|i: int| 0 <= i < mid_rounds.len() ==> (#[trigger] mid_rounds[i]).round != round,
    ensures
        has_round(post_rounds, round),
        round_entry(post_rounds, round) == rs,
        forall|x: RoundState|
            #![trigger post_rounds.contains(x)]
            post_rounds.contains(x) && x.round != round ==> pre.rounds@.contains(x),
        forall|x: RoundState|
            #![trigger pre.rounds@.contains(x)]
            pre.rounds@.contains(x) && x.round != round ==> post_rounds.contains(x),
{
    assert(post_rounds.contains(rs));
    let i = choose|i: int| 0 <= i < post_rounds.len() && post_rounds[i] == rs;
    lemma_round_entry_at(post_rounds, i);
    assert forall|x: RoundState|
        #![trigger post_rounds.contains(x)]
        post_rounds.contains(x) && x.round != round implies pre.rounds@.contains(x) by {
        assert(x != rs);
        assert(mid_rounds.contains(x));
    }
}

} // verus!
