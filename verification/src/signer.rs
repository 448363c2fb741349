//! Deterministic model of the threshold signature scheme.
//!
//! The beacon's aggregation logic does not depend on the pairing math behind
//! a real threshold scheme, only on its contract: each share index has one
//! correct partial signature per `(epoch key, round)`, any `threshold` many
//! distinct, ordered, correct shares combine into the round's unique full
//! signature, and a full signature can be checked against the epoch key.
//! This module realises that contract with transparent byte derivations, so
//! every protocol decision built on it is verified and executable.

use vstd::prelude::*;

use crate::codec::{u64_be_bytes, u64_to_be_bytes, PartialSignature};

verus! {

/// The aggregated signature for one `(epoch, round)`; its bytes are the
/// round's randomness.
#[derive(Debug, PartialEq, Eq)]
pub struct FullSignature {
    pub bytes: Vec<u8>,
}

/// Why a set of partial signatures failed to aggregate.
#[derive(Clone, Copy, Debug, PartialEq, Eq, Structural)]
pub enum AggregateError {
    /// Fewer shares than the aggregation threshold.
    NotEnoughShares,
    /// Shares not in strictly increasing share-index order.
    UnorderedShares,
    /// A share's payload is not the correct signature for its index.
    InvalidShare,
}

/// The correct partial-signature payload for one share index of one round.
pub open spec fn partial_payload(key: u64, round: u64, index: u64) -> Seq<u8> {
    u64_be_bytes(key) + u64_be_bytes(round) + u64_be_bytes(index)
}

/// The bytes of the unique full signature for one round under one epoch key.
pub open spec fn full_signature_bytes(key: u64, round: u64) -> Seq<u8> {
    u64_be_bytes(key) + u64_be_bytes(round)
}

/// Whether a full signature passes verification against the epoch key.
pub open spec fn signature_verifies(key: u64, round: u64, sig: FullSignature) -> bool {
    sig.bytes@ == full_signature_bytes(key, round)
}

/// Whether one partial signature is the correct share for its index.
pub open spec fn share_valid(key: u64, round: u64, sig: PartialSignature) -> bool {
    sig.payload@ == partial_payload(key, round, sig.index)
}

/// Whether a sequence of partial signatures is in strictly increasing
/// share-index order; this also makes the indexes pairwise distinct.
pub open spec fn strictly_sorted_by_index(s: Seq<PartialSignature>) -> bool {
    forall|i: int, j: int| 0 <= i < j < s.len() ==> s[i].index < s[j].index
}

/// Whether every partial signature in a sequence is a correct share.
pub open spec fn all_shares_valid(key: u64, round: u64, s: Seq<PartialSignature>) -> bool {
    forall|i: int| 0 <= i < s.len() ==> share_valid(key, round, s[i])
}

/// Produces this node's partial signature for one share index of a round.
/// Deterministic in the epoch key, the round and the index alone.
pub fn sign_partial(key: u64, round: u64, index: u64) -> (sig: PartialSignature)
    ensures
        sig.index == index,
        share_valid(key, round, sig),
{
    let mut payload = u64_to_be_bytes(key);
    let mut round_bytes = u64_to_be_bytes(round);
    let mut index_bytes = u64_to_be_bytes(index);
    payload.append(&mut round_bytes);
    payload.append(&mut index_bytes);
    PartialSignature { index, payload }
}

/// Compares two byte strings for equality.
fn bytes_equal(a: &Vec<u8>, b: &Vec<u8>) -> (r: bool)
    ensures
        r <==> a@ == b@,
{
    if a.len() != b.len() {
        return false;
    }
    let mut i: usize = 0;
    while i < a.len()
        invariant
            i <= a@.len(),
            a@.len() == b@.len(),
            forall|j: int| 0 <= j < i ==> a@[j] == b@[j],
        decreases a@.len() - i,
    {
        if a[i] != b[i] {
            return false;
        }
        i = i + 1;
    }
    proof {
        assert(a@ =~= b@);
    }
    true
}

/// Checks one partial signature's payload against the correct share for its
/// index.
pub fn partial_signature_valid(key: u64, round: u64, sig: &PartialSignature) -> (r: bool)
    ensures
        r <==> share_valid(key, round, *sig),
{
    let expected = sign_partial(key, round, sig.index);
    bytes_equal(&sig.payload, &expected.payload)
}

/// Builds the full signature for a round under an epoch key.
pub fn make_full_signature(key: u64, round: u64) -> (sig: FullSignature)
    ensures
        signature_verifies(key, round, sig),
{
    let mut bytes = u64_to_be_bytes(key);
    let mut round_bytes = u64_to_be_bytes(round);
    bytes.append(&mut round_bytes);
    FullSignature { bytes }
}

/// Verifies a candidate full signature against the epoch key and round.
pub fn verify_signature(key: u64, round: u64, sig: &FullSignature) -> (r: bool)
    ensures
        r <==> signature_verifies(key, round, *sig),
{
    let expected = make_full_signature(key, round);
    bytes_equal(&sig.bytes, &expected.bytes)
}

/// Checks strictly increasing share-index order.
fn check_sorted(sigs: &Vec<PartialSignature>) -> (r: bool)
    ensures
        r <==> strictly_sorted_by_index(sigs@),
{
    let mut i: usize = 1;
    while i < sigs.len()
        invariant
            1 <= i,
            i <= sigs@.len() || sigs@.len() == 0,
            forall|p: int, q: int| 0 <= p < q < i && q < sigs@.len() ==> sigs@[p].index < sigs@[q].index,
        decreases sigs@.len() - i,
    {
        if sigs[i - 1].index >= sigs[i].index {
            return false;
        }
        i = i + 1;
    }
    true
}

/// Checks that every supplied share is the correct partial signature for its
/// index.
fn check_all_valid(key: u64, round: u64, sigs: &Vec<PartialSignature>) -> (r: bool)
    ensures
        r <==> all_shares_valid(key, round, sigs@),
{
    let mut i: usize = 0;
    while i < sigs.len()
        invariant
            i <= sigs@.len(),
            forall|j: int| 0 <= j < i ==> share_valid(key, round, sigs@[j]),
        decreases sigs@.len() - i,
    {
        if !partial_signature_valid(key, round, &sigs[i]) {
            return false;
        }
        i = i + 1;
    }
    true
}

/// Combines ordered partial signatures into the round's full signature.
///
/// Aggregation succeeds exactly when at least `threshold` shares are
/// supplied, in strictly increasing index order, and every share is the
/// correct partial signature for its index; the result then passes
/// verification against the epoch key. Any other input is rejected with the
/// first applicable error, and no signature is produced.
pub fn aggregate(
    key: u64,
    round: u64,
    threshold: u64,
    sigs: &Vec<PartialSignature>,
) -> (r: Result<FullSignature, AggregateError>)
    ensures
        r is Ok <==> {
            &&& sigs@.len() >= threshold
            &&& strictly_sorted_by_index(sigs@)
            &&& all_shares_valid(key, round, sigs@)
        },
        r matches Ok(sig) ==> signature_verifies(key, round, sig),
        r == Err::<FullSignature, AggregateError>(AggregateError::NotEnoughShares) <==> sigs@.len() < threshold,
        r == Err::<FullSignature, AggregateError>(AggregateError::UnorderedShares) <==> {
            &&& sigs@.len() >= threshold
            &&& !strictly_sorted_by_index(sigs@)
        },
        r == Err::<FullSignature, AggregateError>(AggregateError::InvalidShare) <==> {
            &&& sigs@.len() >= threshold
            &&& strictly_sorted_by_index(sigs@)
            &&& !all_shares_valid(key, round, sigs@)
        },
{
    if (sigs.len() as u64) < threshold {
        return Err(AggregateError::NotEnoughShares);
    }
    if !check_sorted(sigs) {
        return Err(AggregateError::UnorderedShares);
    }
    if !check_all_valid(key, round, sigs) {
        return Err(AggregateError::InvalidShare);
    }
    Ok(make_full_signature(key, round))
}

} // verus!
