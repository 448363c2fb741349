//! The inbound gate of the signature endpoint.
//!
//! Before any cryptographic work, an inbound request must present a
//! resolvable peer identity, that identity must be on the current
//! committee's allow-list, and the request must stay within the configured
//! size bound. Everything else about serving the endpoint — transport,
//! rate limiting by clock, forwarding into the actor's mailbox — belongs to
//! the embedding.

use vstd::prelude::*;

use crate::actor::SendSignaturesRequest;

verus! {

/// Why an inbound request was rejected before processing.
#[derive(Clone, Copy, Debug, PartialEq, Eq, Structural)]
pub enum InboundError {
    /// The request carries no resolvable peer identity.
    MissingPeerId,
    /// The sender is not on the current committee's allow-list.
    SenderNotAllowed,
    /// The request carries more partial signatures than the configured
    /// bound.
    TooManySignatures,
}

/// Whether a list of peers contains one.
fn allowed_contains(allowed: &Vec<u64>, peer: u64) -> (r: bool)
    ensures
        r <==> allowed@.contains(peer),
{
    let mut i: usize = 0;
    while i < allowed.len()
        invariant
            0 <= i <= allowed@.len(),
            forall|p: int| 0 <= p < i ==> allowed@[p] != peer,
        decreases allowed@.len() - i,
    {
        if allowed[i] == peer {
            assert(allowed@.contains(peer));
            return true;
        }
        i = i + 1;
    }
    false
}

/// Admits an inbound signature request exactly when it names an
/// authenticated peer on the allow-list and stays within the size bound;
/// returns that peer. Each rejection names the first failed check.
pub fn validate_send_signatures(
    peer_id: Option<u64>,
    allowed_peers: &Vec<u64>,
    max_partial_sigs: u64,
    request: &SendSignaturesRequest,
) -> (r: Result<u64, InboundError>)
    ensures
        r is Ok <==> (peer_id matches Some(p) && allowed_peers@.contains(p)
            && request.partial_sigs@.len() <= max_partial_sigs),
        r matches Ok(p) ==> peer_id == Some(p),
        r == Result::<u64, InboundError>::Err(InboundError::MissingPeerId) <==> peer_id is None,
        r == Result::<u64, InboundError>::Err(InboundError::SenderNotAllowed) <==> (
        peer_id matches Some(p) && !allowed_peers@.contains(p)),
        r == Result::<u64, InboundError>::Err(InboundError::TooManySignatures) <==> (
        peer_id matches Some(p) && allowed_peers@.contains(p) && request.partial_sigs@.len()
            > max_partial_sigs),
{
    let p = match peer_id {
        Some(p) => p,
        None => {
            return Err(InboundError::MissingPeerId);
        },
    };
    if !allowed_contains(allowed_peers, p) {
        return Err(InboundError::SenderNotAllowed);
    }
    if (request.partial_sigs.len() as u64) > max_partial_sigs {
        return Err(InboundError::TooManySignatures);
    }
    Ok(p)
}

} // verus!
