//! Peer discovery surface: the known-peers response and its gauge.
//!
//! The discovery server answers one query: who this node is and which peers
//! it knows. The answer is bounded so a response can never grow with the
//! whole network's size.

use vstd::prelude::*;
use vstd::string::StringExecFns;

verus! {

/// Most known peers ever returned in one discovery response.
pub const MAX_KNOWN_PEERS_IN_RESPONSE: u64 = 200;

/// A peer's self-signed advertisement, as the discovery logic reads it: its
/// network identity, its addresses and the advertisement's timestamp.
#[derive(Debug)]
pub struct SignedNodeInfo {
    pub peer_id: u64,
    pub addresses: Vec<String>,
    pub timestamp_ms: u64,
}

/// The response to a known-peers query.
#[derive(Debug)]
pub struct GetKnownPeersResponseV2 {
    /// Information about the node that is responding to this request.
    pub own_info: SignedNodeInfo,
    /// A bounded subset of known peers.
    pub known_peers: Vec<SignedNodeInfo>,
}

/// Why a known-peers query was refused.
#[derive(Clone, Copy, Debug, PartialEq, Eq, Structural)]
pub enum DiscoveryError {
    /// The server has not learned its own advertisement yet.
    NotInitialized,
}

/// The discovery server's state: this node's own advertisement, once known,
/// and the advertisements of known peers.
pub struct State {
    pub our_info: Option<SignedNodeInfo>,
    pub known_peers: Vec<SignedNodeInfo>,
}

/// Structural equality of advertisements, up to views.
pub open spec fn info_like(a: SignedNodeInfo, b: SignedNodeInfo) -> bool {
    &&& a.peer_id == b.peer_id
    &&& a.timestamp_ms == b.timestamp_ms
    &&& a.addresses@.len() == b.addresses@.len()
    &&& forall|i: int| 0 <= i < a.addresses@.len() ==> a.addresses@[i]@ == (#[trigger] b.addresses@[i])@
}

/// Copies an advertisement.
fn clone_info(a: &SignedNodeInfo) -> (r: SignedNodeInfo)
    ensures
        info_like(r, *a),
{
    let mut addresses: Vec<String> = Vec::new();
    let mut i: usize = 0;
    while i < a.addresses.len()
        invariant
            0 <= i <= a.addresses@.len(),
            addresses@.len() == i,
            forall|p: int|
                0 <= p < i ==> (#[trigger] addresses@[p])@ == a.addresses@[p]@,
        decreases a.addresses@.len() - i,
    {
        addresses.push(String::from_str(a.addresses[i].as_str()));
        i = i + 1;
    }
    SignedNodeInfo { peer_id: a.peer_id, addresses, timestamp_ms: a.timestamp_ms }
}

/// Answers a known-peers query: this node's own advertisement and at most
/// `MAX_KNOWN_PEERS_IN_RESPONSE` known peers, in the order they are held. A
/// server that has not learned its own advertisement refuses the query.
pub fn get_known_peers_v2(state: &State) -> (r: Result<GetKnownPeersResponseV2, DiscoveryError>)
    ensures
        r is Ok <==> state.our_info is Some,
        r matches Err(e) ==> e == DiscoveryError::NotInitialized,
        r matches Ok(resp) ==> {
            &&& state.our_info matches Some(own) && info_like(resp.own_info, own)
            &&& resp.known_peers@.len() == if state.known_peers@.len()
                <= MAX_KNOWN_PEERS_IN_RESPONSE {
                state.known_peers@.len()
            } else {
                MAX_KNOWN_PEERS_IN_RESPONSE as nat
            }
            &&& forall|i: int|
                0 <= i < resp.known_peers@.len() ==> info_like(
                    #[trigger] resp.known_peers@[i],
                    state.known_peers@[i],
                )
        },
{
    let own = match &state.our_info {
        Some(own) => clone_info(own),
        None => {
            return Err(DiscoveryError::NotInitialized);
        },
    };
    let mut known_peers: Vec<SignedNodeInfo> = Vec::new();
    let mut i: usize = 0;
    while i < state.known_peers.len() && (i as u64) < MAX_KNOWN_PEERS_IN_RESPONSE
        invariant
            0 <= i <= state.known_peers@.len(),
            i <= MAX_KNOWN_PEERS_IN_RESPONSE,
            known_peers@.len() == i,
            forall|p: int|
                0 <= p < i ==> info_like(
                    #[trigger] known_peers@[p],
                    state.known_peers@[p],
                ),
        decreases state.known_peers@.len() - i,
    {
        known_peers.push(clone_info(&state.known_peers[i]));
        i = i + 1;
    }
    Ok(GetKnownPeersResponseV2 { own_info: own, known_peers })
}

/// The discovery gauge: how many peers advertise at least one external
/// address. `None` belongs to a disabled sink.
pub struct Metrics {
    pub num_peers_with_external_address: Option<i64>,
}

impl Metrics {
    /// A sink that records the gauge, starting at zero.
    pub fn enabled() -> (m: Metrics)
        ensures
            m.num_peers_with_external_address == Some(0i64),
    {
        Metrics { num_peers_with_external_address: Some(0) }
    }

    /// A sink that records nothing.
    pub fn disabled() -> (m: Metrics)
        ensures
            m.num_peers_with_external_address is None,
    {
        Metrics { num_peers_with_external_address: None }
    }

    /// Counts one more peer with an external address; saturates rather than
    /// wrapping.
    pub fn inc_num_peers_with_external_address(&mut self)
        ensures
            final(self).num_peers_with_external_address == match old(
                self,
            ).num_peers_with_external_address {
                Some(g) => if g == i64::MAX {
                    Some(g)
                } else {
                    Some((g + 1) as i64)
                },
                None => None::<i64>,
            },
    {
        match self.num_peers_with_external_address {
            Some(g) => {
                if g < i64::MAX {
                    self.num_peers_with_external_address = Some(g + 1);
                }
            },
            None => {},
        }
    }

    /// Counts one fewer peer with an external address; saturates rather
    /// than wrapping.
    pub fn dec_num_peers_with_external_address(&mut self)
        ensures
            final(self).num_peers_with_external_address == match old(
                self,
            ).num_peers_with_external_address {
                Some(g) => if g == i64::MIN {
                    Some(g)
                } else {
                    Some((g - 1) as i64)
                },
                None => None::<i64>,
            },
    {
        match self.num_peers_with_external_address {
            Some(g) => {
                if g > i64::MIN {
                    self.num_peers_with_external_address = Some(g - 1);
                }
            },
            None => {},
        }
    }
}

} // verus!
