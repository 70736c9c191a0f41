//! Events of the networking stack.

use vstd::prelude::*;

use crate::types::bytes::Bytes32;

verus! {

/// An observable event of the networking stack.
#[derive(Clone, Debug, PartialEq, Eq)]
pub enum NetworkEvent {
    /// A peer connected.
    PeerConnected { peer_id: String, inbound: bool },
    /// A peer disconnected.
    PeerDisconnected { peer_id: String, inbound: bool },
    /// A peer was banned and removed.
    PeerBanned { peer_id: String, reason: String },
    /// A gossip message was accepted.
    GossipMessage { topic: String, payload: Vec<u8> },
    /// A gossip message was ignored for roots that may become known later.
    GossipDeferredUnknownRoots { topic: String, payload: Vec<u8> },
    /// A gossip attestation waits for one missing head block.
    GossipDeferredMissingHead {
        topic: String,
        payload: Vec<u8>,
        head_root: Bytes32,
        peer_id: String,
    },
    /// A gossip message passed or failed validation.
    GossipValidated { topic: String, valid: bool },
    /// A request arrived.
    ReqRespRequest { peer_id: String, protocol: String, payload: Vec<u8> },
    /// A response arrived.
    ReqRespResponse { peer_id: String, protocol: String, payload: Vec<u8> },
    /// A peer was scored.
    PeerScored { peer_id: String, score: i64 },
    /// A message was dropped at a rate limit.
    RateLimited { peer_id: String, category: String },
}

/// The value of a [`NetworkEvent`].
#[verifier::ext_equal]
pub enum EventModel {
    PeerConnected { peer_id: Seq<char>, inbound: bool },
    PeerDisconnected { peer_id: Seq<char>, inbound: bool },
    PeerBanned { peer_id: Seq<char>, reason: Seq<char> },
    GossipMessage { topic: Seq<char>, payload: Seq<u8> },
    GossipDeferredUnknownRoots { topic: Seq<char>, payload: Seq<u8> },
    GossipDeferredMissingHead {
        topic: Seq<char>,
        payload: Seq<u8>,
        head_root: Bytes32,
        peer_id: Seq<char>,
    },
    GossipValidated { topic: Seq<char>, valid: bool },
    ReqRespRequest { peer_id: Seq<char>, protocol: Seq<char>, payload: Seq<u8> },
    ReqRespResponse { peer_id: Seq<char>, protocol: Seq<char>, payload: Seq<u8> },
    PeerScored { peer_id: Seq<char>, score: i64 },
    RateLimited { peer_id: Seq<char>, category: Seq<char> },
}

impl View for NetworkEvent {
    type V = EventModel;

    open spec fn view(&self) -> EventModel {
        match *self {
            NetworkEvent::PeerConnected { peer_id, inbound } => EventModel::PeerConnected {
                peer_id: peer_id@,
                inbound,
            },
            NetworkEvent::PeerDisconnected { peer_id, inbound } => EventModel::PeerDisconnected {
                peer_id: peer_id@,
                inbound,
            },
            NetworkEvent::PeerBanned { peer_id, reason } => EventModel::PeerBanned {
                peer_id: peer_id@,
                reason: reason@,
            },
            NetworkEvent::GossipMessage { topic, payload } => EventModel::GossipMessage {
                topic: topic@,
                payload: payload@,
            },
            NetworkEvent::GossipDeferredUnknownRoots { topic, payload } => {
                EventModel::GossipDeferredUnknownRoots { topic: topic@, payload: payload@ }
            },
            NetworkEvent::GossipDeferredMissingHead { topic, payload, head_root, peer_id } => {
                EventModel::GossipDeferredMissingHead {
                    topic: topic@,
                    payload: payload@,
                    head_root,
                    peer_id: peer_id@,
                }
            },
            NetworkEvent::GossipValidated { topic, valid } => EventModel::GossipValidated {
                topic: topic@,
                valid,
            },
            NetworkEvent::ReqRespRequest { peer_id, protocol, payload } => {
                EventModel::ReqRespRequest {
                    peer_id: peer_id@,
                    protocol: protocol@,
                    payload: payload@,
                }
            },
            NetworkEvent::ReqRespResponse { peer_id, protocol, payload } => {
                EventModel::ReqRespResponse {
                    peer_id: peer_id@,
                    protocol: protocol@,
                    payload: payload@,
                }
            },
            NetworkEvent::PeerScored { peer_id, score } => EventModel::PeerScored {
                peer_id: peer_id@,
                score,
            },
            NetworkEvent::RateLimited { peer_id, category } => EventModel::RateLimited {
                peer_id: peer_id@,
                category: category@,
            },
        }
    }
}

/// The values of a series of events.
pub open spec fn event_models(v: Seq<NetworkEvent>) -> Seq<EventModel> {
    v.map_values(|e: NetworkEvent| e@)
}

/// Adds an event to a series.
pub fn put_event(out: &mut Vec<NetworkEvent>, event: NetworkEvent)
    ensures
        event_models(final(out)@) == event_models(old(out)@).push(event@),
{
    out.push(event);
    assert(event_models(out@) =~= event_models(old(out)@).push(event@));
}

/// An empty series of events.
pub fn no_events() -> (r: Vec<NetworkEvent>)
    ensures
        event_models(r@) == Seq::<EventModel>::empty(),
{
    let r: Vec<NetworkEvent> = Vec::new();
    assert(event_models(r@) =~= Seq::<EventModel>::empty());
    r
}

} // verus!
