//! Outbound gossip under a rate limit.

use vstd::prelude::*;
use vstd::slice::slice_to_vec;

use crate::networking::events::{EventModel, NetworkEvent};
use crate::networking::peer_manager::NANOS_PER_SEC;
use crate::networking::rate_limiter::{LimiterModel, RateLimiter};

verus! {

/// Messages that may be published within a second.
pub const OUTBOUND_PER_SEC: u64 = 64;

/// A gossip message on its way through the node.
#[derive(Clone, Debug, PartialEq, Eq)]
pub struct GossipMessage {
    /// The peer it came from, if it came from one.
    pub peer_id: Option<String>,
    /// Topic.
    pub topic: String,
    /// Encoded payload.
    pub payload: Vec<u8>,
}

/// Publishes gossip under a rate limit.
pub struct Gossip {
    limiter: RateLimiter,
}

impl View for Gossip {
    type V = LimiterModel;

    closed spec fn view(&self) -> LimiterModel {
        self.limiter@
    }
}

/// The event of an own message that was dropped at a rate limit.
pub open spec fn own_limit(category: Seq<char>) -> EventModel {
    EventModel::RateLimited { peer_id: "self"@, category }
}

/// Writes the event of an own message that was dropped at a rate limit.
pub fn own_limit_event(category: &str) -> (r: NetworkEvent)
    ensures
        r@ == own_limit(category@),
{
    NetworkEvent::RateLimited { peer_id: "self".to_string(), category: category.to_string() }
}

impl Gossip {
    /// The limiter is in order.
    pub closed spec fn wf(&self) -> bool {
        self.limiter.wf()
    }

    /// A publisher that has published nothing.
    pub fn new() -> (r: Self)
        ensures
            r.wf(),
            r@ == (LimiterModel {
                window: NANOS_PER_SEC,
                max_events: OUTBOUND_PER_SEC,
                counts: Map::empty(),
            }),
    {
        Gossip { limiter: RateLimiter::new(NANOS_PER_SEC, OUTBOUND_PER_SEC) }
    }

    /// Publishes a payload at a nanosecond of the caller's clock. The answer is the
    /// message to send, if the limit lets it pass, and the event that tells.
    pub fn publish(&mut self, topic: String, payload: Vec<u8>, now: u64) -> (r: (
        Option<GossipMessage>,
        NetworkEvent,
    ))
        requires
            old(self).wf(),
        ensures
            final(self).wf(),
            final(self)@ == old(self)@.after("gossip_out"@, now),
            if old(self)@.allows("gossip_out"@, now) {
                &&& r.0 matches Some(m)
                &&& m.peer_id is None
                &&& m.topic@ == topic@
                &&& m.payload@ == payload@
                &&& r.1@ == (EventModel::GossipMessage { topic: topic@, payload: payload@ })
            } else {
                r.0 is None && r.1@ == own_limit("gossip_out"@)
            },
    {
        if !self.limiter.allow("gossip_out", now) {
            return (None, own_limit_event("gossip_out"));
        }
        let message = GossipMessage {
            peer_id: None,
            topic: topic.clone(),
            payload: slice_to_vec(payload.as_slice()),
        };
        (Some(message), NetworkEvent::GossipMessage { topic, payload })
    }
}

} // verus!
