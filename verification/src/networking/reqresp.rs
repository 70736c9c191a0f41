//! Outbound requests and responses under a rate limit.

use vstd::prelude::*;
use vstd::slice::slice_to_vec;

use crate::networking::events::{EventModel, NetworkEvent};
use crate::networking::gossip;
use crate::networking::gossip::OUTBOUND_PER_SEC;
use crate::networking::peer_manager::NANOS_PER_SEC;
use crate::networking::rate_limiter::{LimiterModel, RateLimiter};

verus! {

/// A request or a response on its way through the node.
#[derive(Clone, Debug, PartialEq, Eq)]
pub enum ReqRespMessage {
    /// A request.
    Request { peer_id: String, protocol: String, payload: Vec<u8> },
    /// A response.
    Response { peer_id: String, protocol: String, payload: Vec<u8> },
}

/// The value of a [`ReqRespMessage`].
#[verifier::ext_equal]
pub enum ReqRespModel {
    Request { peer_id: Seq<char>, protocol: Seq<char>, payload: Seq<u8> },
    Response { peer_id: Seq<char>, protocol: Seq<char>, payload: Seq<u8> },
}

impl View for ReqRespMessage {
    type V = ReqRespModel;

    open spec fn view(&self) -> ReqRespModel {
        match *self {
            ReqRespMessage::Request { peer_id, protocol, payload } => ReqRespModel::Request {
                peer_id: peer_id@,
                protocol: protocol@,
                payload: payload@,
            },
            ReqRespMessage::Response { peer_id, protocol, payload } => ReqRespModel::Response {
                peer_id: peer_id@,
                protocol: protocol@,
                payload: payload@,
            },
        }
    }
}

/// Sends requests and responses under a rate limit.
pub struct ReqResp {
    limiter: RateLimiter,
}

impl View for ReqResp {
    type V = LimiterModel;

    closed spec fn view(&self) -> LimiterModel {
        self.limiter@
    }
}

impl ReqResp {
    /// The limiter is in order.
    pub closed spec fn wf(&self) -> bool {
        self.limiter.wf()
    }

    /// A sender that has sent nothing.
    pub fn new() -> (r: Self)
        ensures
            r.wf(),
            r@ == (LimiterModel {
                window: NANOS_PER_SEC,
                max_events: OUTBOUND_PER_SEC,
                counts: Map::empty(),
            }),
    {
        ReqResp { limiter: RateLimiter::new(NANOS_PER_SEC, OUTBOUND_PER_SEC) }
    }

    /// Sends a request at a nanosecond of the caller's clock. The answer is the
    /// message to send, if the limit lets it pass, and the event that tells.
    pub fn send_request(
        &mut self,
        peer_id: String,
        protocol: String,
        payload: Vec<u8>,
        now: u64,
    ) -> (r: (Option<ReqRespMessage>, NetworkEvent))
        requires
            old(self).wf(),
        ensures
            final(self).wf(),
            final(self)@ == old(self)@.after("reqresp_out"@, now),
            if old(self)@.allows("reqresp_out"@, now) {
                &&& r.0 matches Some(m)
                &&& m@ == (ReqRespModel::Request {
                    peer_id: peer_id@,
                    protocol: protocol@,
                    payload: payload@,
                })
                &&& r.1@ == (EventModel::ReqRespRequest {
                    peer_id: peer_id@,
                    protocol: protocol@,
                    payload: payload@,
                })
            } else {
                r.0 is None && r.1@ == gossip::own_limit("reqresp_out"@)
            },
    {
        if !self.limiter.allow("reqresp_out", now) {
            return (None, gossip::own_limit_event("reqresp_out"));
        }
        let message = ReqRespMessage::Request {
            peer_id: peer_id.clone(),
            protocol: protocol.clone(),
            payload: slice_to_vec(payload.as_slice()),
        };
        (Some(message), NetworkEvent::ReqRespRequest { peer_id, protocol, payload })
    }

    /// Sends a response at a nanosecond of the caller's clock. The answer is the
    /// message to send, if the limit lets it pass, and the event that tells.
    pub fn send_response(
        &mut self,
        peer_id: String,
        protocol: String,
        payload: Vec<u8>,
        now: u64,
    ) -> (r: (Option<ReqRespMessage>, NetworkEvent))
        requires
            old(self).wf(),
        ensures
            final(self).wf(),
            final(self)@ == old(self)@.after("reqresp_out"@, now),
            if old(self)@.allows("reqresp_out"@, now) {
                &&& r.0 matches Some(m)
                &&& m@ == (ReqRespModel::Response {
                    peer_id: peer_id@,
                    protocol: protocol@,
                    payload: payload@,
                })
                &&& r.1@ == (EventModel::ReqRespResponse {
                    peer_id: peer_id@,
                    protocol: protocol@,
                    payload: payload@,
                })
            } else {
                r.0 is None && r.1@ == gossip::own_limit("reqresp_out"@)
            },
    {
        if !self.limiter.allow("reqresp_out", now) {
            return (None, gossip::own_limit_event("reqresp_out"));
        }
        let message = ReqRespMessage::Response {
            peer_id: peer_id.clone(),
            protocol: protocol.clone(),
            payload: slice_to_vec(payload.as_slice()),
        };
        (Some(message), NetworkEvent::ReqRespResponse { peer_id, protocol, payload })
    }
}

} // verus!
