//! The networking rules: framing, topics, validation, scoring and limits.

pub mod codec;
pub mod discovery;
pub mod events;
pub mod framing;
pub mod gossip;
pub mod gossipsub;
pub mod hex;
pub mod node_key;
pub mod p2p;
pub mod peer_manager;
pub mod rate_limiter;
pub mod reqresp;
pub mod reqresp_handler;
pub mod reqresp_messages;
pub mod runtime;
pub mod validate;

pub use self::codec::{LeanReqRespCodec, LeanReqRespProtocol, LeanRequest, LeanResponse};
pub use self::discovery::Discovery;
pub use self::events::NetworkEvent;
pub use self::gossip::{Gossip, GossipMessage};
pub use self::gossipsub::context::{GossipContext, NoopGossipContext, StateGossipContext};
pub use self::p2p::{P2pCommand, P2pConfig, P2pService, SnappyTransform};
pub use self::peer_manager::PeerManager;
pub use self::rate_limiter::RateLimiter;
pub use self::reqresp::{ReqResp, ReqRespMessage};
pub use self::reqresp_handler::{NoopReqRespHandler, ReqRespHandler, StoreReqRespHandler};
pub use self::reqresp_messages::{LeanRequestMessage, LeanResponseMessage, LeanSupportedProtocol};
pub use self::runtime::{Networking, NetworkingConfig};
pub use self::validate::{
    validate_gossip, verifier_from_validators, GossipSignatureVerifier, GossipValidatorKind,
    NoopGossipVerifier, SimpleGossipVerifier,
};
