//! Topics and messages of the lean gossip network.

pub mod message;
pub mod topics;

pub use crate::networking::gossipsub::kind_from_topic_hash;
