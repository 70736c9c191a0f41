//! Consensus containers.

pub mod attestation;
pub mod block;
pub mod checkpoint;
pub mod config;
pub mod gossip;
pub mod justification;
pub mod pq_verifier;
pub mod req_resp;
pub mod state;
pub mod state_codec;
pub mod validator;
