//! A verified core for a lean Ethereum consensus node.

pub mod app;
pub mod checkpoint_sync;
pub mod cli;
pub mod containers;
pub mod crypto;
pub mod fork_choice;
pub mod inspect;
pub mod keyed_map;
pub mod laws;
pub mod metrics;
pub mod networking;
pub mod node;
pub mod numbers;
pub mod registry;
pub mod registry_files;
pub mod slot;
pub mod ssz;
pub mod storage;
pub mod text;
pub mod types;
