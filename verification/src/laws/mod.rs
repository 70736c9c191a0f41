//! What the operations of the library mean, stated over their inputs and results.

pub mod calls;
pub mod checkpoint;
pub mod cli;
pub mod decoding;
pub mod entries;
pub mod files;
pub mod finality;
pub mod fork_choice;
pub mod gossip;
pub mod layout;
pub mod metrics;
pub mod network;
pub mod node;
pub mod operations;
pub mod peers;
pub mod registry;
pub mod roots;
pub mod service;
pub mod settings;
pub mod signatures;
pub mod text;
pub mod transition;
