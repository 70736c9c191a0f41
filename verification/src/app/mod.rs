//! Node settings and genesis.

pub mod bootnodes;
pub mod entries;
pub mod genesis;
pub mod identity;
pub mod settings;
pub mod yaml;

pub use self::bootnodes::load_bootnodes_from_enr_file;
pub use self::genesis::{
    build_genesis, build_genesis_from_config_yaml, build_genesis_from_config_yaml_with_override,
    build_genesis_with_validator_count,
};
pub use self::identity::{
    resolve_local_validator_index_for_node_name, resolve_metrics_identity,
    resolve_validator_startup_overrides, FileText, ValidatorConfigEntry,
};
pub use self::settings::{
    load_config, load_node_settings, LoadedSettings, NodeSettings, DEFAULT_VALIDATOR_COUNT,
};
