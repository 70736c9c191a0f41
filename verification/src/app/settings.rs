//! Settings of a node.

use vstd::prelude::*;
use vstd::string::StringExecFns;

use crate::app::entries;
use crate::app::entries::{DraftModel, SettingsDraft};
use crate::app::identity;
use crate::app::identity::ValidatorConfigEntry;
use crate::app::yaml;
use crate::containers::config::Config;
use crate::networking::discovery;
use crate::networking::peer_manager;
use crate::networking::runtime;
use crate::networking::runtime::NetworkingConfig;
use crate::networking::validate::GossipValidatorKind;
use crate::text;
use crate::types::uint::Uint64;

verus! {

/// Number of validators at genesis where the configuration names none.
pub const DEFAULT_VALIDATOR_COUNT: usize = 5;

/// Settings of a node.
#[derive(Clone, Debug)]
pub struct NodeSettings {
    /// Serve metrics.
    pub metrics: bool,
    /// Address that the metrics server binds.
    pub metrics_address: String,
    /// Port of the metrics server.
    pub metrics_port: u16,
    /// Serve the HTTP API.
    pub http_api: bool,
    /// Address that the HTTP server binds.
    pub http_address: String,
    /// Port of the HTTP server.
    pub http_port: u16,
    /// Seconds between two dials of a seed.
    pub discovery_interval_secs: u64,
    /// Seconds between two decays of the scores.
    pub score_decay_interval_secs: u64,
    /// How far a decay moves a score towards zero.
    pub score_decay_amount: i64,
    /// Score at or below which a peer is banned.
    pub ban_threshold: i64,
    /// Address to listen on.
    pub listen_addr: String,
    /// File with the node's key.
    pub node_key_path: Option<String>,
    /// Addresses to dial on start.
    pub bootnodes: Vec<String>,
    /// Peers that are always trusted.
    pub trusted_peers: Vec<String>,
    /// Topics to subscribe to.
    pub allowed_topics: Vec<String>,
    /// Score of a valid message, by topic.
    pub topic_scores: Vec<(String, i64)>,
    /// Validation of a topic's payloads.
    pub topic_validators: Vec<(String, GossipValidatorKind)>,
    /// Largest gossip payload.
    pub max_gossip_bytes: usize,
    /// Largest payload of a request or a response.
    pub max_reqresp_bytes: usize,
    /// Aggregate attestations.
    pub is_aggregator: bool,
    /// Number of attestation subnets.
    pub attestation_committee_count: u64,
    /// Number of validators at genesis.
    pub validator_count: usize,
    /// The node's own validator.
    pub local_validator_index: u64,
    /// Directory of the block store.
    pub storage_dir: Option<String>,
    /// File that assigns validators to nodes.
    pub validator_config_path: Option<String>,
    /// Name of the node in the metrics.
    pub metrics_node_name: Option<String>,
    /// Name of the client in the metrics.
    pub metrics_client_name: Option<String>,
    /// Where to fetch a finalized state from.
    pub checkpoint_sync_url: Option<String>,
}

/// The value of [`NodeSettings`].
#[verifier::ext_equal]
pub struct SettingsModel {
    pub metrics: bool,
    pub metrics_address: Seq<char>,
    pub metrics_port: u16,
    pub http_api: bool,
    pub http_address: Seq<char>,
    pub http_port: u16,
    pub discovery_interval_secs: u64,
    pub score_decay_interval_secs: u64,
    pub score_decay_amount: i64,
    pub ban_threshold: i64,
    pub listen_addr: Seq<char>,
    pub node_key_path: Option<Seq<char>>,
    pub bootnodes: Seq<Seq<char>>,
    pub trusted_peers: Seq<Seq<char>>,
    pub allowed_topics: Seq<Seq<char>>,
    pub topic_scores: Seq<(Seq<char>, i64)>,
    pub topic_validators: Seq<(Seq<char>, GossipValidatorKind)>,
    pub max_gossip_bytes: usize,
    pub max_reqresp_bytes: usize,
    pub is_aggregator: bool,
    pub attestation_committee_count: u64,
    pub validator_count: usize,
    pub local_validator_index: u64,
    pub storage_dir: Option<Seq<char>>,
    pub validator_config_path: Option<Seq<char>>,
    pub metrics_node_name: Option<Seq<char>>,
    pub metrics_client_name: Option<Seq<char>>,
    pub checkpoint_sync_url: Option<Seq<char>>,
}

impl View for NodeSettings {
    type V = SettingsModel;

    open spec fn view(&self) -> SettingsModel {
        SettingsModel {
            metrics: self.metrics,
            metrics_address: self.metrics_address@,
            metrics_port: self.metrics_port,
            http_api: self.http_api,
            http_address: self.http_address@,
            http_port: self.http_port,
            discovery_interval_secs: self.discovery_interval_secs,
            score_decay_interval_secs: self.score_decay_interval_secs,
            score_decay_amount: self.score_decay_amount,
            ban_threshold: self.ban_threshold,
            listen_addr: self.listen_addr@,
            node_key_path: discovery::option_text(self.node_key_path),
            bootnodes: peer_manager::names(self.bootnodes@),
            trusted_peers: peer_manager::names(self.trusted_peers@),
            allowed_topics: peer_manager::names(self.allowed_topics@),
            topic_scores: runtime::named(self.topic_scores@),
            topic_validators: runtime::named(self.topic_validators@),
            max_gossip_bytes: self.max_gossip_bytes,
            max_reqresp_bytes: self.max_reqresp_bytes,
            is_aggregator: self.is_aggregator,
            attestation_committee_count: self.attestation_committee_count,
            validator_count: self.validator_count,
            local_validator_index: self.local_validator_index,
            storage_dir: discovery::option_text(self.storage_dir),
            validator_config_path: discovery::option_text(self.validator_config_path),
            metrics_node_name: discovery::option_text(self.metrics_node_name),
            metrics_client_name: discovery::option_text(self.metrics_client_name),
            checkpoint_sync_url: discovery::option_text(self.checkpoint_sync_url),
        }
    }
}

/// The topics of the development network.
pub open spec fn default_topics() -> Seq<Seq<char>> {
    seq![
        "/leanconsensus/devnet3/blocks/ssz_snappy"@,
        "/leanconsensus/devnet3/attestation_0/ssz_snappy"@,
        "/leanconsensus/devnet3/aggregation/ssz_snappy"@,
    ]
}

/// The scores of those topics.
pub open spec fn default_scores() -> Seq<(Seq<char>, i64)> {
    seq![(default_topics()[0], 2i64), (default_topics()[1], 1i64), (default_topics()[2], 1i64)]
}

/// The validations of those topics.
pub open spec fn default_kinds() -> Seq<(Seq<char>, GossipValidatorKind)> {
    seq![
        (default_topics()[0], GossipValidatorKind::Block),
        (default_topics()[1], GossipValidatorKind::Attestation),
        (default_topics()[2], GossipValidatorKind::AggregatedAttestation),
    ]
}

fn default_allowed_topics() -> (r: Vec<String>)
    ensures
        peer_manager::names(r@) == default_topics(),
{
    let mut v: Vec<String> = Vec::new();
    v.push("/leanconsensus/devnet3/blocks/ssz_snappy".to_string());
    v.push("/leanconsensus/devnet3/attestation_0/ssz_snappy".to_string());
    v.push("/leanconsensus/devnet3/aggregation/ssz_snappy".to_string());
    assert(peer_manager::names(v@) =~= default_topics());
    v
}

fn default_topic_scores() -> (r: Vec<(String, i64)>)
    ensures
        runtime::named(r@) == default_scores(),
{
    let mut v: Vec<(String, i64)> = Vec::new();
    v.push(("/leanconsensus/devnet3/blocks/ssz_snappy".to_string(), 2));
    v.push(("/leanconsensus/devnet3/attestation_0/ssz_snappy".to_string(), 1));
    v.push(("/leanconsensus/devnet3/aggregation/ssz_snappy".to_string(), 1));
    assert(runtime::named(v@) =~= default_scores());
    v
}

fn default_topic_validators() -> (r: Vec<(String, GossipValidatorKind)>)
    ensures
        runtime::named(r@) == default_kinds(),
{
    let mut v: Vec<(String, GossipValidatorKind)> = Vec::new();
    v.push(("/leanconsensus/devnet3/blocks/ssz_snappy".to_string(), GossipValidatorKind::Block));
    v.push(
        (
            "/leanconsensus/devnet3/attestation_0/ssz_snappy".to_string(),
            GossipValidatorKind::Attestation,
        ),
    );
    v.push(
        (
            "/leanconsensus/devnet3/aggregation/ssz_snappy".to_string(),
            GossipValidatorKind::AggregatedAttestation,
        ),
    );
    assert(runtime::named(v@) =~= default_kinds());
    v
}

/// A value, or the default where there is none.
pub open spec fn or_default<T>(v: Option<T>, default: T) -> T {
    match v {
        Some(x) => x,
        None => default,
    }
}

fn value_or<T: Copy>(v: Option<T>, default: T) -> (r: T)
    ensures
        r == or_default(v, default),
{
    match v {
        Some(x) => x,
        None => default,
    }
}

fn text_or(v: Option<String>, default: &str) -> (r: String)
    ensures
        r@ == or_default(discovery::option_text(v), default@),
{
    match v {
        Some(x) => x,
        None => default.to_string(),
    }
}

/// The settings that entries give. A missing entry takes its default, each by itself; a
/// list of topics without any counts as missing.
pub open spec fn settings_of(d: DraftModel) -> SettingsModel {
    SettingsModel {
        metrics: or_default(d.server.metrics, false),
        metrics_address: or_default(d.server.metrics_address, "127.0.0.1"@),
        metrics_port: or_default(d.server.metrics_port, 8080u16),
        http_api: or_default(d.server.http_api, true),
        http_address: or_default(d.server.http_address, "127.0.0.1"@),
        http_port: or_default(d.server.http_port, 8080u16),
        discovery_interval_secs: or_default(d.network.discovery_interval_secs, 5u64),
        score_decay_interval_secs: or_default(d.network.score_decay_interval_secs, 30u64),
        score_decay_amount: or_default(d.network.score_decay_amount, 1i64),
        ban_threshold: or_default(d.network.ban_threshold, -100i64),
        listen_addr: or_default(d.network.listen_addr, "/ip4/0.0.0.0/udp/9000/quic-v1"@),
        node_key_path: d.network.node_key_path,
        bootnodes: d.network.bootnodes,
        trusted_peers: d.network.trusted_peers,
        allowed_topics: if d.network.allowed_topics.len() == 0 {
            default_topics()
        } else {
            d.network.allowed_topics
        },
        topic_scores: or_default(d.network.topic_scores, default_scores()),
        topic_validators: or_default(d.network.topic_validators, default_kinds()),
        max_gossip_bytes: or_default(d.network.max_gossip_bytes, 2_000_000usize),
        max_reqresp_bytes: or_default(d.network.max_reqresp_bytes, 4_000_000usize),
        is_aggregator: or_default(d.duty.is_aggregator, false),
        attestation_committee_count: or_default(d.duty.attestation_committee_count, 1u64),
        validator_count: or_default(d.duty.validator_count, DEFAULT_VALIDATOR_COUNT),
        local_validator_index: or_default(d.duty.local_validator_index, 0u64),
        storage_dir: d.duty.storage_dir,
        validator_config_path: d.duty.validator_config_path,
        metrics_node_name: d.server.metrics_node_name,
        metrics_client_name: d.server.metrics_client_name,
        checkpoint_sync_url: d.duty.checkpoint_sync_url,
    }
}

/// The settings without any entry.
pub open spec fn default_settings() -> SettingsModel {
    settings_of(entries::no_entries())
}

/// Settles the settings that entries give.
pub fn settle(draft: SettingsDraft) -> (r: NodeSettings)
    ensures
        r@ == settings_of(draft@),
{
    let server = draft.server;
    let network = draft.network;
    let duty = draft.duty;
    let allowed_topics: Vec<String> = if network.allowed_topics.len() == 0 {
        default_allowed_topics()
    } else {
        network.allowed_topics
    };
    let topic_scores: Vec<(String, i64)> = match network.topic_scores {
        Some(table) => table,
        None => default_topic_scores(),
    };
    let topic_validators: Vec<(String, GossipValidatorKind)> = match network.topic_validators {
        Some(table) => table,
        None => default_topic_validators(),
    };
    NodeSettings {
        metrics: value_or(server.metrics, false),
        metrics_address: text_or(server.metrics_address, "127.0.0.1"),
        metrics_port: value_or(server.metrics_port, 8080),
        http_api: value_or(server.http_api, true),
        http_address: text_or(server.http_address, "127.0.0.1"),
        http_port: value_or(server.http_port, 8080),
        discovery_interval_secs: value_or(network.discovery_interval_secs, 5),
        score_decay_interval_secs: value_or(network.score_decay_interval_secs, 30),
        score_decay_amount: value_or(network.score_decay_amount, 1),
        ban_threshold: value_or(network.ban_threshold, -100),
        listen_addr: text_or(network.listen_addr, "/ip4/0.0.0.0/udp/9000/quic-v1"),
        node_key_path: network.node_key_path,
        bootnodes: network.bootnodes,
        trusted_peers: network.trusted_peers,
        allowed_topics,
        topic_scores,
        topic_validators,
        max_gossip_bytes: value_or(network.max_gossip_bytes, 2_000_000),
        max_reqresp_bytes: value_or(network.max_reqresp_bytes, 4_000_000),
        is_aggregator: value_or(duty.is_aggregator, false),
        attestation_committee_count: value_or(duty.attestation_committee_count, 1),
        validator_count: value_or(duty.validator_count, DEFAULT_VALIDATOR_COUNT),
        local_validator_index: value_or(duty.local_validator_index, 0),
        storage_dir: duty.storage_dir,
        validator_config_path: duty.validator_config_path,
        metrics_node_name: server.metrics_node_name,
        metrics_client_name: server.metrics_client_name,
        checkpoint_sync_url: duty.checkpoint_sync_url,
    }
}

/// The settings without any entry.
pub fn default_node_settings() -> (r: NodeSettings)
    ensures
        r@ == default_settings(),
{
    settle(
        SettingsDraft {
            server: entries::ServerDraft::new(),
            network: entries::NetworkDraft::new(),
            duty: entries::DutyDraft::new(),
        },
    )
}

/// The chain configuration that bytes hold: its encoding, or a text with the genesis
/// time.
pub open spec fn config_of(b: Seq<u8>) -> Result<Config, Seq<char>> {
    if b.len() == 8 {
        Config::decoded(b, "Config"@)
    } else if !vstd::utf8::valid_utf8(b) {
        Err("Config is not valid UTF-8: "@ + yaml::utf8_fault(b))
    } else {
        let lines = text::lines(vstd::utf8::decode_utf8(b));
        match entries::genesis_time_of(lines, lines.len()) {
            Err(e) => Err(e),
            Ok(None) => Err("Config missing genesis_time"@),
            Ok(Some(t)) => Ok(Config { genesis_time: Uint64(t) }),
        }
    }
}

fn utf8_text(b: &[u8]) -> (r: Result<String, String>)
    ensures
        crate::ssz::view_outcome(r) == (if vstd::utf8::valid_utf8(b@) {
            Ok::<Seq<char>, Seq<char>>(vstd::utf8::decode_utf8(b@))
        } else {
            Err("Config is not valid UTF-8: "@ + yaml::utf8_fault(b@))
        }),
{
    match yaml::read_utf8(b) {
        Ok(s) => Ok(s),
        Err(e) => {
            let mut s: String = "Config is not valid UTF-8: ".to_string();
            s.append(e.as_str());
            Err(s)
        },
    }
}

/// Reads the chain configuration from the bytes of its file.
pub fn load_config(bytes: &[u8]) -> (r: Result<Config, String>)
    ensures
        crate::ssz::plain_outcome(r) == config_of(bytes@),
{
    if bytes.len() == Config::fixed_len() {
        return Config::decode_ssz_checked(bytes);
    }
    let s = match utf8_text(bytes) {
        Ok(s) => s,
        Err(e) => {
            return Err(e);
        },
    };
    let chars = text::to_chars(s.as_str());
    match entries::read_genesis_time(chars.as_slice()) {
        Err(e) => Err(e),
        Ok(None) => Err("Config missing genesis_time".to_string()),
        Ok(Some(t)) => Ok(Config { genesis_time: Uint64(t) }),
    }
}

/// Configuration and settings, and the file that names further bootnodes.
#[derive(Clone, Debug)]
pub struct LoadedSettings {
    /// Chain configuration.
    pub config: Config,
    /// Settings.
    pub settings: NodeSettings,
    /// File with further bootnodes.
    pub bootnodes_file: Option<String>,
    /// True where the settings come from entries, so that the validator
    /// configuration may change them.
    pub from_entries: bool,
}

/// The value of a [`LoadedSettings`].
#[verifier::ext_equal]
pub struct LoadedModel {
    pub config: Config,
    pub settings: SettingsModel,
    pub bootnodes_file: Option<Seq<char>>,
    pub from_entries: bool,
}

impl View for LoadedSettings {
    type V = LoadedModel;

    open spec fn view(&self) -> LoadedModel {
        LoadedModel {
            config: self.config,
            settings: self.settings@,
            bootnodes_file: discovery::option_text(self.bootnodes_file),
            from_entries: self.from_entries,
        }
    }
}

/// A configuration with the default settings.
pub open spec fn plain_settings(config: Config) -> LoadedModel {
    LoadedModel {
        config,
        settings: default_settings(),
        bootnodes_file: None,
        from_entries: false,
    }
}

/// What a configuration text gives, where `yaml_time` is the genesis time that it
/// gives as a YAML document.
pub open spec fn settings_of_text(s: Seq<char>, yaml_time: Option<u64>) -> Result<
    LoadedModel,
    Seq<char>,
> {
    match yaml_time {
        Some(t) => Ok(plain_settings(Config { genesis_time: Uint64(t) })),
        None => match entries::text_draft(s) {
            Err(e) => Err(e),
            Ok(d) => match d.duty.genesis_time {
                None => Err("Config missing genesis_time"@),
                Some(t) => Ok(
                    LoadedModel {
                        config: Config { genesis_time: Uint64(t) },
                        settings: settings_of(d),
                        bootnodes_file: d.network.bootnodes_file,
                        from_entries: true,
                    },
                ),
            },
        },
    }
}

/// What the bytes of a configuration file give.
pub open spec fn settings_of_bytes(b: Seq<u8>) -> Result<LoadedModel, Seq<char>> {
    if b.len() == 8 {
        Ok(plain_settings(Config { genesis_time: Uint64(crate::ssz::u64_at(b, 0)) }))
    } else if !vstd::utf8::valid_utf8(b) {
        Err("Config is not valid UTF-8: "@ + yaml::utf8_fault(b))
    } else {
        let s = vstd::utf8::decode_utf8(b);
        settings_of_text(s, yaml::yaml_number(s, "GENESIS_TIME"@))
    }
}

/// Reads a configuration text, where `yaml_time` is the genesis time that it gives
/// as a YAML document.
pub fn read_settings_text(s: &str, yaml_time: Option<u64>) -> (r: Result<LoadedSettings, String>)
    ensures
        crate::ssz::view_outcome(r) == settings_of_text(s@, yaml_time),
{
    if let Some(t) = yaml_time {
        return Ok(
            LoadedSettings {
                config: Config { genesis_time: Uint64(t) },
                settings: default_node_settings(),
                bootnodes_file: None,
                from_entries: false,
            },
        );
    }
    let chars = text::to_chars(s);
    let draft = match SettingsDraft::read(chars.as_slice()) {
        Ok(d) => d,
        Err(e) => {
            return Err(e);
        },
    };
    match draft.duty.genesis_time {
        None => Err("Config missing genesis_time".to_string()),
        Some(t) => {
            let bootnodes_file = match &draft.network.bootnodes_file {
                Some(f) => Some(f.clone()),
                None => None,
            };
            Ok(
                LoadedSettings {
                    config: Config { genesis_time: Uint64(t) },
                    settings: settle(draft),
                    bootnodes_file,
                    from_entries: true,
                },
            )
        },
    }
}

/// Reads configuration and settings from the bytes of their file.
pub fn load_node_settings(bytes: &[u8]) -> (r: Result<LoadedSettings, String>)
    ensures
        crate::ssz::view_outcome(r) == settings_of_bytes(bytes@),
{
    if bytes.len() == Config::fixed_len() {
        return match Config::decode_ssz_checked(bytes) {
            Ok(config) => Ok(
                LoadedSettings {
                    config,
                    settings: default_node_settings(),
                    bootnodes_file: None,
                    from_entries: false,
                },
            ),
            Err(e) => Err(e),
        };
    }
    let s = match utf8_text(bytes) {
        Ok(s) => s,
        Err(e) => {
            return Err(e);
        },
    };
    read_settings_text(s.as_str(), yaml::read_yaml_number(s.as_str(), "GENESIS_TIME"))
}

/// The settings with the bootnodes of the file, and with the role that the validator
/// configuration gives the local validator.
pub open spec fn completed(
    m: LoadedModel,
    bootnodes: Seq<Seq<char>>,
    entries: Option<Seq<identity::EntryModel>>,
) -> SettingsModel {
    let s = SettingsModel { bootnodes: m.settings.bootnodes + bootnodes, ..m.settings };
    if !m.from_entries {
        m.settings
    } else {
        match identity::role_of(entries, s.local_validator_index) {
            Some(role) => SettingsModel { is_aggregator: role, ..s },
            None => s,
        }
    }
}

impl LoadedSettings {
    /// Completes the settings with the bootnodes of the bootnodes file and with the
    /// entries of the validator configuration, if there is one.
    pub fn complete(
        self,
        bootnodes: Vec<String>,
        entries: &Option<Vec<ValidatorConfigEntry>>,
    ) -> (r: (Config, NodeSettings))
        ensures
            r.0 == self.config,
            r.1@ == completed(
                self@,
                peer_manager::names(bootnodes@),
                identity::optional_entries(*entries),
            ),
    {
        let config = self.config;
        let mut settings = self.settings;
        if !self.from_entries {
            return (config, settings);
        }
        let ghost m = settings@;
        let mut bootnodes = bootnodes;
        let ghost before = settings.bootnodes@;
        let ghost more = bootnodes@;
        settings.bootnodes.append(&mut bootnodes);
        assert(peer_manager::names(settings.bootnodes@) =~= peer_manager::names(before)
            + peer_manager::names(more));
        if let Some(role) = identity::configured_role(entries, settings.local_validator_index) {
            settings.is_aggregator = role;
        }
        (config, settings)
    }
}

impl NodeSettings {
    /// The configuration of the networking runtime.
    pub fn networking_config(&self) -> (r: NetworkingConfig)
        ensures
            r@ == networking_of(self@),
    {
        NetworkingConfig {
            discovery_interval_secs: self.discovery_interval_secs,
            score_decay_interval_secs: self.score_decay_interval_secs,
            score_decay_amount: self.score_decay_amount,
            ban_threshold: self.ban_threshold,
            bootnodes: runtime::copy_names(&self.bootnodes),
            trusted_peers: runtime::copy_names(&self.trusted_peers),
            listen_addr: self.listen_addr.clone(),
            node_key_path: match &self.node_key_path {
                Some(p) => Some(p.clone()),
                None => None,
            },
            allowed_topics: runtime::copy_names(&self.allowed_topics),
            topic_scores: runtime::copy_named(&self.topic_scores),
            topic_validators: runtime::copy_named(&self.topic_validators),
            max_gossip_bytes: self.max_gossip_bytes,
            max_reqresp_bytes: self.max_reqresp_bytes,
        }
    }
}

/// The networking configuration that settings give.
pub open spec fn networking_of(s: SettingsModel) -> runtime::ConfigModel {
    runtime::ConfigModel {
        discovery_interval_secs: s.discovery_interval_secs,
        score_decay_interval_secs: s.score_decay_interval_secs,
        score_decay_amount: s.score_decay_amount,
        ban_threshold: s.ban_threshold,
        bootnodes: s.bootnodes,
        trusted_peers: s.trusted_peers,
        listen_addr: s.listen_addr,
        node_key_path: s.node_key_path,
        allowed_topics: s.allowed_topics,
        topic_scores: s.topic_scores,
        topic_validators: s.topic_validators,
        max_gossip_bytes: s.max_gossip_bytes,
        max_reqresp_bytes: s.max_reqresp_bytes,
    }
}

/// A file from which settings are read as entries gives the same chain
/// configuration when that alone is read.
pub proof fn law_both_readers_agree(b: Seq<u8>)
    requires
        settings_of_bytes(b) matches Ok(m) && (m.from_entries || b.len() == 8),
    ensures
        config_of(b) == Ok::<Config, Seq<char>>(settings_of_bytes(b)->Ok_0.config),
{
    if b.len() != 8 {
        let lines = text::lines(vstd::utf8::decode_utf8(b));
        entries::law_genesis_time_alone(lines, lines.len());
    }
}

} // verus!
