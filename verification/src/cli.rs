//! The command line.

use vstd::prelude::*;
use vstd::string::StringExecFns;

use crate::networking::discovery;
use crate::networking::peer_manager;
use crate::node;
use crate::node::NodeConfig;
use crate::numbers;
use crate::text;

verus! {

/// Where bootnodes come from.
#[derive(Clone, Debug)]
pub enum BootnodeSource {
    /// An address.
    Address(String),
    /// A file with node records.
    File(String),
}

/// The value of a [`BootnodeSource`].
#[verifier::ext_equal]
pub enum SourceModel {
    Address(Seq<char>),
    File(Seq<char>),
}

impl View for BootnodeSource {
    type V = SourceModel;

    open spec fn view(&self) -> SourceModel {
        match *self {
            BootnodeSource::Address(a) => SourceModel::Address(a@),
            BootnodeSource::File(f) => SourceModel::File(f@),
        }
    }
}

/// The values of bootnode sources.
pub open spec fn source_models(v: Seq<BootnodeSource>) -> Seq<SourceModel> {
    v.map_values(|s: BootnodeSource| s@)
}

/// The options of a command line.
pub struct CliOptions {
    /// Configuration file.
    pub config_path: Option<String>,
    /// Genesis time.
    pub genesis_time: Option<u64>,
    /// Data directory.
    pub data_dir: Option<String>,
    /// Where to fetch a finalized state from.
    pub checkpoint_sync_url: Option<String>,
    /// Address to listen on.
    pub listen_addr: Option<String>,
    /// Bootnodes, in the order in which they were given.
    pub bootnodes: Vec<BootnodeSource>,
    /// File with the node's key.
    pub node_key_path: Option<String>,
    /// File that assigns validators to nodes.
    pub validators_path: Option<String>,
    /// Directory with the validator keys.
    pub validator_keys_path: Option<String>,
    /// Name of the node.
    pub node_id: Option<String>,
    /// Port of the metrics server.
    pub metrics_port: Option<u16>,
    /// Port of the HTTP server.
    pub api_port: Option<u16>,
    /// Number of attestation subnets.
    pub attestation_committee_count: Option<u64>,
    /// Aggregate attestations.
    pub is_aggregator: bool,
    /// Log more.
    pub verbose: bool,
    /// Log without colours.
    pub no_color: bool,
    /// Take the present as the genesis time.
    pub genesis_time_now: bool,
    /// Run the node.
    pub run_node: bool,
}

/// The value of [`CliOptions`].
#[verifier::ext_equal]
pub struct CliModel {
    pub config_path: Option<Seq<char>>,
    pub genesis_time: Option<u64>,
    pub data_dir: Option<Seq<char>>,
    pub checkpoint_sync_url: Option<Seq<char>>,
    pub listen_addr: Option<Seq<char>>,
    pub bootnodes: Seq<SourceModel>,
    pub node_key_path: Option<Seq<char>>,
    pub validators_path: Option<Seq<char>>,
    pub validator_keys_path: Option<Seq<char>>,
    pub node_id: Option<Seq<char>>,
    pub metrics_port: Option<u16>,
    pub api_port: Option<u16>,
    pub attestation_committee_count: Option<u64>,
    pub is_aggregator: bool,
    pub verbose: bool,
    pub no_color: bool,
    pub genesis_time_now: bool,
    pub run_node: bool,
}

impl View for CliOptions {
    type V = CliModel;

    open spec fn view(&self) -> CliModel {
        CliModel {
            config_path: discovery::option_text(self.config_path),
            genesis_time: self.genesis_time,
            data_dir: discovery::option_text(self.data_dir),
            checkpoint_sync_url: discovery::option_text(self.checkpoint_sync_url),
            listen_addr: discovery::option_text(self.listen_addr),
            bootnodes: source_models(self.bootnodes@),
            node_key_path: discovery::option_text(self.node_key_path),
            validators_path: discovery::option_text(self.validators_path),
            validator_keys_path: discovery::option_text(self.validator_keys_path),
            node_id: discovery::option_text(self.node_id),
            metrics_port: self.metrics_port,
            api_port: self.api_port,
            attestation_committee_count: self.attestation_committee_count,
            is_aggregator: self.is_aggregator,
            verbose: self.verbose,
            no_color: self.no_color,
            genesis_time_now: self.genesis_time_now,
            run_node: self.run_node,
        }
    }
}

/// No options.
pub open spec fn no_options() -> CliModel {
    CliModel {
        config_path: None,
        genesis_time: None,
        data_dir: None,
        checkpoint_sync_url: None,
        listen_addr: None,
        bootnodes: Seq::empty(),
        node_key_path: None,
        validators_path: None,
        validator_keys_path: None,
        node_id: None,
        metrics_port: None,
        api_port: None,
        attestation_committee_count: None,
        is_aggregator: false,
        verbose: false,
        no_color: false,
        genesis_time_now: false,
        run_node: false,
    }
}

/// How reading a command line ends.
#[derive(Clone, Debug)]
pub enum CliEnd {
    /// All arguments were read.
    Done,
    /// Help was asked for.
    Help,
    /// An argument is at fault; `usage` tells whether the usage is shown too.
    Fault { message: String, usage: bool },
}

/// The value of a [`CliEnd`].
#[verifier::ext_equal]
pub enum EndModel {
    Done,
    Help,
    Fault { message: Seq<char>, usage: bool },
}

impl View for CliEnd {
    type V = EndModel;

    open spec fn view(&self) -> EndModel {
        match *self {
            CliEnd::Done => EndModel::Done,
            CliEnd::Help => EndModel::Help,
            CliEnd::Fault { message, usage } => EndModel::Fault { message: message@, usage },
        }
    }
}

/// A number of an option, or the message about it.
pub open spec fn number_option(what: Seq<char>, value: Seq<char>, max: nat) -> Result<
    nat,
    EndModel,
> {
    match numbers::unsigned_read(value, max) {
        Ok(n) => Ok(n),
        Err(f) => Err(
            EndModel::Fault {
                message: "Invalid "@ + what + " "@ + value + ": "@ + f.text(),
                usage: false,
            },
        ),
    }
}

fn read_number_option(what: &str, value: &str, max: u64) -> (r: Result<u64, CliEnd>)
    requires
        max >= 9,
    ensures
        match r {
            Ok(n) => number_option(what@, value@, max as nat) == Ok::<nat, EndModel>(n as nat) && n
                <= max,
            Err(e) => number_option(what@, value@, max as nat) == Err::<nat, EndModel>(e@),
        },
{
    let chars = text::to_chars(value);
    match numbers::read_unsigned(chars.as_slice(), max) {
        Ok(n) => Ok(n),
        Err(f) => {
            let mut s: String = "Invalid ".to_string();
            s.append(what);
            s.append(" ");
            s.append(value);
            s.append(": ");
            s.append(f.message().as_str());
            Err(CliEnd::Fault { message: s, usage: false })
        },
    }
}

/// The options that take a value.
pub open spec fn takes_value(arg: Seq<char>) -> bool {
    ||| arg == "--config"@
    ||| arg == "--genesis"@
    ||| arg == "--custom_genesis"@
    ||| arg == "--network"@
    ||| arg == "--genesis-time"@
    ||| arg == "--data-dir"@
    ||| arg == "--checkpoint-sync-url"@
    ||| arg == "--listen"@
    ||| arg == "--bootnode"@
    ||| arg == "--bootnodes"@
    ||| arg == "--node-key"@
    ||| arg == "--validators"@
    ||| arg == "--validator-registry-path"@
    ||| arg == "--validator-keys"@
    ||| arg == "--node-id"@
    ||| arg == "--metrics-port"@
    ||| arg == "--api-port"@
    ||| arg == "--http-port"@
    ||| arg == "--attestation-committee-count"@
}

fn reads_value(arg: &[char]) -> (r: bool)
    ensures
        r == takes_value(arg@),
{
    text::spells(arg, "--config") || text::spells(arg, "--genesis") || text::spells(arg, "--custom_genesis") || text::spells(arg, "--network") || text::spells(arg, "--genesis-time") || text::spells(arg, "--data-dir") || text::spells(arg, "--checkpoint-sync-url") || text::spells(arg, "--listen") || text::spells(arg, "--bootnode") || text::spells(arg, "--bootnodes") || text::spells(arg, "--node-key") || text::spells(arg, "--validators") || text::spells(arg, "--validator-registry-path") || text::spells(arg, "--validator-keys") || text::spells(arg, "--node-id") || text::spells(arg, "--metrics-port") || text::spells(arg, "--api-port") || text::spells(arg, "--http-port") || text::spells(arg, "--attestation-committee-count")
}

/// What an option with its value gives.
pub open spec fn valued(d: CliModel, arg: Seq<char>, value: Seq<char>) -> Result<CliModel, EndModel> {
    if arg == "--config"@ || arg == "--genesis"@ || arg == "--custom_genesis"@ || arg == "--network"@ {
        Ok(CliModel { config_path: Some(value), ..d })
    } else if arg == "--genesis-time"@ {
        match number_option("genesis time"@, value, u64::MAX as nat) {
            Ok(n) => Ok(CliModel { genesis_time: Some(n as u64), ..d }),
            Err(e) => Err(e),
        }
    } else if arg == "--data-dir"@ {
        Ok(CliModel { data_dir: Some(value), ..d })
    } else if arg == "--checkpoint-sync-url"@ {
        Ok(CliModel { checkpoint_sync_url: Some(value), ..d })
    } else if arg == "--listen"@ {
        Ok(CliModel { listen_addr: Some(value), ..d })
    } else if arg == "--bootnode"@ {
        Ok(CliModel { bootnodes: d.bootnodes.push(SourceModel::Address(value)), ..d })
    } else if arg == "--bootnodes"@ {
        Ok(CliModel { bootnodes: d.bootnodes.push(SourceModel::File(value)), ..d })
    } else if arg == "--node-key"@ {
        Ok(CliModel { node_key_path: Some(value), ..d })
    } else if arg == "--validators"@ || arg == "--validator-registry-path"@ {
        Ok(CliModel { validators_path: Some(value), ..d })
    } else if arg == "--validator-keys"@ {
        Ok(CliModel { validator_keys_path: Some(value), ..d })
    } else if arg == "--node-id"@ {
        Ok(CliModel { node_id: Some(value), ..d })
    } else if arg == "--metrics-port"@ {
        match number_option("metrics port"@, value, 65535) {
            Ok(n) => Ok(CliModel { metrics_port: Some(n as u16), ..d }),
            Err(e) => Err(e),
        }
    } else if arg == "--api-port"@ || arg == "--http-port"@ {
        match number_option("api port"@, value, 65535) {
            Ok(n) => Ok(CliModel { api_port: Some(n as u16), ..d }),
            Err(e) => Err(e),
        }
    } else if arg == "--attestation-committee-count"@ {
        match number_option("attestation committee count"@, value, u64::MAX as nat) {
            Ok(n) => if n == 0 {
                Err(
                    EndModel::Fault {
                        message: "Invalid attestation committee count 0: must be > 0"@,
                        usage: false,
                    },
                )
            } else {
                Ok(CliModel { attestation_committee_count: Some(n as u64), ..d })
            },
            Err(e) => Err(e),
        }
    } else {
        Ok(d)
    }
}

/// What an option without a value gives.
pub open spec fn flagged(d: CliModel, arg: Seq<char>) -> Result<CliModel, EndModel> {
    if arg == "--is-aggregator"@ || arg == "--aggregator"@ {
        Ok(CliModel { is_aggregator: true, ..d })
    } else if arg == "--genesis-time-now"@ {
        Ok(CliModel { genesis_time_now: true, ..d })
    } else if arg == "-v"@ || arg == "--verbose"@ {
        Ok(CliModel { verbose: true, ..d })
    } else if arg == "--no-color"@ {
        Ok(CliModel { no_color: true, ..d })
    } else if arg == "--run"@ {
        Ok(CliModel { run_node: true, ..d })
    } else if arg == "--help"@ || arg == "-h"@ {
        Err(EndModel::Help)
    } else {
        Err(EndModel::Fault { message: "Unknown argument: "@ + arg, usage: true })
    }
}

/// The options that the arguments from place `i` on add, and how reading ends.
pub open spec fn read_from(d: CliModel, args: Seq<Seq<char>>, i: nat) -> (CliModel, EndModel)
    decreases args.len() - i,
{
    if i >= args.len() {
        (d, EndModel::Done)
    } else if takes_value(args[i as int]) {
        if i + 1 >= args.len() || args[i as int + 1].len() == 0 {
            (d, EndModel::Fault { message: "Missing value for "@ + args[i as int], usage: true })
        } else {
            match valued(d, args[i as int], args[i as int + 1]) {
                Ok(next) => read_from(next, args, i + 2),
                Err(e) => (d, e),
            }
        }
    } else {
        match flagged(d, args[i as int]) {
            Ok(next) => read_from(next, args, i + 1),
            Err(e) => (d, e),
        }
    }
}

impl CliOptions {
    /// No options.
    pub fn new() -> (r: Self)
        ensures
            r@ == no_options(),
    {
        let r = CliOptions {
            config_path: None,
            genesis_time: None,
            data_dir: None,
            checkpoint_sync_url: None,
            listen_addr: None,
            bootnodes: Vec::new(),
            node_key_path: None,
            validators_path: None,
            validator_keys_path: None,
            node_id: None,
            metrics_port: None,
            api_port: None,
            attestation_committee_count: None,
            is_aggregator: false,
            verbose: false,
            no_color: false,
            genesis_time_now: false,
            run_node: false,
        };
        assert(r@ =~= no_options());
        r
    }

    fn put_source(&mut self, source: BootnodeSource)
        ensures
            final(self)@ == (CliModel { bootnodes: old(self)@.bootnodes.push(source@), ..old(self)@ }),
    {
        let ghost before = source_models(self.bootnodes@);
        self.bootnodes.push(source);
        assert(source_models(self.bootnodes@) =~= before.push(source@));
    }

    fn put_value(&mut self, arg: &[char], value: &String) -> (r: Result<(), CliEnd>)
        ensures
            match r {
                Ok(()) => valued(old(self)@, arg@, value@) == Ok::<CliModel, EndModel>(
                    final(self)@,
                ),
                Err(e) => valued(old(self)@, arg@, value@) == Err::<CliModel, EndModel>(e@)
                    && final(self)@ == old(self)@,
            },
    {
        if text::spells(arg, "--config") || text::spells(arg, "--genesis") || text::spells(arg, "--custom_genesis") || text::spells(arg, "--network") {
            self.config_path = Some(value.clone());
        } else if text::spells(arg, "--genesis-time") {
            match read_number_option("genesis time", value.as_str(), u64::MAX) {
                Ok(n) => {
                    self.genesis_time = Some(n);
                },
                Err(e) => {
                    return Err(e);
                },
            }
        } else if text::spells(arg, "--data-dir") {
            self.data_dir = Some(value.clone());
        } else if text::spells(arg, "--checkpoint-sync-url") {
            self.checkpoint_sync_url = Some(value.clone());
        } else if text::spells(arg, "--listen") {
            self.listen_addr = Some(value.clone());
        } else if text::spells(arg, "--bootnode") {
            self.put_source(BootnodeSource::Address(value.clone()));
        } else if text::spells(arg, "--bootnodes") {
            self.put_source(BootnodeSource::File(value.clone()));
        } else if text::spells(arg, "--node-key") {
            self.node_key_path = Some(value.clone());
        } else if text::spells(arg, "--validators") || text::spells(arg, "--validator-registry-path") {
            self.validators_path = Some(value.clone());
        } else if text::spells(arg, "--validator-keys") {
            self.validator_keys_path = Some(value.clone());
        } else if text::spells(arg, "--node-id") {
            self.node_id = Some(value.clone());
        } else if text::spells(arg, "--metrics-port") {
            match read_number_option("metrics port", value.as_str(), 65535) {
                Ok(n) => {
                    self.metrics_port = Some(n as u16);
                },
                Err(e) => {
                    return Err(e);
                },
            }
        } else if text::spells(arg, "--api-port") || text::spells(arg, "--http-port") {
            match read_number_option("api port", value.as_str(), 65535) {
                Ok(n) => {
                    self.api_port = Some(n as u16);
                },
                Err(e) => {
                    return Err(e);
                },
            }
        } else if text::spells(arg, "--attestation-committee-count") {
            match read_number_option("attestation committee count", value.as_str(), u64::MAX) {
                Ok(n) => {
                    if n == 0 {
                        return Err(
                            CliEnd::Fault {
                                message: "Invalid attestation committee count 0: must be > 0".to_string(),
                                usage: false,
                            },
                        );
                    }
                    self.attestation_committee_count = Some(n);
                },
                Err(e) => {
                    return Err(e);
                },
            }
        }
        Ok(())
    }

    fn put_flag(&mut self, arg: &[char]) -> (r: Result<(), CliEnd>)
        ensures
            match r {
                Ok(()) => flagged(old(self)@, arg@) == Ok::<CliModel, EndModel>(final(self)@),
                Err(e) => flagged(old(self)@, arg@) == Err::<CliModel, EndModel>(e@) && final(self)@
                    == old(self)@,
            },
    {
        if text::spells(arg, "--is-aggregator") || text::spells(arg, "--aggregator") {
            self.is_aggregator = true;
        } else if text::spells(arg, "--genesis-time-now") {
            self.genesis_time_now = true;
        } else if text::spells(arg, "-v") || text::spells(arg, "--verbose") {
            self.verbose = true;
        } else if text::spells(arg, "--no-color") {
            self.no_color = true;
        } else if text::spells(arg, "--run") {
            self.run_node = true;
        } else if text::spells(arg, "--help") || text::spells(arg, "-h") {
            return Err(CliEnd::Help);
        } else {
            let mut s: String = "Unknown argument: ".to_string();
            s.append(text::from_chars(arg).as_str());
            return Err(CliEnd::Fault { message: s, usage: true });
        }
        Ok(())
    }

    /// Reads a command line. The options hold what stands before the place where
    /// reading ends.
    pub fn read(args: &Vec<String>) -> (r: (CliOptions, CliEnd))
        ensures
            (r.0@, r.1@) == read_from(no_options(), peer_manager::names(args@), 0),
    {
        let ghost all = peer_manager::names(args@);
        let mut options = CliOptions::new();
        let mut i: usize = 0;
        while i < args.len()
            invariant
                i <= args@.len(),
                all == peer_manager::names(args@),
                read_from(options@, all, i as nat) == read_from(no_options(), all, 0),
            decreases args@.len() - i,
        {
            assert(all[i as int] == args@[i as int]@);
            let arg = text::to_chars(args[i].as_str());
            if reads_value(arg.as_slice()) {
                if i + 1 >= args.len() || text::to_chars(args[i + 1].as_str()).len() == 0 {
                    proof {
                        if i + 1 < args@.len() {
                            assert(all[i + 1] == args@[i + 1]@);
                        }
                    }
                    let mut s: String = "Missing value for ".to_string();
                    s.append(args[i].as_str());
                    return (options, CliEnd::Fault { message: s, usage: true });
                }
                assert(all[i + 1] == args@[i + 1]@);
                if let Err(e) = options.put_value(arg.as_slice(), &args[i + 1]) {
                    return (options, e);
                }
                i = i + 2;
            } else {
                if let Err(e) = options.put_flag(arg.as_slice()) {
                    return (options, e);
                }
                i = i + 1;
            }
        }
        (options, CliEnd::Done)
    }
}

/// What a command line asks for.
pub enum CliPlan {
    /// Run the node.
    Run(NodeConfig),
    /// Print the root of the genesis state of a configuration file.
    RootOfFile(String),
    /// Print the root of the genesis state with a genesis time.
    RootOfTime(u64),
    /// Nothing that can be done.
    Refused(CliEnd),
}

/// There are options that only a running node follows, or bootnodes.
pub open spec fn has_overrides(d: CliModel, bootnodes: Seq<Seq<char>>) -> bool {
    ||| d.checkpoint_sync_url is Some
    ||| d.listen_addr is Some
    ||| bootnodes.len() > 0
    ||| d.node_key_path is Some
    ||| d.validators_path is Some
    ||| d.validator_keys_path is Some
    ||| d.node_id is Some
    ||| d.metrics_port is Some
    ||| d.api_port is Some
    ||| d.attestation_committee_count is Some
    ||| d.is_aggregator
    ||| d.genesis_time_now
}

/// The configuration of the node to run, with the bootnodes that the sources gave and
/// with the present where it shall be the genesis time.
pub open spec fn run_config(
    d: CliModel,
    bootnodes: Seq<Seq<char>>,
    now: Option<u64>,
) -> node::NodeConfigModel {
    node::NodeConfigModel {
        config_path: d.config_path->Some_0,
        data_dir: d.data_dir->Some_0,
        checkpoint_sync_url: d.checkpoint_sync_url,
        listen_addr: d.listen_addr,
        bootnodes: if bootnodes.len() == 0 {
            None
        } else {
            Some(bootnodes)
        },
        metrics_port: d.metrics_port,
        api_port: d.api_port,
        node_key_path: d.node_key_path,
        validators_path: d.validators_path,
        is_aggregator: if d.is_aggregator {
            Some(true)
        } else {
            None
        },
        attestation_committee_count: d.attestation_committee_count,
        validator_keys_path: d.validator_keys_path,
        node_id: d.node_id,
        genesis_time_override: now,
    }
}

/// The value of a [`CliPlan`].
#[verifier::ext_equal]
pub enum PlanModel {
    Run(node::NodeConfigModel),
    RootOfFile(Seq<char>),
    RootOfTime(u64),
    Refused(EndModel),
}

impl View for CliPlan {
    type V = PlanModel;

    open spec fn view(&self) -> PlanModel {
        match *self {
            CliPlan::Run(c) => PlanModel::Run(c@),
            CliPlan::RootOfFile(p) => PlanModel::RootOfFile(p@),
            CliPlan::RootOfTime(t) => PlanModel::RootOfTime(t),
            CliPlan::Refused(e) => PlanModel::Refused(e@),
        }
    }
}

/// What options ask for.
pub open spec fn planned(d: CliModel, bootnodes: Seq<Seq<char>>, now: Option<u64>) -> PlanModel {
    if d.run_node {
        if d.config_path is None {
            PlanModel::Refused(
                EndModel::Fault {
                    message: "Missing --config/--genesis for --run"@,
                    usage: true,
                },
            )
        } else if d.data_dir is None {
            PlanModel::Refused(
                EndModel::Fault { message: "Missing --data-dir for --run"@, usage: true },
            )
        } else {
            PlanModel::Run(run_config(d, bootnodes, now))
        }
    } else if has_overrides(d, bootnodes) {
        PlanModel::Refused(
            EndModel::Fault { message: "runtime override flags require --run"@, usage: true },
        )
    } else {
        match (d.config_path, d.genesis_time) {
            (Some(p), _) => PlanModel::RootOfFile(p),
            (None, Some(t)) => PlanModel::RootOfTime(t),
            (None, None) => PlanModel::Refused(EndModel::Help),
        }
    }
}

fn refused(message: &str) -> (r: CliPlan)
    ensures
        r@ == PlanModel::Refused(EndModel::Fault { message: message@, usage: true }),
{
    CliPlan::Refused(CliEnd::Fault { message: message.to_string(), usage: true })
}

/// The text with capital ASCII letters made small.
pub open spec fn ascii_lowered(s: Seq<char>) -> Seq<char> {
    s.map_values(
        |c: char|
            if 'A' <= c <= 'Z' {
                (c as u32 + 32) as char
            } else {
                c
            },
    )
}

/// Tells by its file name whether a configuration file is a chain configuration, whose
/// genesis state can be built where it cannot be loaded as a plain configuration. The
/// case of ASCII letters does not matter.
pub fn is_chain_config(file_name: Option<&str>) -> (r: bool)
    ensures
        r == (match file_name {
            Some(name) => ascii_lowered(name@) == "config.yaml"@,
            None => false,
        }),
{
    let name = match file_name {
        Some(name) => text::to_chars(name),
        None => {
            return false;
        },
    };
    let mut lowered: Vec<char> = Vec::new();
    let mut i: usize = 0;
    while i < name.len()
        invariant
            i <= name@.len(),
            lowered@ == ascii_lowered(name@).take(i as int),
        decreases name@.len() - i,
    {
        let c: char = name[i];
        if 'A' <= c && c <= 'Z' {
            lowered.push((c as u8 + 32) as char);
        } else {
            lowered.push(c);
        }
        assert(lowered@ =~= ascii_lowered(name@).take(i + 1));
        i = i + 1;
    }
    assert(ascii_lowered(name@).take(i as int) =~= ascii_lowered(name@));
    text::spells(lowered.as_slice(), "config.yaml")
}

impl CliOptions {
    /// Decides what to do, given the bootnodes that the sources gave and the present
    /// where it shall be the genesis time.
    pub fn plan(self, bootnodes: Vec<String>, now: Option<u64>) -> (r: CliPlan)
        ensures
            r@ == planned(self@, peer_manager::names(bootnodes@), now),
    {
        if self.run_node {
            let config_path = match self.config_path {
                Some(p) => p,
                None => {
                    return refused("Missing --config/--genesis for --run");
                },
            };
            let data_dir = match self.data_dir {
                Some(p) => p,
                None => {
                    return refused("Missing --data-dir for --run");
                },
            };
            return CliPlan::Run(
                NodeConfig {
                    config_path,
                    data_dir,
                    checkpoint_sync_url: self.checkpoint_sync_url,
                    listen_addr: self.listen_addr,
                    bootnodes: if bootnodes.len() == 0 {
                        None
                    } else {
                        Some(bootnodes)
                    },
                    metrics_port: self.metrics_port,
                    api_port: self.api_port,
                    node_key_path: self.node_key_path,
                    validators_path: self.validators_path,
                    is_aggregator: if self.is_aggregator {
                        Some(true)
                    } else {
                        None
                    },
                    attestation_committee_count: self.attestation_committee_count,
                    validator_keys_path: self.validator_keys_path,
                    node_id: self.node_id,
                    genesis_time_override: now,
                },
            );
        }
        if self.checkpoint_sync_url.is_some() || self.listen_addr.is_some() || bootnodes.len()
            > 0 || self.node_key_path.is_some() || self.validators_path.is_some()
            || self.validator_keys_path.is_some() || self.node_id.is_some()
            || self.metrics_port.is_some() || self.api_port.is_some()
            || self.attestation_committee_count.is_some() || self.is_aggregator
            || self.genesis_time_now {
            return refused("runtime override flags require --run");
        }
        match self.config_path {
            Some(p) => CliPlan::RootOfFile(p),
            None => match self.genesis_time {
                Some(t) => CliPlan::RootOfTime(t),
                None => CliPlan::Refused(CliEnd::Help),
            },
        }
    }
}

} // verus!
