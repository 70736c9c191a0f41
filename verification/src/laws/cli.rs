//! What the command line asks for.

use crate::cli;
use crate::cli::{CliModel, EndModel, PlanModel, SourceModel};
use crate::numbers;
use vstd::prelude::*;

verus! {

/// What the options ask for. A node runs only with `--run`, and needs a configuration and a
/// data directory. Without `--run` options of a running node are refused; a configuration gives
/// the root of its genesis, else a genesis time does, and without both the usage is shown.
pub proof fn law_plans(d: CliModel, bootnodes: Seq<Seq<char>>, now: Option<u64>)
    ensures
        ({
            let p = cli::planned(d, bootnodes, now);
            let overrides = {
                ||| d.checkpoint_sync_url is Some
                ||| d.listen_addr is Some
                ||| bootnodes.len() > 0
                ||| d.node_key_path is Some
                ||| d.validators_path is Some
                ||| d.validator_keys_path is Some
                ||| d.node_id is Some
                ||| d.metrics_port is Some
                ||| d.api_port is Some
                ||| d.attestation_committee_count is Some
                ||| d.is_aggregator
                ||| d.genesis_time_now
            };
            &&& p is Run <==> d.run_node && d.config_path is Some && d.data_dir is Some
            &&& d.run_node && !(p is Run) ==> p is Refused
            &&& !d.run_node && overrides ==> p is Refused
            &&& !d.run_node && !overrides ==> {
                &&& d.config_path matches Some(c) ==> p == PlanModel::RootOfFile(c)
                &&& d.config_path is None ==> (d.genesis_time matches Some(t) ==> p
                    == PlanModel::RootOfTime(t))
                &&& d.config_path is None && d.genesis_time is None ==> p == PlanModel::Refused(
                    EndModel::Help,
                )
            }
        }),
{
}

/// The node runs with the options that were given. Bootnodes that none of the sources gave, and
/// a role that was not given, are left to the configuration.
pub proof fn law_run_follows_options(d: CliModel, bootnodes: Seq<Seq<char>>, now: Option<u64>)
    requires
        d.config_path is Some,
        d.data_dir is Some,
    ensures
        ({
            let c = cli::run_config(d, bootnodes, now);
            &&& Some(c.config_path) == d.config_path
            &&& Some(c.data_dir) == d.data_dir
            &&& c.checkpoint_sync_url == d.checkpoint_sync_url
            &&& c.listen_addr == d.listen_addr
            &&& bootnodes.len() > 0 ==> c.bootnodes == Some(bootnodes)
            &&& bootnodes.len() == 0 ==> c.bootnodes is None
            &&& c.metrics_port == d.metrics_port
            &&& c.api_port == d.api_port
            &&& c.node_key_path == d.node_key_path
            &&& c.validators_path == d.validators_path
            &&& c.validator_keys_path == d.validator_keys_path
            &&& d.is_aggregator ==> c.is_aggregator == Some(true)
            &&& !d.is_aggregator ==> c.is_aggregator is None
            &&& c.attestation_committee_count == d.attestation_committee_count
            &&& c.node_id == d.node_id
            &&& c.genesis_time_override == now
        }),
{
}

/// Arguments are read from left to right. An option with a value takes the next argument, which
/// must be there and not be empty; the first fault ends the reading.
pub proof fn law_arguments_are_read_in_order(d: CliModel, args: Seq<Seq<char>>, i: nat)
    ensures
        i >= args.len() ==> cli::read_from(d, args, i) == (d, EndModel::Done),
        i < args.len() && cli::takes_value(args[i as int]) ==> {
            &&& i + 1 >= args.len() || args[i as int + 1].len() == 0 ==> cli::read_from(d, args, i).1
                is Fault
            &&& i + 1 < args.len() && args[i as int + 1].len() > 0 ==> {
                &&& cli::valued(d, args[i as int], args[i as int + 1]) matches Ok(next)
                    ==> cli::read_from(d, args, i) == cli::read_from(next, args, i + 2)
                &&& cli::valued(d, args[i as int], args[i as int + 1]) matches Err(e)
                    ==> cli::read_from(d, args, i) == (d, e)
            }
        },
        i < args.len() && !cli::takes_value(args[i as int]) ==> {
            &&& cli::flagged(d, args[i as int]) matches Ok(next) ==> cli::read_from(d, args, i)
                == cli::read_from(next, args, i + 1)
            &&& cli::flagged(d, args[i as int]) matches Err(e) ==> cli::read_from(d, args, i) == (
                d,
                e,
            )
        },
{
}

proof fn lemma_names()
    ensures
        "--config"@.len() == 8,
        "--genesis"@.len() == 9 && "--genesis"@[2] == 'g',
        "--custom_genesis"@.len() == 16 && "--custom_genesis"@[2] == 'c',
        "--network"@.len() == 9 && "--network"@[2] == 'n' && "--network"@[4] == 't',
        "--genesis-time"@.len() == 14 && "--genesis-time"@[2] == 'g',
        "--data-dir"@.len() == 10 && "--data-dir"@[2] == 'd',
        "--checkpoint-sync-url"@.len() == 21,
        "--listen"@.len() == 8 && "--listen"@[2] == 'l',
        "--config"@[2] == 'c',
        "--bootnode"@.len() == 10 && "--bootnode"@[2] == 'b',
        "--bootnodes"@.len() == 11,
        "--node-key"@.len() == 10 && "--node-key"@[2] == 'n',
        "--validators"@.len() == 12,
        "--validator-registry-path"@.len() == 25,
        "--validator-keys"@.len() == 16 && "--validator-keys"@[2] == 'v',
        "--node-id"@.len() == 9 && "--node-id"@[2] == 'n' && "--node-id"@[4] == 'd',
        "--metrics-port"@.len() == 14 && "--metrics-port"@[2] == 'm',
        "--api-port"@.len() == 10 && "--api-port"@[2] == 'a',
        "--http-port"@.len() == 11 && "--http-port"@[2] == 'h',
        "--bootnodes"@[2] == 'b',
        "--attestation-committee-count"@.len() == 29,
{
    reveal_strlit("--config");
    reveal_strlit("--genesis");
    reveal_strlit("--custom_genesis");
    reveal_strlit("--network");
    reveal_strlit("--genesis-time");
    reveal_strlit("--data-dir");
    reveal_strlit("--checkpoint-sync-url");
    reveal_strlit("--listen");
    reveal_strlit("--bootnode");
    reveal_strlit("--bootnodes");
    reveal_strlit("--node-key");
    reveal_strlit("--validators");
    reveal_strlit("--validator-registry-path");
    reveal_strlit("--validator-keys");
    reveal_strlit("--node-id");
    reveal_strlit("--metrics-port");
    reveal_strlit("--api-port");
    reveal_strlit("--http-port");
    reveal_strlit("--attestation-committee-count");
}

/// What the options with a text do: each sets the one thing that it names.
pub proof fn law_text_options(d: CliModel, value: Seq<char>)
    ensures
        cli::valued(d, "--config"@, value) == Ok::<CliModel, EndModel>(
            CliModel { config_path: Some(value), ..d },
        ),
        cli::valued(d, "--genesis"@, value) == Ok::<CliModel, EndModel>(
            CliModel { config_path: Some(value), ..d },
        ),
        cli::valued(d, "--data-dir"@, value) == Ok::<CliModel, EndModel>(
            CliModel { data_dir: Some(value), ..d },
        ),
        cli::valued(d, "--checkpoint-sync-url"@, value) == Ok::<CliModel, EndModel>(
            CliModel { checkpoint_sync_url: Some(value), ..d },
        ),
        cli::valued(d, "--listen"@, value) == Ok::<CliModel, EndModel>(
            CliModel { listen_addr: Some(value), ..d },
        ),
        cli::valued(d, "--bootnode"@, value) == Ok::<CliModel, EndModel>(
            CliModel { bootnodes: d.bootnodes.push(SourceModel::Address(value)), ..d },
        ),
        cli::valued(d, "--bootnodes"@, value) == Ok::<CliModel, EndModel>(
            CliModel { bootnodes: d.bootnodes.push(SourceModel::File(value)), ..d },
        ),
        cli::valued(d, "--node-key"@, value) == Ok::<CliModel, EndModel>(
            CliModel { node_key_path: Some(value), ..d },
        ),
        cli::valued(d, "--validators"@, value) == Ok::<CliModel, EndModel>(
            CliModel { validators_path: Some(value), ..d },
        ),
        cli::valued(d, "--validator-registry-path"@, value) == Ok::<CliModel, EndModel>(
            CliModel { validators_path: Some(value), ..d },
        ),
        cli::valued(d, "--validator-keys"@, value) == Ok::<CliModel, EndModel>(
            CliModel { validator_keys_path: Some(value), ..d },
        ),
        cli::valued(d, "--node-id"@, value) == Ok::<CliModel, EndModel>(
            CliModel { node_id: Some(value), ..d },
        ),
{
    lemma_names();
}

/// What the options with a number do: each sets the one thing that it names, where the number can
/// be read and fits; a committee count of 0 is refused.
pub proof fn law_number_options(d: CliModel, value: Seq<char>)
    ensures
        numbers::unsigned_read(value, 65_535) matches Ok(n) ==> {
            &&& cli::valued(d, "--metrics-port"@, value) == Ok::<CliModel, EndModel>(
                CliModel { metrics_port: Some(n as u16), ..d },
            )
            &&& cli::valued(d, "--api-port"@, value) == Ok::<CliModel, EndModel>(
                CliModel { api_port: Some(n as u16), ..d },
            )
            &&& cli::valued(d, "--http-port"@, value) == Ok::<CliModel, EndModel>(
                CliModel { api_port: Some(n as u16), ..d },
            )
        },
        numbers::unsigned_read(value, 65_535) is Err ==> {
            &&& cli::valued(d, "--metrics-port"@, value) is Err
            &&& cli::valued(d, "--api-port"@, value) is Err
        },
        numbers::unsigned_read(value, u64::MAX as nat) matches Ok(n) ==> {
            &&& cli::valued(d, "--genesis-time"@, value) == Ok::<CliModel, EndModel>(
                CliModel { genesis_time: Some(n as u64), ..d },
            )
            &&& n > 0 ==> cli::valued(d, "--attestation-committee-count"@, value) == Ok::<
                CliModel,
                EndModel,
            >(CliModel { attestation_committee_count: Some(n as u64), ..d })
            &&& n == 0 ==> cli::valued(d, "--attestation-committee-count"@, value) is Err
        },
{
    lemma_names();
}

/// What the options without a value do: each sets the one thing that it names. A call for help
/// ends the reading, and so does an argument that is no option.
pub proof fn law_flags(d: CliModel, arg: Seq<char>)
    ensures
        arg == "--is-aggregator"@ || arg == "--aggregator"@ ==> cli::flagged(d, arg) == Ok::<
            CliModel,
            EndModel,
        >((CliModel { is_aggregator: true, ..d })),
        arg == "--genesis-time-now"@ ==> cli::flagged(d, arg) == Ok::<CliModel, EndModel>(
            (CliModel { genesis_time_now: true, ..d }),
        ),
        arg == "-v"@ || arg == "--verbose"@ ==> cli::flagged(d, arg) == Ok::<CliModel, EndModel>(
            (CliModel { verbose: true, ..d }),
        ),
        arg == "--no-color"@ ==> cli::flagged(d, arg) == Ok::<CliModel, EndModel>(
            (CliModel { no_color: true, ..d }),
        ),
        arg == "--run"@ ==> cli::flagged(d, arg) == Ok::<CliModel, EndModel>(
            (CliModel { run_node: true, ..d }),
        ),
        arg == "--help"@ || arg == "-h"@ ==> cli::flagged(d, arg) == Err::<CliModel, EndModel>(
            EndModel::Help,
        ),
        cli::flagged(d, arg) is Ok ==> arg == "--is-aggregator"@ || arg == "--aggregator"@ || arg
            == "--genesis-time-now"@ || arg == "-v"@ || arg == "--verbose"@ || arg == "--no-color"@
            || arg == "--run"@,
{
    reveal_strlit("--is-aggregator");
    reveal_strlit("--aggregator");
    reveal_strlit("--genesis-time-now");
    reveal_strlit("-v");
    reveal_strlit("--verbose");
    reveal_strlit("--no-color");
    reveal_strlit("--run");
    reveal_strlit("--help");
    reveal_strlit("-h");
    assert("-v"@[1] == 'v' && "-h"@[1] == 'h');
    assert("--verbose"@.len() == 9 && "--help"@.len() == 6 && "--run"@.len() == 5);
    assert("--no-color"@.len() == 10 && "--aggregator"@.len() == 12);
    assert("--is-aggregator"@.len() == 15 && "--genesis-time-now"@.len() == 18);
}

} // verus!
