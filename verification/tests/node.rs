use peam::app::bootnodes::{decode_quic_port, read_record, write_peer_address};
use peam::app::entries::{canonicalize_topic, read_genesis_time};
use peam::app::genesis::build_genesis_from_document;
use peam::app::identity::{configured_role, derive_client_name};
use peam::app::settings::{default_node_settings, read_settings_text};
use peam::app::yaml::EnrRecord;
use peam::app::{
    build_genesis, build_genesis_from_config_yaml, build_genesis_from_config_yaml_with_override,
    load_bootnodes_from_enr_file, load_config, load_node_settings,
    resolve_local_validator_index_for_node_name, resolve_metrics_identity,
    resolve_validator_startup_overrides, FileText, ValidatorConfigEntry,
};
use peam::cli::{is_chain_config, BootnodeSource, CliEnd, CliOptions, CliPlan};
use peam::containers::attestation::{Attestation, AttestationData, SignedAttestation};
use peam::containers::block::{
    Block, BlockBody, BlockSignatures, BlockWithAttestation, SignedBlockWithAttestation,
};
use peam::containers::checkpoint::Checkpoint;
use peam::containers::config::Config;
use peam::containers::state::State;
use peam::containers::validator::ValidatorIndex;
use peam::fork_choice::ForkChoiceStore;
use peam::inspect::{parse_bytes32, parse_slot};
use peam::networking::validate::GossipValidatorKind;
use peam::node::{
    aggregate_attestations, handle_gossip_event, interval_millis, merge_aggregation_bits,
    on_interval, participant_count, proposal_head_from_pending,
};
use peam::numbers::{read_i64, read_unsigned, NumberFault};
use peam::registry::{check_node_map, is_aggregator_node, parse_node_map, sorted_indexes};
use peam::registry_files::{
    annotated, assignment, chain_config, file_text, key_file_name, manifest, node_config,
    synthetic_node_privkey_hex, validator_material,
};
use peam::slot::Slot;
use peam::storage::BlockTable;
use peam::types::bitlist::BitList;
use peam::types::bytes::{Bytes3112, Bytes32};
use peam::types::collections::SszList;
use peam::types::uint::Uint64;

const BLOCKS: &str = "/leanconsensus/devnet3/blocks/ssz_snappy";
const VOTES: &str = "/leanconsensus/devnet3/attestation_0/ssz_snappy";

fn chars(s: &str) -> Vec<char> {
    s.chars().collect()
}

fn slot(n: u64) -> Slot {
    Slot(Uint64(n))
}

fn data(n: u64, root: Bytes32) -> AttestationData {
    let c = Checkpoint { root, slot: slot(n) };
    AttestationData { slot: slot(n), head: c, target: c, source: c }
}

fn attestation(bits: Vec<bool>, n: u64, root: Bytes32) -> Attestation {
    Attestation { aggregation_bits: BitList::new(bits).unwrap(), data: data(n, root) }
}

fn genesis() -> State {
    build_genesis(Config { genesis_time: Uint64(1_000) }).unwrap()
}

fn block_on(state: &State, n: u64) -> SignedBlockWithAttestation {
    let mut ready = state.clone();
    ready.process_slots(slot(n)).unwrap();
    let parent_root = Bytes32(ready.latest_block_header.hash_tree_root());
    let proposer = n % 5;
    let mut block = Block {
        slot: slot(n),
        proposer_index: ValidatorIndex(Uint64(proposer)),
        parent_root,
        state_root: Bytes32::zero(),
        body: BlockBody { attestations: SszList::empty() },
    };
    ready.process_block(&block).unwrap();
    block.state_root = Bytes32(ready.hash_tree_root());
    let mut bits = vec![false; proposer as usize + 1];
    bits[proposer as usize] = true;
    SignedBlockWithAttestation {
        message: BlockWithAttestation {
            block,
            proposer_attestation: attestation(bits, n, parent_root),
        },
        signature: BlockSignatures {
            attestation_signatures: SszList::empty(),
            proposer_signature: Bytes3112::zero(),
        },
    }
}

fn root(signed: &SignedBlockWithAttestation) -> Bytes32 {
    Bytes32(signed.message.block.hash_tree_root())
}

#[test]
fn merging_keeps_all_voters() {
    let mut a: BitList<4096> = BitList::new(vec![true, false]).unwrap();
    let b: BitList<4096> = BitList::new(vec![false, false, true]).unwrap();
    merge_aggregation_bits(&mut a, &b);
    assert_eq!(a.bits, vec![true, false, true]);
    assert_eq!(participant_count(&a), 2);
}

#[test]
fn attestations_are_aggregated_by_data() {
    let one = Bytes32([1; 32]);
    let two = Bytes32([2; 32]);
    let out = aggregate_attestations(vec![
        attestation(vec![true], 3, one),
        attestation(vec![true, true], 3, two),
        attestation(vec![false, true, true], 3, one),
    ]);
    assert_eq!(out.len(), 2);
    assert_eq!(out[0].aggregation_bits.bits, vec![true, true, true]);
    assert_eq!(out[0].data.head.root, one);
    assert_eq!(out[1].aggregation_bits.bits, vec![true, true]);
}

#[test]
fn gossip_fills_the_node() {
    let mut state = genesis();
    let mut table = BlockTable::new();
    let mut fork_choice: Option<ForkChoiceStore> = None;
    let mut pending: Vec<Attestation> = vec![];
    let first = block_on(&state, 1);
    handle_gossip_event(
        BLOCKS,
        &first.encode_ssz(),
        &mut state,
        &mut table,
        &mut fork_choice,
        &mut pending,
        vec![Err("bad".to_string())],
    );
    assert!(fork_choice.is_none());
    assert_eq!(table.len(), 0);
    handle_gossip_event(
        BLOCKS,
        &first.encode_ssz(),
        &mut state,
        &mut table,
        &mut fork_choice,
        &mut pending,
        vec![Ok(())],
    );
    assert_eq!(fork_choice.as_ref().unwrap().head(), root(&first));
    assert_eq!(table.head(), Some(root(&first)));
    let second = block_on(&state, 2);
    handle_gossip_event(
        BLOCKS,
        &second.encode_ssz(),
        &mut state,
        &mut table,
        &mut fork_choice,
        &mut pending,
        vec![Ok(())],
    );
    assert_eq!(fork_choice.as_ref().unwrap().head(), root(&second));
    for index in [3u64, 4_096] {
        let vote = SignedAttestation {
            validator_id: Uint64(index),
            message: data(1, root(&first)),
            signature: Bytes3112::zero(),
        };
        handle_gossip_event(
            VOTES,
            &vote.encode_ssz(),
            &mut state,
            &mut table,
            &mut fork_choice,
            &mut pending,
            vec![],
        );
    }
    assert_eq!(pending.len(), 1);
    assert_eq!(pending[0].aggregation_bits.bits, vec![false, false, false, true]);
    handle_gossip_event(
        "junk",
        &[1],
        &mut state,
        &mut table,
        &mut fork_choice,
        &mut pending,
        vec![],
    );
    assert_eq!(pending.len(), 1);
    on_interval(0, &mut fork_choice, &mut pending);
    assert!(pending.is_empty());
    assert_eq!(fork_choice.as_ref().unwrap().gossip_signatures_count(), 1);
    assert_eq!(fork_choice.as_ref().unwrap().latest_votes_count(), 1);
    on_interval(2, &mut fork_choice, &mut pending);
    on_interval(3, &mut fork_choice, &mut pending);
    assert_eq!(fork_choice.as_ref().unwrap().latest_votes_count(), 2);
    assert_eq!(interval_millis(), 1_000);
    let head = proposal_head_from_pending(&mut fork_choice, &mut pending);
    assert_eq!(head, Some(root(&second)));
}

#[test]
fn without_blocks_there_is_no_proposal_head() {
    let mut fork_choice = None;
    let mut pending = vec![attestation(vec![true], 1, Bytes32([1; 32]))];
    assert_eq!(proposal_head_from_pending(&mut fork_choice, &mut pending), None);
    assert!(pending.is_empty());
    on_interval(3, &mut fork_choice, &mut pending);
    assert!(fork_choice.is_none());
}

#[test]
fn numbers_name_their_faults() {
    assert_eq!(read_unsigned(&chars("42"), 100), Ok(42));
    assert_eq!(read_unsigned(&chars("+42"), 100), Ok(42));
    assert_eq!(read_unsigned(&chars("101"), 100), Err(NumberFault::TooLarge));
    assert_eq!(read_unsigned(&chars(""), 100), Err(NumberFault::Empty));
    assert_eq!(read_unsigned(&chars("-"), 100), Err(NumberFault::InvalidDigit));
    assert_eq!(read_i64(&chars("-9223372036854775808")), Ok(i64::MIN));
    assert_eq!(read_i64(&chars("-9223372036854775809")), Err(NumberFault::TooSmall));
    assert_eq!(read_i64(&chars("9223372036854775807")), Ok(i64::MAX));
    for (s, max) in [("12x", 1_000), ("", 1_000), ("99999", 1_000)] {
        let std_text = s.parse::<u8>().unwrap_err().to_string();
        assert_eq!(read_unsigned(&chars(s), max).unwrap_err().message(), std_text);
    }
}

#[test]
fn default_settings() {
    let s = default_node_settings();
    assert!(!s.metrics);
    assert_eq!(s.metrics_address, "127.0.0.1");
    assert_eq!(s.metrics_port, 8080);
    assert!(s.http_api);
    assert_eq!(s.http_address, "127.0.0.1");
    assert_eq!(s.http_port, 8080);
    assert_eq!(s.discovery_interval_secs, 5);
    assert_eq!(s.score_decay_interval_secs, 30);
    assert_eq!(s.score_decay_amount, 1);
    assert_eq!(s.ban_threshold, -100);
    assert_eq!(s.listen_addr, "/ip4/0.0.0.0/udp/9000/quic-v1");
    assert_eq!(s.node_key_path, None);
    assert_eq!(s.allowed_topics[0], BLOCKS);
    assert_eq!(s.topic_scores[0], (BLOCKS.to_string(), 2));
    assert_eq!(s.topic_validators[1].1, GossipValidatorKind::Attestation);
    assert_eq!(s.max_gossip_bytes, 2_000_000);
    assert_eq!(s.max_reqresp_bytes, 4_000_000);
    assert!(!s.is_aggregator);
    assert_eq!(s.attestation_committee_count, 1);
    assert_eq!(s.validator_count, 5);
    assert_eq!(s.local_validator_index, 0);
    assert_eq!(s.storage_dir, None);
    assert_eq!(s.checkpoint_sync_url, None);
    assert_eq!(s.metrics_bind(), "127.0.0.1:8080");
    assert_eq!(s.networking_config().allowed_topics.len(), 3);
}

#[test]
fn settings_are_read_from_entries() {
    let text = "# node\n\ngenesis_time = 77\nmetrics=on\nmetrics_port = 9\r\nban_threshold=-5\n\
        bootnodes = a, ,b\nallowed_topics = x , /y\ntopic_scores = x:3,bad,y:-1\n\
        topic_validators = x=block, y = exit ,z=other\nunknown = 1\nbootnodes_file = nodes.yaml\n";
    let loaded = load_node_settings(text.as_bytes()).unwrap();
    assert_eq!(loaded.config.genesis_time, Uint64(77));
    assert_eq!(loaded.bootnodes_file, Some("nodes.yaml".to_string()));
    let (_, s) = loaded.complete(vec!["c".to_string()], &None);
    assert!(s.metrics);
    assert_eq!(s.metrics_port, 9);
    assert_eq!(s.http_port, 8_080);
    assert_eq!(s.http_address, "127.0.0.1");
    assert_eq!(s.ban_threshold, -5);
    assert_eq!(s.bootnodes, vec!["a".to_string(), "b".to_string(), "c".to_string()]);
    assert_eq!(s.allowed_topics, vec!["/x".to_string(), "/y".to_string()]);
    assert_eq!(s.topic_scores, vec![("/x".to_string(), 3), ("/y".to_string(), -1)]);
    assert_eq!(
        s.topic_validators,
        vec![
            ("/x".to_string(), GossipValidatorKind::Block),
            ("/y".to_string(), GossipValidatorKind::VoluntaryExit),
            ("/z".to_string(), GossipValidatorKind::Unchecked),
        ]
    );
    assert_eq!(load_config(text.as_bytes()).unwrap().genesis_time, Uint64(77));
    assert_eq!(canonicalize_topic(&chars(" a ")), "/a");
}

#[test]
fn faulty_entries_are_named() {
    let fault = |s: &str| load_node_settings(s.as_bytes()).unwrap_err();
    assert_eq!(fault("metrics = on\n"), "Config missing genesis_time");
    assert_eq!(fault("nonsense words\n"), "Invalid config line: nonsense words");
    assert_eq!(
        fault("genesis_time = x\n"),
        "Invalid genesis_time x: invalid digit found in string"
    );
    assert_eq!(fault("metrics = maybe\n"), "Invalid metrics maybe: expected true/false");
    assert_eq!(
        fault("metrics_port = 65536\n"),
        "Invalid metrics_port 65536: number too large to fit in target type"
    );
    assert_eq!(fault("validator_count = 0\n"), "Invalid validator_count 0: must be > 0");
    assert_eq!(
        fault("attestation_committee_count = 0\n"),
        "Invalid attestation_committee_count 0: must be > 0"
    );
    assert!(load_config(&[0xff, 0xfe])
        .unwrap_err()
        .starts_with("Config is not valid UTF-8: invalid utf-8 sequence"));
    assert_eq!(read_genesis_time(&chars("metrics = maybe\n")), Ok(None));
}

#[test]
fn settings_are_read_from_other_forms() {
    let encoded = Config { genesis_time: Uint64(9) }.encode_ssz();
    let loaded = load_node_settings(&encoded).unwrap();
    assert_eq!(loaded.config.genesis_time, Uint64(9));
    assert!(!loaded.from_entries);
    let yaml = load_node_settings(b"GENESIS_TIME: 5\nNUM: 3\n").unwrap();
    assert_eq!(yaml.config.genesis_time, Uint64(5));
    assert!(!yaml.from_entries);
    assert_eq!(
        read_settings_text("x", Some(6)).unwrap().config.genesis_time,
        Uint64(6)
    );
    assert!(load_config(b"GENESIS_TIME: 5\n").is_err());
}

fn entry(name: &str, plain: Option<bool>, record: Option<bool>) -> ValidatorConfigEntry {
    ValidatorConfigEntry {
        name: name.to_string(),
        is_aggregator: plain,
        enr_is_aggregator: record,
    }
}

#[test]
fn roles_come_from_the_validator_configuration() {
    let entries = Some(vec![
        entry("a", Some(true), Some(false)),
        entry("b", Some(true), None),
        entry("c", None, None),
    ]);
    assert_eq!(configured_role(&entries, 0), Some(false));
    assert_eq!(configured_role(&entries, 1), Some(true));
    assert_eq!(configured_role(&entries, 2), None);
    assert_eq!(configured_role(&entries, 3), None);
    let loaded = load_node_settings(b"genesis_time = 1\nlocal_validator_index = 1\n").unwrap();
    let (_, s) = loaded.complete(vec![], &entries);
    assert!(s.is_aggregator);
}

fn file(text: Option<&str>) -> FileText {
    FileText { path: "validators.yaml".to_string(), text: text.map(|t| t.to_string()) }
}

#[test]
fn nodes_find_their_validators() {
    let lists = file(Some("peam_0:\n- 2\n- 3\nother-1:\n- 0\n"));
    let config = Ok(Some(vec![entry("x", None, None), entry("y_1", None, None)]));
    assert_eq!(
        resolve_local_validator_index_for_node_name(&lists, &config, "peam_0"),
        Ok(Some(2))
    );
    assert_eq!(
        resolve_local_validator_index_for_node_name(&lists, &config, "y_1"),
        Ok(Some(1))
    );
    assert_eq!(
        resolve_local_validator_index_for_node_name(&file(None), &config, "z"),
        Ok(None)
    );
    let broken = Err("broken".to_string());
    assert_eq!(
        resolve_local_validator_index_for_node_name(&lists, &broken, "peam_0"),
        Ok(Some(2))
    );
    assert_eq!(
        resolve_local_validator_index_for_node_name(&lists, &broken, "z"),
        Err("broken".to_string())
    );
    let bad = resolve_local_validator_index_for_node_name(&file(Some("- 1\n")), &config, "z");
    assert!(bad.unwrap_err().starts_with("Failed to parse validators.yaml: "));
    assert_eq!(
        resolve_validator_startup_overrides(&file(None), &lists, &config, &Some("peam_0".to_string())),
        Ok(Some(2))
    );
    assert_eq!(
        resolve_validator_startup_overrides(&lists, &lists, &config, &None),
        Ok(None)
    );
}

#[test]
fn metrics_have_names() {
    let lists = file(Some("peam_0:\n- 2\n"));
    let config = Ok(Some(vec![entry("zeam-1", None, None)]));
    let mut s = default_node_settings();
    s.local_validator_index = 2;
    assert_eq!(
        resolve_metrics_identity(&s, &lists, &config),
        Ok(("peam_0".to_string(), "peam".to_string()))
    );
    s.local_validator_index = 0;
    assert_eq!(
        resolve_metrics_identity(&s, &lists, &config),
        Ok(("zeam-1".to_string(), "zeam".to_string()))
    );
    s.local_validator_index = 9;
    assert_eq!(
        resolve_metrics_identity(&s, &lists, &config),
        Ok(("peam".to_string(), "peam".to_string()))
    );
    s.metrics_node_name = Some(" me ".to_string());
    s.metrics_client_name = Some("c".to_string());
    assert_eq!(
        resolve_metrics_identity(&s, &lists, &Err("x".to_string())),
        Ok(("me".to_string(), "c".to_string()))
    );
    assert_eq!(derive_client_name("_x"), "_x");
    assert_eq!(derive_client_name("plain"), "plain");
}

const ENR: &str = "enr:-IS4QHCYrYZbAKWCBRlAy5zzaDZXJBGkcnh4MHcBFZntXNFrdvJjX04jRzjzCBOonrkTfj499SZuOh8R33Ls8RRcy5wBgmlkgnY0gmlwhH8AAAGJc2VjcDI1NmsxoQPKY0yuDUmstAHYpMa2_oxVtw0RW_QAdpzBQA8yWM0xOIN1ZHCCdl8";

#[test]
fn bootnodes_come_from_records() {
    let plain = load_bootnodes_from_enr_file("f", &format!("- \"{ENR}\"\n")).unwrap();
    assert_eq!(plain.len(), 1);
    assert!(plain[0].starts_with("/ip4/127.0.0.1/udp/30303/quic-v1/p2p/16Uiu2HA"));
    let mapped = load_bootnodes_from_enr_file("f", &format!("- enr: \"{ENR}\"\n  x: 1\n")).unwrap();
    assert_eq!(mapped, plain);
    let fault = |s: &str| load_bootnodes_from_enr_file("f", s).unwrap_err();
    assert_eq!(fault("a: 1\n"), "Failed to parse bootnodes file f: expected a YAML sequence");
    assert!(fault("a: [\n").starts_with("Failed to parse bootnodes file f: "));
    assert_eq!(
        fault("- 5\n"),
        "Invalid bootnode entry 1 in f: expected string or mapping"
    );
    assert_eq!(fault("- x: 1\n"), "Invalid bootnode entry 1 in f: expected `enr` string");
    assert!(fault("- junk\n").starts_with("Invalid ENR at f entry 1: "));
}

#[test]
fn records_name_endpoints() {
    let mut record = EnrRecord {
        ip4: Some([10, 0, 0, 1]),
        quic: Some(vec![0x23, 0x28]),
        udp4: Some(7),
        public_key: vec![],
    };
    assert_eq!(decode_quic_port(&[0x23, 0x28]), Some(9_000));
    assert_eq!(decode_quic_port(&[1]), None);
    assert_eq!(
        read_record("f", 1, &record, Ok("P".to_string())),
        Ok(Some("/ip4/10.0.0.1/udp/9000/quic-v1/p2p/P".to_string()))
    );
    assert_eq!(
        read_record("f", 2, &record, Err("bad".to_string())),
        Err("Invalid secp256k1 public key in f entry 2: bad".to_string())
    );
    record.quic = Some(vec![1]);
    assert_eq!(
        read_record("f", 1, &record, Ok("P".to_string())),
        Ok(Some("/ip4/10.0.0.1/udp/7/quic-v1/p2p/P".to_string()))
    );
    record.udp4 = None;
    assert_eq!(read_record("f", 1, &record, Ok("P".to_string())), Ok(None));
    record.ip4 = None;
    assert_eq!(read_record("f", 1, &record, Err("bad".to_string())), Ok(None));
    assert_eq!(write_peer_address(&[1, 2, 3, 4], 5, "Q"), "/ip4/1.2.3.4/udp/5/quic-v1/p2p/Q");
}

#[test]
fn genesis_is_read_from_documents() {
    let key = "ab".repeat(52);
    let doc = format!("GENESIS_TIME: 12\nGENESIS_VALIDATORS:\n- \"0x{key}\"\n- \"{key}\"\n");
    let state = build_genesis_from_config_yaml("c", &doc).unwrap();
    assert_eq!(state.config.genesis_time, Uint64(12));
    assert_eq!(state.validators.data.len(), 2);
    assert_eq!(state.validators.data[1].pubkey.0, [0xab; 52]);
    assert_eq!(state.validators.data[1].index, ValidatorIndex(Uint64(1)));
    let later = build_genesis_from_config_yaml_with_override("c", &doc, Some(99)).unwrap();
    assert_eq!(later.config.genesis_time, Uint64(99));
    let fault = |s: &str| build_genesis_from_config_yaml("c", s).unwrap_err();
    assert_eq!(fault("X: 1\n"), "missing GENESIS_TIME in c");
    assert_eq!(fault("GENESIS_TIME: 1\n"), "missing GENESIS_VALIDATORS in c");
    assert_eq!(fault("GENESIS_TIME: 1\nGENESIS_VALIDATORS: []\n"), "GENESIS_VALIDATORS is empty in c");
    assert!(fault("a: [\n").starts_with("failed to parse c: "));
    let items = |v: Vec<Option<&str>>| Some(v.into_iter().map(|t| t.map(|t| t.to_string())).collect());
    assert_eq!(
        build_genesis_from_document("c", Some(1), &items(vec![None]), None),
        Err("GENESIS_VALIDATORS[0] is not a string".to_string())
    );
    assert_eq!(
        build_genesis_from_document("c", Some(1), &items(vec![Some("zz")]), None),
        Err("GENESIS_VALIDATORS[0] bad hex: invalid digit found in string".to_string())
    );
    assert_eq!(
        build_genesis_from_document("c", Some(1), &items(vec![Some("abcd")]), None),
        Err("GENESIS_VALIDATORS[0] expected 52 bytes, got 2".to_string())
    );
}

fn args(v: &[&str]) -> Vec<String> {
    v.iter().map(|s| s.to_string()).collect()
}

fn fault(v: &[&str]) -> (String, bool) {
    match CliOptions::read(&args(v)).1 {
        CliEnd::Fault { message, usage } => (message, usage),
        other => panic!("unexpected {other:?}"),
    }
}

#[test]
fn command_lines_are_read() {
    let (o, end) = CliOptions::read(&args(&[
        "--run", "--config", "c", "--data-dir", "d", "--bootnode", "a", "--bootnodes", "f",
        "--metrics-port", "9", "--aggregator", "-v",
    ]));
    assert!(matches!(end, CliEnd::Done));
    assert!(o.verbose);
    assert_eq!(o.bootnodes.len(), 2);
    assert!(matches!(&o.bootnodes[1], BootnodeSource::File(f) if f == "f"));
    match o.plan(args(&["a", "x"]), None) {
        CliPlan::Run(c) => {
            assert_eq!(c.config_path, "c");
            assert_eq!(c.data_dir, "d");
            assert_eq!(c.metrics_port, Some(9));
            assert_eq!(c.is_aggregator, Some(true));
            assert_eq!(c.bootnodes, Some(args(&["a", "x"])));
            let mut s = default_node_settings();
            s.override_with(&c, Some(4));
            assert_eq!(s.metrics_port, 9);
            assert_eq!(s.bootnodes, args(&["a", "x"]));
            assert_eq!(s.local_validator_index, 4);
            assert!(s.is_aggregator);
        },
        _ => panic!("no run"),
    }
    assert!(matches!(CliOptions::read(&args(&["-h"])).1, CliEnd::Help));
}

#[test]
fn faulty_command_lines_are_named() {
    assert_eq!(fault(&["--config"]), ("Missing value for --config".to_string(), true));
    assert_eq!(fault(&["--network", ""]), ("Missing value for --network".to_string(), true));
    assert_eq!(fault(&["--what"]), ("Unknown argument: --what".to_string(), true));
    assert_eq!(
        fault(&["--genesis-time", "x"]),
        ("Invalid genesis time x: invalid digit found in string".to_string(), false)
    );
    assert_eq!(
        fault(&["--api-port", "70000"]),
        ("Invalid api port 70000: number too large to fit in target type".to_string(), false)
    );
    assert_eq!(
        fault(&["--attestation-committee-count", "0"]),
        ("Invalid attestation committee count 0: must be > 0".to_string(), false)
    );
}

#[test]
fn command_lines_ask_for_one_thing() {
    let plan = |v: &[&str]| CliOptions::read(&args(v)).0.plan(vec![], None);
    assert!(matches!(plan(&["--genesis-time", "5"]), CliPlan::RootOfTime(5)));
    assert!(matches!(plan(&["--config", "c", "--genesis-time", "5"]), CliPlan::RootOfFile(p) if p == "c"));
    assert!(matches!(plan(&[]), CliPlan::Refused(CliEnd::Help)));
    assert!(matches!(
        plan(&["--config", "c", "--listen", "x"]),
        CliPlan::Refused(CliEnd::Fault { message, .. }) if message == "runtime override flags require --run"
    ));
    assert!(matches!(
        plan(&["--run"]),
        CliPlan::Refused(CliEnd::Fault { message, .. }) if message == "Missing --config/--genesis for --run"
    ));
    assert!(matches!(
        plan(&["--run", "--config", "c"]),
        CliPlan::Refused(CliEnd::Fault { message, .. }) if message == "Missing --data-dir for --run"
    ));
}

#[test]
fn node_maps_are_read() {
    let map = parse_node_map("b:1, a:0 ,b:3,,a : 2").unwrap();
    assert_eq!(
        map,
        vec![("a".to_string(), vec![0, 2]), ("b".to_string(), vec![1, 3])]
    );
    assert_eq!(check_node_map(&map, 4), Ok(()));
    assert_eq!(
        check_node_map(&map, 2),
        Err("node-map index 2 out of range for --validators 2".to_string())
    );
    assert_eq!(parse_node_map("x"), Err("invalid node-map entry: x".to_string()));
    assert_eq!(parse_node_map(":1"), Err("invalid node name in node-map entry: :1".to_string()));
    assert_eq!(
        parse_node_map("a:b"),
        Err("invalid index in node-map entry a:b: invalid digit found in string".to_string())
    );
    assert!(is_aggregator_node(&map, 0, 1));
    assert!(!is_aggregator_node(&map, 1, 1));
    assert!(is_aggregator_node(&map, 1, 2));
    assert_eq!(sorted_indexes(&vec![3, 1, 2, 1]), vec![1, 1, 2, 3]);
}

#[test]
fn network_files_are_written() {
    let map = parse_node_map("n:1,n:0").unwrap();
    let materials = vec![validator_material(0, &[0xaa], &[0xbb]), validator_material(1, &[1], &[2])];
    assert_eq!(materials[0].attestation_privkey_file, "validator_0_attestation_sk.ssz");
    assert_eq!(key_file_name(3, "_pk.json"), "validator_3_pk.json");
    assert_eq!(file_text(&assignment(&map)), "n:\n- 0\n- 1\n");
    assert_eq!(
        file_text(&chain_config(5, &materials)),
        "GENESIS_TIME: 5\nNUM_VALIDATORS: 2\nGENESIS_VALIDATORS:\n- attestation_pubkey: \"0xaa\"\n  \
         proposal_pubkey: \"0xbb\"\n- attestation_pubkey: \"0x01\"\n  proposal_pubkey: \"0x02\"\n"
    );
    let lines = manifest(&materials);
    assert_eq!(lines[6], "num_validators: 2");
    assert_eq!(lines[8], "- index: 0");
    assert_eq!(lines[9], "  attestation_pubkey_hex: 0xaa");
    let lines = annotated(&map, &materials);
    assert_eq!(lines[1], "  - index: 0");
    assert_eq!(lines[2], "    attestation_pubkey_hex: aa");
    let lines = node_config(&map, 1);
    assert_eq!(lines[1], "  - name: \"n\"");
    assert_eq!(lines[3], "    is_aggregator: true");
    assert_eq!(synthetic_node_privkey_hex(0x1e), format!("{:064x}", 0x1f));
    assert_eq!(file_text(&vec![]), "\n");
}

#[test]
fn selectors_name_blocks() {
    assert_eq!(parse_slot("slot:12"), Some(12));
    assert_eq!(parse_slot("12"), Some(12));
    assert_eq!(parse_slot("slot:"), None);
    assert_eq!(parse_slot("1234567890123456789"), None);
    assert_eq!(parse_slot("1x"), None);
    assert_eq!(parse_bytes32(&format!("0x{}", "0f".repeat(32))), Ok(Bytes32([15; 32])));
    assert_eq!(
        parse_bytes32("ab"),
        Err("expected 32-byte hex (64 chars), got length 2".to_string())
    );
    assert_eq!(
        parse_bytes32(&format!("{}+f", "0f".repeat(31))),
        Err("invalid hex".to_string())
    );
}

#[test]
fn topic_tables_have_their_own_defaults() {
    let read = |text: &str| load_node_settings(text.as_bytes()).unwrap().complete(vec![], &None).1;
    let defaults = read("genesis_time = 1\n");
    let topics = read("genesis_time = 1\nallowed_topics = /x\n");
    assert_eq!(topics.allowed_topics, vec!["/x".to_string()]);
    assert_eq!(topics.topic_scores, defaults.topic_scores);
    assert_eq!(topics.topic_validators, defaults.topic_validators);
    let scores = read("genesis_time = 1\ntopic_scores = /x:7\ntopic_validators = /x=exit\n");
    assert_eq!(scores.allowed_topics, defaults.allowed_topics);
    assert_eq!(scores.topic_scores, vec![("/x".to_string(), 7)]);
    assert_eq!(
        scores.topic_validators,
        vec![("/x".to_string(), GossipValidatorKind::VoluntaryExit)]
    );
    assert_eq!(read("genesis_time = 1\ntopic_scores = none\n").topic_scores, vec![]);
}

#[test]
fn loaded_bootnodes_need_a_running_node() {
    let named = ["--genesis-time", "5", "--bootnodes", "empty.yaml"];
    let plan = |found: &[&str]| CliOptions::read(&args(&named)).0.plan(args(found), None);
    assert!(matches!(plan(&[]), CliPlan::RootOfTime(5)));
    assert!(matches!(
        plan(&["a"]),
        CliPlan::Refused(CliEnd::Fault { message, usage: true })
            if message == "runtime override flags require --run"
    ));
}

#[test]
fn chain_configurations_are_told_by_name() {
    assert!(is_chain_config(Some("config.yaml")));
    assert!(is_chain_config(Some("Config.YAML")));
    assert!(!is_chain_config(Some("config.yml")));
    assert!(!is_chain_config(Some("my-config.yaml")));
    // A capital I with a dot is no ASCII letter.
    assert!(!is_chain_config(Some("conf\u{130}g.yaml")));
    assert!(!is_chain_config(None));
}

#[test]
fn node_names_come_in_their_order() {
    let map = parse_node_map("b:1,a:2,ab:0,b:3,B:4").unwrap();
    let names: Vec<&str> = map.iter().map(|(name, _)| name.as_str()).collect();
    assert_eq!(names, vec!["B", "a", "ab", "b"]);
    assert_eq!(map[3].1, vec![1, 3]);
}
