//! What configuration files give: entries, defaults, genesis and bootnodes.

use crate::app::bootnodes;
use crate::app::entries;
use crate::app::entries::DraftModel;
use crate::app::genesis;
use crate::app::identity;
use crate::app::settings;
use crate::app::settings::{LoadedModel, SettingsModel};
use crate::containers::state;
use crate::containers::state::StateModel;
use crate::networking::validate::GossipValidatorKind;
use crate::numbers;
use crate::text;
use crate::types::uint::Uint64;
use vstd::prelude::*;

verus! {

/// What an entry gives is taken; what no entry gives has its default: no metrics and an HTTP
/// interface, both on port 8080 of the local machine; a dial every 5 seconds, a decay by 1 every
/// 30 seconds and a ban at -100; messages up to two million bytes and requests up to four; no
/// aggregation, one committee, five validators, of which number 0 is the local one.
pub proof fn law_defaults(d: DraftModel)
    ensures
        ({
            let s = settings::settings_of(d);
            &&& s.metrics == (d.server.metrics matches Some(x) && x)
            &&& s.http_api == (d.server.http_api matches Some(x) ==> x)
            &&& d.server.metrics_address matches Some(x) ==> s.metrics_address == x
            &&& d.server.metrics_address is None ==> s.metrics_address == "127.0.0.1"@
            &&& d.server.http_address matches Some(x) ==> s.http_address == x
            &&& d.server.http_address is None ==> s.http_address == "127.0.0.1"@
            &&& d.server.metrics_port matches Some(x) ==> s.metrics_port == x
            &&& d.server.metrics_port is None ==> s.metrics_port == 8080
            &&& d.server.http_port matches Some(x) ==> s.http_port == x
            &&& d.server.http_port is None ==> s.http_port == 8080
            &&& d.network.discovery_interval_secs matches Some(x) ==> s.discovery_interval_secs == x
            &&& d.network.discovery_interval_secs is None ==> s.discovery_interval_secs == 5
            &&& d.network.score_decay_interval_secs matches Some(x) ==> s.score_decay_interval_secs
                == x
            &&& d.network.score_decay_interval_secs is None ==> s.score_decay_interval_secs == 30
            &&& d.network.score_decay_amount matches Some(x) ==> s.score_decay_amount == x
            &&& d.network.score_decay_amount is None ==> s.score_decay_amount == 1
            &&& d.network.ban_threshold matches Some(x) ==> s.ban_threshold == x
            &&& d.network.ban_threshold is None ==> s.ban_threshold == -100
            &&& d.network.listen_addr matches Some(x) ==> s.listen_addr == x
            &&& d.network.listen_addr is None ==> s.listen_addr == "/ip4/0.0.0.0/udp/9000/quic-v1"@
            &&& d.network.max_gossip_bytes matches Some(x) ==> s.max_gossip_bytes == x
            &&& d.network.max_gossip_bytes is None ==> s.max_gossip_bytes == 2_000_000
            &&& d.network.max_reqresp_bytes matches Some(x) ==> s.max_reqresp_bytes == x
            &&& d.network.max_reqresp_bytes is None ==> s.max_reqresp_bytes == 4_000_000
            &&& s.is_aggregator == (d.duty.is_aggregator matches Some(x) && x)
            &&& d.duty.attestation_committee_count matches Some(x) ==> s.attestation_committee_count
                == x
            &&& d.duty.attestation_committee_count is None ==> s.attestation_committee_count == 1
            &&& d.duty.local_validator_index matches Some(x) ==> s.local_validator_index == x
            &&& d.duty.local_validator_index is None ==> s.local_validator_index == 0
            &&& d.duty.validator_count matches Some(x) ==> s.validator_count == x
            &&& d.duty.validator_count is None ==> s.validator_count == 5
            &&& s.bootnodes == d.network.bootnodes
            &&& s.trusted_peers == d.network.trusted_peers
            &&& s.node_key_path == d.network.node_key_path
            &&& s.storage_dir == d.duty.storage_dir
            &&& s.validator_config_path == d.duty.validator_config_path
            &&& s.checkpoint_sync_url == d.duty.checkpoint_sync_url
            &&& s.metrics_node_name == d.server.metrics_node_name
            &&& s.metrics_client_name == d.server.metrics_client_name
        }),
{
}

/// The topics that no entry gives are blocks, votes and aggregates of the development network;
/// blocks earn two points and the others one, and each is checked as what it carries. The three
/// tables have their defaults by themselves.
pub proof fn law_default_topics(d: DraftModel)
    ensures
        ({
            let s = settings::settings_of(d);
            let blocks = "/leanconsensus/devnet3/blocks/ssz_snappy"@;
            let votes = "/leanconsensus/devnet3/attestation_0/ssz_snappy"@;
            let aggregates = "/leanconsensus/devnet3/aggregation/ssz_snappy"@;
            &&& d.network.allowed_topics.len() > 0 ==> s.allowed_topics == d.network.allowed_topics
            &&& d.network.allowed_topics.len() == 0 ==> s.allowed_topics == seq![
                blocks,
                votes,
                aggregates,
            ]
            &&& d.network.topic_scores matches Some(x) ==> s.topic_scores == x
            &&& d.network.topic_scores is None ==> s.topic_scores == seq![
                (blocks, 2i64),
                (votes, 1i64),
                (aggregates, 1i64),
            ]
            &&& d.network.topic_validators matches Some(x) ==> s.topic_validators == x
            &&& d.network.topic_validators is None ==> s.topic_validators == seq![
                (blocks, GossipValidatorKind::Block),
                (votes, GossipValidatorKind::Attestation),
                (aggregates, GossipValidatorKind::AggregatedAttestation),
            ]
        }),
{
    let blocks = "/leanconsensus/devnet3/blocks/ssz_snappy"@;
    let votes = "/leanconsensus/devnet3/attestation_0/ssz_snappy"@;
    let aggregates = "/leanconsensus/devnet3/aggregation/ssz_snappy"@;
    let t = settings::default_topics();
    assert(t[0] == blocks && t[1] == votes && t[2] == aggregates);
    assert(settings::default_scores() =~= seq![(blocks, 2i64), (votes, 1i64), (aggregates, 1i64)]);
    assert(settings::default_kinds() =~= seq![
        (blocks, GossipValidatorKind::Block),
        (votes, GossipValidatorKind::Attestation),
        (aggregates, GossipValidatorKind::AggregatedAttestation),
    ]);
}

/// A line is blank, a comment, or a key and a value on both sides of its first equals sign,
/// without the white space around them; any other line is refused.
pub proof fn law_lines_of_a_file(line: Seq<char>)
    ensures
        ({
            let t = text::trimmed(line);
            &&& t.len() == 0 ==> entries::line_entry(line) == Ok::<
                Option<(Seq<char>, Seq<char>)>,
                Seq<char>,
            >(None)
            &&& t.len() > 0 && t[0] == '#' ==> entries::line_entry(line) == Ok::<
                Option<(Seq<char>, Seq<char>)>,
                Seq<char>,
            >(None)
            &&& t.len() > 0 && t[0] != '#' && !t.contains('=') ==> entries::line_entry(line) is Err
            &&& t.len() > 0 && t[0] != '#' && t.contains('=') ==> {
                &&& entries::line_entry(line) matches Ok(Some((key, value)))
                &&& exists|a: Seq<char>, b: Seq<char>|
                    !a.contains('=') && #[trigger] (a.push('=') + b) == t && key == text::trimmed(a)
                        && value == text::trimmed(b)
            }
        }),
{
    let t = text::trimmed(line);
    crate::laws::text::law_cut_at_first(t, '=');
    if let Some((a, b)) = text::split_at_first(t, '=') {
        assert(a.push('=') + b == t);
    }
}

/// A line without an entry changes nothing, one with an entry applies it to what the lines
/// before gave, and a fault ends the reading. Before the first line there is no entry.
pub proof fn law_lines_are_read_in_order(lines: Seq<Seq<char>>, k: nat)
    requires
        0 < k <= lines.len(),
    ensures
        entries::draft_of(lines, (k - 1) as nat) matches Ok(d) ==> {
            &&& entries::line_entry(lines[k - 1]) matches Ok(None) ==> entries::draft_of(lines, k)
                == Ok::<DraftModel, Seq<char>>(d)
            &&& entries::line_entry(lines[k - 1]) matches Ok(Some((key, value)))
                ==> entries::draft_of(lines, k) == entries::entry_applied(d, key, value)
            &&& entries::line_entry(lines[k - 1]) is Err ==> entries::draft_of(lines, k) is Err
        },
        entries::draft_of(lines, (k - 1) as nat) is Err ==> entries::draft_of(lines, k)
            == entries::draft_of(lines, (k - 1) as nat),
        entries::draft_of(lines, 0) matches Ok(d) && settings::settings_of(d)
            == settings::default_settings(),
{
}

/// A topic is written with one slash in front, which may be left out.
pub proof fn law_topics_have_a_slash(topic: Seq<char>)
    ensures
        ({
            let t = text::trimmed(topic);
            &&& t.len() > 0 && t[0] == '/' ==> entries::canonical_topic(topic) == t
            &&& t.len() == 0 || t[0] != '/' ==> entries::canonical_topic(topic).len() == t.len() + 1
                && entries::canonical_topic(topic)[0] == '/' && entries::canonical_topic(
                topic,
            ).skip(1) == t
        }),
{
    reveal_strlit("/");
    let t = text::trimmed(topic);
    assert(("/"@ + t).skip(1) =~= t);
}

/// An empty text keeps what an earlier entry gave.
pub proof fn law_empty_texts(before: Option<Seq<char>>, value: Seq<char>)
    ensures
        value.len() == 0 ==> entries::text_of(before, value) == before,
        value.len() > 0 ==> entries::text_of(before, value) == Some(value),
{
}

/// A file of eight bytes, or a document with a genesis time, gives the default settings with that
/// time; any other text gives the settings of its entries, which need a genesis time.
pub proof fn law_settings_of_a_text(s: Seq<char>, yaml_time: Option<u64>)
    ensures
        yaml_time matches Some(t) ==> {
            &&& settings::settings_of_text(s, yaml_time) matches Ok(m)
            &&& m.config.genesis_time.0 == t
            &&& m.settings == settings::default_settings()
            &&& m.bootnodes_file is None
        },
        yaml_time is None ==> (entries::text_draft(s) matches Ok(d) ==> {
            &&& d.duty.genesis_time is None ==> settings::settings_of_text(s, yaml_time) is Err
            &&& d.duty.genesis_time matches Some(t) ==> {
                &&& settings::settings_of_text(s, yaml_time) matches Ok(m)
                &&& m.config.genesis_time.0 == t
                &&& m.settings == settings::settings_of(d)
                &&& m.bootnodes_file == d.network.bootnodes_file
            }
        }),
        yaml_time is None && entries::text_draft(s) is Err ==> settings::settings_of_text(
            s,
            yaml_time,
        ) is Err,
{
}

/// The bootnodes of the file are added behind those of the entries, and the role that the
/// validator configuration gives the local validator replaces the setting.
pub proof fn law_completed_settings(
    m: LoadedModel,
    found: Seq<Seq<char>>,
    roles: Option<Seq<identity::EntryModel>>,
)
    requires
        m.from_entries,
    ensures
        ({
            let s = settings::completed(m, found, roles);
            let role = identity::role_of(roles, m.settings.local_validator_index);
            &&& s.bootnodes == m.settings.bootnodes + found
            &&& role matches Some(r) ==> s.is_aggregator == r
            &&& role is None ==> s.is_aggregator == m.settings.is_aggregator
            &&& s.local_validator_index == m.settings.local_validator_index
            &&& s.validator_count == m.settings.validator_count
            &&& s.listen_addr == m.settings.listen_addr
            &&& s.topic_scores == m.settings.topic_scores
        }),
{
}

/// The network is configured as the settings say.
pub proof fn law_network_settings(s: SettingsModel)
    ensures
        ({
            let c = settings::networking_of(s);
            &&& c.discovery_interval_secs == s.discovery_interval_secs
            &&& c.score_decay_interval_secs == s.score_decay_interval_secs
            &&& c.score_decay_amount == s.score_decay_amount
            &&& c.ban_threshold == s.ban_threshold
            &&& c.bootnodes == s.bootnodes
            &&& c.trusted_peers == s.trusted_peers
            &&& c.listen_addr == s.listen_addr
            &&& c.node_key_path == s.node_key_path
            &&& c.allowed_topics == s.allowed_topics
            &&& c.topic_scores == s.topic_scores
            &&& c.topic_validators == s.topic_validators
            &&& c.max_gossip_bytes == s.max_gossip_bytes
            &&& c.max_reqresp_bytes == s.max_reqresp_bytes
        }),
{
}

/// The genesis time of a document is the one that overrides it, else its own; without one, or
/// with 0, there is no genesis. Neither is there one without validators. The state is the genesis
/// state of that time and of the listed validators.
pub proof fn law_genesis_of_a_document(
    path: Seq<char>,
    time: Option<u64>,
    items: Option<Seq<Option<Seq<char>>>>,
    override_time: Option<u64>,
)
    ensures
        ({
            let chosen = if override_time is Some { override_time } else { time };
            let made = genesis::genesis_of_document(path, time, items, override_time);
            &&& chosen is None ==> made is Err
            &&& chosen == Some(0u64) ==> made is Err
            &&& items is None ==> made is Err
            &&& items matches Some(v) ==> (v.len() == 0 ==> made is Err)
            &&& items matches Some(v) ==> (chosen matches Some(t) ==> (t != 0 && v.len() > 0 ==> {
                &&& genesis::validators_of(v, v.len()) is Err ==> made is Err
                &&& genesis::validators_of(v, v.len()) matches Ok(registry) ==> (registry.len()
                    <= 4_096 ==> made == Ok::<StateModel, Seq<char>>(
                    state::genesis(Uint64(t), registry),
                )) && (registry.len() > 4_096 ==> made is Err)
            }))
        }),
{
}

/// A key of a document is 104 hexadecimal digits, with or without `0x`.
pub proof fn law_keys_of_a_document(i: nat, entry: Option<Seq<char>>)
    ensures
        entry is None ==> genesis::key_of_entry(i, entry) is Err,
        entry matches Some(t) ==> {
            let b = vstd::utf8::encode_utf8(crate::networking::hex::without_hex_prefix(t));
            &&& genesis::key_of_entry(i, entry) is Ok ==> b.len() == 104
                && crate::networking::hex::hex_bytes(b, 52) == Ok::<Seq<u8>, nat>(
                genesis::key_of_entry(i, entry)->Ok_0,
            )
            &&& b.len() == 104 && crate::networking::hex::hex_bytes(b, 52) is Ok
                ==> genesis::key_of_entry(i, entry) is Ok
        },
{
}

/// The validators of the development network: number `i` has index `i`, no balance, and a key of
/// the byte 0xd1, its number and zero bytes.
pub proof fn law_devnet_validators(count: nat, i: int, j: int)
    requires
        0 <= i < count <= 4_096,
        0 <= j < 52,
    ensures
        ({
            let all = genesis::devnet_validators(count);
            &&& all.len() == count
            &&& all[i].index.0.0 == i
            &&& all[i].balance.0 == 0
            &&& genesis::devnet_key(i).len() == 52
            &&& j == 0 ==> genesis::devnet_key(i)[j] == 0xd1
            &&& j == 1 ==> genesis::devnet_key(i)[j] == i % 256
            &&& j > 1 ==> genesis::devnet_key(i)[j] == 0
        }),
{
}

/// A port is two bytes, the high one first. A record's endpoint is its address and the port of
/// its QUIC entry, else with its UDP port; without an address or without a port it has none.
pub proof fn law_endpoints(ip: Seq<u8>, quic: Option<Seq<u8>>, udp: Option<u16>, key: Seq<u8>)
    ensures
        bootnodes::endpoint_of((None, quic, udp, key)) is None,
        quic matches Some(raw) ==> (raw.len() == 2 ==> (bootnodes::endpoint_of(
            (Some(ip), quic, udp, key),
        ) matches Some((a, p)) && a == ip && p == 256 * raw[0] + raw[1])),
        (quic is None || quic->Some_0.len() != 2) && udp is Some ==> bootnodes::endpoint_of(
            (Some(ip), quic, udp, key),
        ) == Some((ip, udp->Some_0)),
        (quic is None || quic->Some_0.len() != 2) && udp is None ==> bootnodes::endpoint_of(
            (Some(ip), quic, udp, key),
        ) is None,
{
}

/// The address of a peer names its four numbers, its port and its identity.
pub proof fn law_peer_addresses(ip: Seq<u8>, port: u16, peer: Seq<char>)
    ensures
        bootnodes::peer_address(ip, port, peer) == "/ip4/"@ + text::decimal(ip[0] as nat) + "."@
            + text::decimal(ip[1] as nat) + "."@ + text::decimal(ip[2] as nat) + "."@
            + text::decimal(ip[3] as nat) + "/udp/"@ + text::decimal(port as nat)
            + "/quic-v1/p2p/"@ + peer,
{
}

/// Items with an address are listed in their order; an item without one is left out, and a fault
/// ends the reading.
pub proof fn law_bootnodes_in_order(
    path: Seq<char>,
    items: Seq<Option<Option<Seq<char>>>>,
    k: nat,
)
    requires
        0 < k <= items.len(),
    ensures
        bootnodes::addresses_of(path, items, (k - 1) as nat) matches Ok(before) ==> {
            &&& bootnodes::address_of_item(path, k, items[k - 1]) matches Ok(Some(a))
                ==> bootnodes::addresses_of(path, items, k) == Ok::<Seq<Seq<char>>, Seq<char>>(
                before.push(a),
            )
            &&& bootnodes::address_of_item(path, k, items[k - 1]) matches Ok(None)
                ==> bootnodes::addresses_of(path, items, k) == Ok::<Seq<Seq<char>>, Seq<char>>(
                before,
            )
            &&& bootnodes::address_of_item(path, k, items[k - 1]) is Err
                ==> bootnodes::addresses_of(path, items, k) is Err
        },
{
}

/// A number of an entry is read whole, within its range.
pub proof fn law_numbers_of_entries(name: Seq<char>, value: Seq<char>, max: nat)
    ensures
        numbers::unsigned_read(value, max) matches Ok(n) ==> entries::number_of(name, value, max)
            == Ok::<nat, Seq<char>>(n),
        numbers::unsigned_read(value, max) is Err ==> entries::number_of(name, value, max) is Err,
        numbers::signed_read(value, i64::MAX as nat) matches Ok(n) ==> entries::integer_of(
            name,
            value,
        ) == Ok::<int, Seq<char>>(n),
{
}

} // verus!
