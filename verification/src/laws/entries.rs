//! What the entries of a configuration file set.

use crate::app::entries;
use crate::app::entries::{DraftModel, DutyModel, NetworkModel, ServerModel};
use crate::networking::validate::GossipValidatorKind;
use crate::numbers;
use crate::text;
use vstd::prelude::*;

verus! {

/// The words that switch something on.
pub open spec fn switched_on(value: Seq<char>) -> bool {
    value == "1"@ || value == "true"@ || value == "yes"@ || value == "on"@
}

/// The words that switch something off.
pub open spec fn switched_off(value: Seq<char>) -> bool {
    value == "0"@ || value == "false"@ || value == "no"@ || value == "off"@
}

proof fn lemma_keys()
    ensures
        "metrics"@.len() == 7,
        "metrics_address"@.len() == 15,
        "metrics_port"@.len() == 12,
        "http_api"@.len() == 8,
        "http_address"@.len() == 12,
        "http_port"@.len() == 9,
        "metrics_node_name"@.len() == 17,
        "metrics_client_name"@.len() == 19,
        "discovery_interval_secs"@.len() == 23,
        "score_decay_interval_secs"@.len() == 25,
        "score_decay_amount"@.len() == 18,
        "ban_threshold"@.len() == 13,
        "listen_addr"@.len() == 11,
        "node_key_path"@.len() == 13,
        "bootnodes"@.len() == 9,
        "bootnodes_file"@.len() == 14,
        "trusted_peers"@.len() == 13,
        "allowed_topics"@.len() == 14,
        "topic_scores"@.len() == 12,
        "topic_validators"@.len() == 16,
        "max_gossip_bytes"@.len() == 16,
        "max_reqresp_bytes"@.len() == 17,
        "genesis_time"@.len() == 12,
        "is_aggregator"@.len() == 13,
        "attestation_committee_count"@.len() == 27,
        "validator_count"@.len() == 15,
        "local_validator_index"@.len() == 21,
        "storage_dir"@.len() == 11,
        "validator_config_path"@.len() == 21,
        "checkpoint_sync_url"@.len() == 19,
        "http_port"@[0] == 'h',
        "bootnodes"@[0] == 'b',
        "listen_addr"@[0] == 'l',
        "storage_dir"@[0] == 's',
        "metrics_port"@[0] == 'm',
        "http_address"@[0] == 'h',
        "topic_scores"@[0] == 't',
        "genesis_time"@[0] == 'g',
        "ban_threshold"@[0] == 'b',
        "node_key_path"@[0] == 'n',
        "trusted_peers"@[0] == 't',
        "is_aggregator"@[0] == 'i',
        "bootnodes_file"@[0] == 'b',
        "allowed_topics"@[0] == 'a',
        "metrics_address"@[0] == 'm',
        "validator_count"@[0] == 'v',
        "topic_validators"@[0] == 't',
        "max_gossip_bytes"@[0] == 'm',
        "metrics_node_name"@[1] == 'e',
        "max_reqresp_bytes"@[1] == 'a',
        "metrics_client_name"@[0] == 'm',
        "checkpoint_sync_url"@[0] == 'c',
        "local_validator_index"@[0] == 'l',
        "validator_config_path"@[0] == 'v',
{
    reveal_strlit("metrics");
    reveal_strlit("metrics_address");
    reveal_strlit("metrics_port");
    reveal_strlit("http_api");
    reveal_strlit("http_address");
    reveal_strlit("http_port");
    reveal_strlit("metrics_node_name");
    reveal_strlit("metrics_client_name");
    reveal_strlit("discovery_interval_secs");
    reveal_strlit("score_decay_interval_secs");
    reveal_strlit("score_decay_amount");
    reveal_strlit("ban_threshold");
    reveal_strlit("listen_addr");
    reveal_strlit("node_key_path");
    reveal_strlit("bootnodes");
    reveal_strlit("bootnodes_file");
    reveal_strlit("trusted_peers");
    reveal_strlit("allowed_topics");
    reveal_strlit("topic_scores");
    reveal_strlit("topic_validators");
    reveal_strlit("max_gossip_bytes");
    reveal_strlit("max_reqresp_bytes");
    reveal_strlit("genesis_time");
    reveal_strlit("is_aggregator");
    reveal_strlit("attestation_committee_count");
    reveal_strlit("validator_count");
    reveal_strlit("local_validator_index");
    reveal_strlit("storage_dir");
    reveal_strlit("validator_config_path");
    reveal_strlit("checkpoint_sync_url");
}

proof fn lemma_switches(value: Seq<char>)
    ensures
        switched_on(value) ==> !switched_off(value),
{
    reveal_strlit("1");
    reveal_strlit("true");
    reveal_strlit("yes");
    reveal_strlit("on");
    reveal_strlit("0");
    reveal_strlit("false");
    reveal_strlit("no");
    reveal_strlit("off");
    if switched_on(value) {
        assert(value[0] == '1' || value[0] == 't' || value[0] == 'y' || value.len() == 2 && value[1]
            == 'n');
    }
}

/// An entry on the servers sets what it names and nothing else.
pub proof fn law_server_entries(d: DraftModel, value: Seq<char>)
    ensures
        switched_on(value) ==> entries::entry_applied(d, "metrics"@, value)
            == Ok::<DraftModel, Seq<char>>(
            (DraftModel { server: ServerModel { metrics: Some(true), ..d.server }, ..d }),
        ),
        switched_off(value) ==> entries::entry_applied(d, "metrics"@, value)
            == Ok::<DraftModel, Seq<char>>(
            (DraftModel { server: ServerModel { metrics: Some(false), ..d.server }, ..d }),
        ),
        !switched_on(value) && !switched_off(value)
            ==> entries::entry_applied(d, "metrics"@, value) is Err,
        value.len() > 0 ==> entries::entry_applied(d, "metrics_address"@, value)
            == Ok::<DraftModel, Seq<char>>(
            (DraftModel { server: ServerModel { metrics_address: Some(value), ..d.server }, ..d }),
        ),
        value.len() == 0 ==> entries::entry_applied(d, "metrics_address"@, value)
            == Ok::<DraftModel, Seq<char>>(d),
        numbers::unsigned_read(value, 65_535) is Err
            ==> entries::entry_applied(d, "metrics_port"@, value) is Err,
        numbers::unsigned_read(value, 65_535) matches Ok(n)
            ==> entries::entry_applied(d, "metrics_port"@, value)
            == Ok::<DraftModel, Seq<char>>(
            (DraftModel { server: ServerModel { metrics_port: Some(n as u16), ..d.server }, ..d }),
        ),
        switched_on(value) ==> entries::entry_applied(d, "http_api"@, value)
            == Ok::<DraftModel, Seq<char>>(
            (DraftModel { server: ServerModel { http_api: Some(true), ..d.server }, ..d }),
        ),
        switched_off(value) ==> entries::entry_applied(d, "http_api"@, value)
            == Ok::<DraftModel, Seq<char>>(
            (DraftModel { server: ServerModel { http_api: Some(false), ..d.server }, ..d }),
        ),
        !switched_on(value) && !switched_off(value)
            ==> entries::entry_applied(d, "http_api"@, value) is Err,
        value.len() > 0 ==> entries::entry_applied(d, "http_address"@, value)
            == Ok::<DraftModel, Seq<char>>(
            (DraftModel { server: ServerModel { http_address: Some(value), ..d.server }, ..d }),
        ),
        value.len() == 0 ==> entries::entry_applied(d, "http_address"@, value)
            == Ok::<DraftModel, Seq<char>>(d),
        numbers::unsigned_read(value, 65_535) is Err
            ==> entries::entry_applied(d, "http_port"@, value) is Err,
        numbers::unsigned_read(value, 65_535) matches Ok(n)
            ==> entries::entry_applied(d, "http_port"@, value)
            == Ok::<DraftModel, Seq<char>>(
            (DraftModel { server: ServerModel { http_port: Some(n as u16), ..d.server }, ..d }),
        ),
        value.len() > 0 ==> entries::entry_applied(d, "metrics_node_name"@, value)
            == Ok::<DraftModel, Seq<char>>(
            (DraftModel { server: ServerModel { metrics_node_name: Some(value), ..d.server }, ..d }),
        ),
        value.len() == 0 ==> entries::entry_applied(d, "metrics_node_name"@, value)
            == Ok::<DraftModel, Seq<char>>(d),
        value.len() > 0 ==> entries::entry_applied(d, "metrics_client_name"@, value)
            == Ok::<DraftModel, Seq<char>>(
            (DraftModel { server: ServerModel { metrics_client_name: Some(value), ..d.server }, ..d }),
        ),
        value.len() == 0 ==> entries::entry_applied(d, "metrics_client_name"@, value)
            == Ok::<DraftModel, Seq<char>>(d),
{
    lemma_keys();
    lemma_switches(value);
}

/// An entry on the network sets what it names and nothing else.
pub proof fn law_network_entries(d: DraftModel, value: Seq<char>)
    ensures
        numbers::unsigned_read(value, u64::MAX as nat) is Err
            ==> entries::entry_applied(d, "discovery_interval_secs"@, value) is Err,
        numbers::unsigned_read(value, u64::MAX as nat) matches Ok(n)
            ==> entries::entry_applied(d, "discovery_interval_secs"@, value)
            == Ok::<DraftModel, Seq<char>>(
            (DraftModel { network: NetworkModel { discovery_interval_secs: Some(n as u64), ..d.network }, ..d }),
        ),
        numbers::unsigned_read(value, u64::MAX as nat) is Err
            ==> entries::entry_applied(d, "score_decay_interval_secs"@, value) is Err,
        numbers::unsigned_read(value, u64::MAX as nat) matches Ok(n)
            ==> entries::entry_applied(d, "score_decay_interval_secs"@, value)
            == Ok::<DraftModel, Seq<char>>(
            (DraftModel { network: NetworkModel { score_decay_interval_secs: Some(n as u64), ..d.network }, ..d }),
        ),
        numbers::signed_read(value, i64::MAX as nat) is Err
            ==> entries::entry_applied(d, "score_decay_amount"@, value) is Err,
        numbers::signed_read(value, i64::MAX as nat) matches Ok(n)
            ==> entries::entry_applied(d, "score_decay_amount"@, value)
            == Ok::<DraftModel, Seq<char>>(
            (DraftModel { network: NetworkModel { score_decay_amount: Some(n as i64), ..d.network }, ..d }),
        ),
        numbers::signed_read(value, i64::MAX as nat) is Err
            ==> entries::entry_applied(d, "ban_threshold"@, value) is Err,
        numbers::signed_read(value, i64::MAX as nat) matches Ok(n)
            ==> entries::entry_applied(d, "ban_threshold"@, value)
            == Ok::<DraftModel, Seq<char>>(
            (DraftModel { network: NetworkModel { ban_threshold: Some(n as i64), ..d.network }, ..d }),
        ),
        value.len() > 0 ==> entries::entry_applied(d, "listen_addr"@, value)
            == Ok::<DraftModel, Seq<char>>(
            (DraftModel { network: NetworkModel { listen_addr: Some(value), ..d.network }, ..d }),
        ),
        value.len() == 0 ==> entries::entry_applied(d, "listen_addr"@, value)
            == Ok::<DraftModel, Seq<char>>(d),
        value.len() > 0 ==> entries::entry_applied(d, "node_key_path"@, value)
            == Ok::<DraftModel, Seq<char>>(
            (DraftModel { network: NetworkModel { node_key_path: Some(value), ..d.network }, ..d }),
        ),
        value.len() == 0 ==> entries::entry_applied(d, "node_key_path"@, value)
            == Ok::<DraftModel, Seq<char>>(d),
        entries::entry_applied(d, "bootnodes"@, value) == Ok::<DraftModel, Seq<char>>(
            (DraftModel { network: NetworkModel { bootnodes: entries::list_of(value), ..d.network }, ..d }),
        ),
        value.len() > 0 ==> entries::entry_applied(d, "bootnodes_file"@, value)
            == Ok::<DraftModel, Seq<char>>(
            (DraftModel { network: NetworkModel { bootnodes_file: Some(value), ..d.network }, ..d }),
        ),
        value.len() == 0 ==> entries::entry_applied(d, "bootnodes_file"@, value)
            == Ok::<DraftModel, Seq<char>>(d),
        entries::entry_applied(d, "trusted_peers"@, value) == Ok::<DraftModel, Seq<char>>(
            (DraftModel { network: NetworkModel { trusted_peers: entries::list_of(value), ..d.network }, ..d }),
        ),
        entries::entry_applied(d, "allowed_topics"@, value) == Ok::<DraftModel, Seq<char>>(
            (DraftModel { network: NetworkModel { allowed_topics: entries::topics_of(value), ..d.network }, ..d }),
        ),
        entries::entry_applied(d, "topic_scores"@, value) == Ok::<DraftModel, Seq<char>>(
            (DraftModel { network: NetworkModel { topic_scores: Some(entries::scores_of(value)), ..d.network }, ..d }),
        ),
        entries::entry_applied(d, "topic_validators"@, value) == Ok::<DraftModel, Seq<char>>(
            (DraftModel { network: NetworkModel { topic_validators: Some(entries::kinds_of(value)), ..d.network }, ..d }),
        ),
        numbers::unsigned_read(value, usize::MAX as nat) is Err
            ==> entries::entry_applied(d, "max_gossip_bytes"@, value) is Err,
        numbers::unsigned_read(value, usize::MAX as nat) matches Ok(n)
            ==> entries::entry_applied(d, "max_gossip_bytes"@, value)
            == Ok::<DraftModel, Seq<char>>(
            (DraftModel { network: NetworkModel { max_gossip_bytes: Some(n as usize), ..d.network }, ..d }),
        ),
        numbers::unsigned_read(value, usize::MAX as nat) is Err
            ==> entries::entry_applied(d, "max_reqresp_bytes"@, value) is Err,
        numbers::unsigned_read(value, usize::MAX as nat) matches Ok(n)
            ==> entries::entry_applied(d, "max_reqresp_bytes"@, value)
            == Ok::<DraftModel, Seq<char>>(
            (DraftModel { network: NetworkModel { max_reqresp_bytes: Some(n as usize), ..d.network }, ..d }),
        ),
{
    lemma_keys();
}

/// An entry on the duties sets what it names and nothing else; counts of 0 are refused.
pub proof fn law_duty_entries(d: DraftModel, value: Seq<char>)
    ensures
        numbers::unsigned_read(value, u64::MAX as nat) is Err
            ==> entries::entry_applied(d, "genesis_time"@, value) is Err,
        numbers::unsigned_read(value, u64::MAX as nat) matches Ok(n)
            ==> entries::entry_applied(d, "genesis_time"@, value)
            == Ok::<DraftModel, Seq<char>>(
            (DraftModel { duty: DutyModel { genesis_time: Some(n as u64), ..d.duty }, ..d }),
        ),
        switched_on(value) ==> entries::entry_applied(d, "is_aggregator"@, value)
            == Ok::<DraftModel, Seq<char>>(
            (DraftModel { duty: DutyModel { is_aggregator: Some(true), ..d.duty }, ..d }),
        ),
        switched_off(value) ==> entries::entry_applied(d, "is_aggregator"@, value)
            == Ok::<DraftModel, Seq<char>>(
            (DraftModel { duty: DutyModel { is_aggregator: Some(false), ..d.duty }, ..d }),
        ),
        !switched_on(value) && !switched_off(value)
            ==> entries::entry_applied(d, "is_aggregator"@, value) is Err,
        numbers::unsigned_read(value, u64::MAX as nat) is Err
            ==> entries::entry_applied(d, "attestation_committee_count"@, value) is Err,
        numbers::unsigned_read(value, u64::MAX as nat) == Ok::<nat, numbers::NumberFault>(0)
            ==> entries::entry_applied(d, "attestation_committee_count"@, value) is Err,
        numbers::unsigned_read(value, u64::MAX as nat) matches Ok(n)
            ==> (n > 0 ==> entries::entry_applied(d, "attestation_committee_count"@, value)
            == Ok::<DraftModel, Seq<char>>(
            (DraftModel { duty: DutyModel { attestation_committee_count: Some(n as u64), ..d.duty }, ..d }),
        )),
        numbers::unsigned_read(value, usize::MAX as nat) is Err
            ==> entries::entry_applied(d, "validator_count"@, value) is Err,
        numbers::unsigned_read(value, usize::MAX as nat) == Ok::<nat, numbers::NumberFault>(0)
            ==> entries::entry_applied(d, "validator_count"@, value) is Err,
        numbers::unsigned_read(value, usize::MAX as nat) matches Ok(n)
            ==> (n > 0 ==> entries::entry_applied(d, "validator_count"@, value)
            == Ok::<DraftModel, Seq<char>>(
            (DraftModel { duty: DutyModel { validator_count: Some(n as usize), ..d.duty }, ..d }),
        )),
        numbers::unsigned_read(value, u64::MAX as nat) is Err
            ==> entries::entry_applied(d, "local_validator_index"@, value) is Err,
        numbers::unsigned_read(value, u64::MAX as nat) matches Ok(n)
            ==> entries::entry_applied(d, "local_validator_index"@, value)
            == Ok::<DraftModel, Seq<char>>(
            (DraftModel { duty: DutyModel { local_validator_index: Some(n as u64), ..d.duty }, ..d }),
        ),
        value.len() > 0 ==> entries::entry_applied(d, "storage_dir"@, value)
            == Ok::<DraftModel, Seq<char>>(
            (DraftModel { duty: DutyModel { storage_dir: Some(value), ..d.duty }, ..d }),
        ),
        value.len() == 0 ==> entries::entry_applied(d, "storage_dir"@, value)
            == Ok::<DraftModel, Seq<char>>(d),
        value.len() > 0 ==> entries::entry_applied(d, "validator_config_path"@, value)
            == Ok::<DraftModel, Seq<char>>(
            (DraftModel { duty: DutyModel { validator_config_path: Some(value), ..d.duty }, ..d }),
        ),
        value.len() == 0 ==> entries::entry_applied(d, "validator_config_path"@, value)
            == Ok::<DraftModel, Seq<char>>(d),
        value.len() > 0 ==> entries::entry_applied(d, "checkpoint_sync_url"@, value)
            == Ok::<DraftModel, Seq<char>>(
            (DraftModel { duty: DutyModel { checkpoint_sync_url: Some(value), ..d.duty }, ..d }),
        ),
        value.len() == 0 ==> entries::entry_applied(d, "checkpoint_sync_url"@, value)
            == Ok::<DraftModel, Seq<char>>(d),
{
    lemma_keys();
    lemma_switches(value);
}

/// The items of a list stand between commas: a list that is cut at a comma is read in two parts.
/// An item loses the white space around it, and a blank item is left out.
pub proof fn law_lists(a: Seq<char>, b: Seq<char>)
    requires
        !a.contains(','),
    ensures
        text::trimmed(a).len() == 0 ==> entries::list_of(a).len() == 0,
        text::trimmed(a).len() > 0 ==> entries::list_of(a) == seq![text::trimmed(a)],
        entries::list_of(a.push(',') + b) == entries::list_of(a) + entries::list_of(b),
{
    lemma_first_piece(a, b);
    let p = text::pieces(b, ',');
    reveal_with_fuel(entries::items_of, 2);
    lemma_items(a, p, p.len());
}

/// Scores are listed in the same way: an item is a topic and a number with a colon between them,
/// and any other item is left out.
pub proof fn law_score_lists(a: Seq<char>, b: Seq<char>)
    requires
        !a.contains(','),
    ensures
        !text::trimmed(a).contains(':') ==> entries::scores_of(a).len() == 0,
        forall|topic: Seq<char>, score: Seq<char>|
            !topic.contains(':') && #[trigger] (topic.push(':') + score) == text::trimmed(a) ==> {
                let n = numbers::signed_read(text::trimmed(score), i64::MAX as nat);
                &&& n is Err ==> entries::scores_of(a).len() == 0
                &&& n matches Ok(v) ==> entries::scores_of(a) == seq![
                    (entries::canonical_topic(topic), v as i64),
                ]
            },
        entries::scores_of(a.push(',') + b) == entries::scores_of(a) + entries::scores_of(b),
{
    lemma_first_piece(a, b);
    let p = text::pieces(b, ',');
    reveal_with_fuel(entries::score_items, 2);
    lemma_scores(a, p, p.len());
    crate::laws::text::law_cut_at_first(text::trimmed(a), ':');
    assert forall|topic: Seq<char>, score: Seq<char>|
        !topic.contains(':') && #[trigger] (topic.push(':') + score) == text::trimmed(
            a,
        ) implies text::split_at_first(text::trimmed(a), ':') == Some((topic, score)) by {
        lemma_cut(topic, score, ':');
    }
}

/// Checks are listed in the same way: an item is a topic and the name of a check with an equals
/// sign between them, and any other item is left out.
pub proof fn law_check_lists(a: Seq<char>, b: Seq<char>)
    requires
        !a.contains(','),
    ensures
        !text::trimmed(a).contains('=') ==> entries::kinds_of(a).len() == 0,
        forall|topic: Seq<char>, name: Seq<char>|
            !topic.contains('=') && #[trigger] (topic.push('=') + name) == text::trimmed(a)
                ==> entries::kinds_of(a) == seq![
                (entries::canonical_topic(topic), entries::kind_of(text::trimmed(name))),
            ],
        entries::kinds_of(a.push(',') + b) == entries::kinds_of(a) + entries::kinds_of(b),
{
    lemma_first_piece(a, b);
    let p = text::pieces(b, ',');
    reveal_with_fuel(entries::kind_items, 2);
    lemma_kinds(a, p, p.len());
    crate::laws::text::law_cut_at_first(text::trimmed(a), '=');
    assert forall|topic: Seq<char>, name: Seq<char>|
        !topic.contains('=') && #[trigger] (topic.push('=') + name) == text::trimmed(
            a,
        ) implies text::split_at_first(text::trimmed(a), '=') == Some((topic, name)) by {
        lemma_cut(topic, name, '=');
    }
}

/// The names of the checks; a name that stands for none leaves its topic unchecked.
pub proof fn law_names_of_checks(name: Seq<char>)
    ensures
        entries::kind_of(name) is Block <==> name == "block"@,
        entries::kind_of(name) is BlockHeader <==> name == "block_header"@,
        entries::kind_of(name) is Attestation <==> name == "attestation"@,
        entries::kind_of(name) is AggregatedAttestation <==> name == "aggregation"@ || name
            == "aggregated_attestation"@,
        entries::kind_of(name) is VoluntaryExit <==> name == "exit"@,
{
    reveal_strlit("block");
    reveal_strlit("block_header");
    reveal_strlit("attestation");
    reveal_strlit("aggregation");
    reveal_strlit("aggregated_attestation");
    reveal_strlit("exit");
    assert("attestation"@[1] == 't' && "aggregation"@[1] == 'g');
    assert("block"@.len() == 5 && "block_header"@.len() == 12 && "exit"@.len() == 4);
    assert("attestation"@.len() == 11 && "aggregated_attestation"@.len() == 22);
}

proof fn lemma_cut(a: Seq<char>, b: Seq<char>, c: char)
    requires
        !a.contains(c),
    ensures
        text::split_at_first(a.push(c) + b, c) == Some((a, b)),
{
    let s = a.push(c) + b;
    crate::laws::text::law_cut_at_first(s, c);
    assert(s[a.len() as int] == c);
    assert(s.contains(c));
    let (x, y) = text::split_at_first(s, c)->Some_0;
    let n = a.len() as int;
    let m = x.len() as int;
    assert((x.push(c) + y)[m] == c);
    if m < n {
        assert(s[m] == a[m]);
        assert(a.contains(a[m]));
    }
    if n < m {
        assert((x.push(c) + y)[n] == x[n]);
        assert(x.contains(x[n]));
    }
    assert(s.take(n) =~= a);
    assert((x.push(c) + y).take(n) =~= x);
    assert(s.skip(n + 1) =~= b);
    assert((x.push(c) + y).skip(n + 1) =~= y);
}

proof fn lemma_first_piece(a: Seq<char>, b: Seq<char>)
    requires
        !a.contains(','),
    ensures
        text::pieces(a, ',') == seq![a],
        text::pieces(a.push(',') + b, ',') == seq![a] + text::pieces(b, ','),
{
    crate::laws::text::law_pieces(a, ',');
    lemma_cut(a, b, ',');
}

proof fn lemma_items(a: Seq<char>, p: Seq<Seq<char>>, k: nat)
    requires
        k <= p.len(),
    ensures
        entries::items_of(seq![a] + p, k + 1) == entries::items_of(seq![a], 1) + entries::items_of(p, k),
    decreases k,
{
    let all = seq![a] + p;
    if k == 0 {
        reveal_with_fuel(entries::items_of, 2);
        assert(all[0] == seq![a][0]);
        assert(entries::items_of(seq![a], 1) + Seq::<Seq<char>>::empty() =~= entries::items_of(seq![a], 1));
    } else {
        lemma_items(a, p, (k - 1) as nat);
        assert(all[k as int] == p[k - 1]);
        assert(entries::items_of(all, k + 1) =~= entries::items_of(seq![a], 1) + entries::items_of(p, k));
    }
}

proof fn lemma_scores(a: Seq<char>, p: Seq<Seq<char>>, k: nat)
    requires
        k <= p.len(),
    ensures
        entries::score_items(seq![a] + p, k + 1) == entries::score_items(seq![a], 1) + entries::score_items(p, k),
    decreases k,
{
    let all = seq![a] + p;
    if k == 0 {
        reveal_with_fuel(entries::score_items, 2);
        assert(all[0] == seq![a][0]);
        assert(entries::score_items(seq![a], 1) + Seq::<(Seq<char>, i64)>::empty() =~= entries::score_items(seq![a], 1));
    } else {
        lemma_scores(a, p, (k - 1) as nat);
        assert(all[k as int] == p[k - 1]);
        assert(entries::score_items(all, k + 1) =~= entries::score_items(seq![a], 1) + entries::score_items(p, k));
    }
}

proof fn lemma_kinds(a: Seq<char>, p: Seq<Seq<char>>, k: nat)
    requires
        k <= p.len(),
    ensures
        entries::kind_items(seq![a] + p, k + 1) == entries::kind_items(seq![a], 1) + entries::kind_items(p, k),
    decreases k,
{
    let all = seq![a] + p;
    if k == 0 {
        reveal_with_fuel(entries::kind_items, 2);
        assert(all[0] == seq![a][0]);
        assert(entries::kind_items(seq![a], 1) + Seq::<(Seq<char>, GossipValidatorKind)>::empty() =~= entries::kind_items(seq![a], 1));
    } else {
        lemma_kinds(a, p, (k - 1) as nat);
        assert(all[k as int] == p[k - 1]);
        assert(entries::kind_items(all, k + 1) =~= entries::kind_items(seq![a], 1) + entries::kind_items(p, k));
    }
}

} // verus!
