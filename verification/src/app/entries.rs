//! The entries of a configuration text: lines of the form `key = value`.

use vstd::prelude::*;
use vstd::string::StringExecFns;

use crate::networking::discovery;
use crate::networking::peer_manager;
use crate::networking::runtime;
use crate::networking::validate::GossipValidatorKind;
use crate::numbers;
use crate::text;

verus! {

/// A topic with a leading slash and without white space at its ends.
pub open spec fn canonical_topic(topic: Seq<char>) -> Seq<char> {
    let t = text::trimmed(topic);
    if t.len() > 0 && t[0] == '/' {
        t
    } else {
        "/"@ + t
    }
}

/// Writes a topic with a leading slash.
pub fn canonicalize_topic(topic: &[char]) -> (r: String)
    ensures
        r@ == canonical_topic(topic@),
{
    let t = text::trim(topic);
    if t.len() > 0 && t[0] == '/' {
        text::from_chars(t)
    } else {
        let mut s: String = "/".to_string();
        s.append(text::from_chars(t).as_str());
        s
    }
}

/// The message for an entry that cannot be read.
pub open spec fn invalid_text(name: Seq<char>, value: Seq<char>, reason: Seq<char>) -> Seq<char> {
    "Invalid "@ + name + " "@ + value + ": "@ + reason
}

fn invalid_string(name: &str, value: &[char], reason: &str) -> (r: String)
    ensures
        r@ == invalid_text(name@, value@, reason@),
{
    let mut s: String = "Invalid ".to_string();
    s.append(name);
    s.append(" ");
    s.append(text::from_chars(value).as_str());
    s.append(": ");
    s.append(reason);
    s
}

/// The unsigned number up to `max` of an entry.
pub open spec fn number_of(name: Seq<char>, value: Seq<char>, max: nat) -> Result<nat, Seq<char>> {
    match numbers::unsigned_read(value, max) {
        Ok(v) => Ok(v),
        Err(f) => Err(invalid_text(name, value, f.text())),
    }
}

fn read_number(name: &str, value: &[char], max: u64) -> (r: Result<u64, String>)
    requires
        max >= 9,
    ensures
        match r {
            Ok(v) => number_of(name@, value@, max as nat) == Ok::<nat, Seq<char>>(v as nat) && v
                <= max,
            Err(e) => number_of(name@, value@, max as nat) == Err::<nat, Seq<char>>(e@),
        },
{
    match numbers::read_unsigned(value, max) {
        Ok(v) => Ok(v),
        Err(f) => Err(invalid_string(name, value, f.message().as_str())),
    }
}

/// The signed number of an entry.
pub open spec fn integer_of(name: Seq<char>, value: Seq<char>) -> Result<int, Seq<char>> {
    match numbers::signed_read(value, i64::MAX as nat) {
        Ok(v) => Ok(v),
        Err(f) => Err(invalid_text(name, value, f.text())),
    }
}

fn read_integer(name: &str, value: &[char]) -> (r: Result<i64, String>)
    ensures
        match r {
            Ok(v) => integer_of(name@, value@) == Ok::<int, Seq<char>>(v as int),
            Err(e) => integer_of(name@, value@) == Err::<int, Seq<char>>(e@),
        },
{
    match numbers::read_i64(value) {
        Ok(v) => Ok(v),
        Err(f) => Err(invalid_string(name, value, f.message().as_str())),
    }
}

/// The switch of an entry.
pub open spec fn flag_of(name: Seq<char>, value: Seq<char>) -> Result<bool, Seq<char>> {
    if value == "1"@ || value == "true"@ || value == "yes"@ || value == "on"@ {
        Ok(true)
    } else if value == "0"@ || value == "false"@ || value == "no"@ || value == "off"@ {
        Ok(false)
    } else {
        Err(invalid_text(name, value, "expected true/false"@))
    }
}

fn read_flag(name: &str, value: &[char]) -> (r: Result<bool, String>)
    ensures
        match r {
            Ok(v) => flag_of(name@, value@) == Ok::<bool, Seq<char>>(v),
            Err(e) => flag_of(name@, value@) == Err::<bool, Seq<char>>(e@),
        },
{
    if text::spells(value, "1") || text::spells(value, "true") || text::spells(value, "yes")
        || text::spells(value, "on") {
        Ok(true)
    } else if text::spells(value, "0") || text::spells(value, "false") || text::spells(value, "no")
        || text::spells(value, "off") {
        Ok(false)
    } else {
        Err(invalid_string(name, value, "expected true/false"))
    }
}

/// The text of an entry; an empty value keeps what was there.
pub open spec fn text_of(before: Option<Seq<char>>, value: Seq<char>) -> Option<Seq<char>> {
    if value.len() == 0 {
        before
    } else {
        Some(value)
    }
}

fn put_text(field: &mut Option<String>, value: &[char])
    ensures
        discovery::option_text(*final(field)) == text_of(
            discovery::option_text(*old(field)),
            value@,
        ),
{
    if value.len() > 0 {
        *field = Some(text::from_chars(value));
    }
}

/// The first `k` items of a list, without the empty ones.
pub open spec fn items_of(parts: Seq<Seq<char>>, k: nat) -> Seq<Seq<char>>
    decreases k,
{
    if k == 0 {
        Seq::empty()
    } else {
        let before = items_of(parts, (k - 1) as nat);
        let t = text::trimmed(parts[k - 1]);
        if t.len() == 0 {
            before
        } else {
            before.push(t)
        }
    }
}

/// The items of a list whose items are separated by commas.
pub open spec fn list_of(value: Seq<char>) -> Seq<Seq<char>> {
    let parts = text::pieces(value, ',');
    items_of(parts, parts.len())
}

fn read_list(value: &[char]) -> (r: Vec<String>)
    ensures
        peer_manager::names(r@) == list_of(value@),
{
    let parts = text::split_all(value, ',');
    let ghost all = text::contents(parts@);
    let mut out: Vec<String> = Vec::new();
    assert(peer_manager::names(out@) =~= items_of(all, 0));
    let mut i: usize = 0;
    while i < parts.len()
        invariant
            i <= parts@.len(),
            all == text::contents(parts@),
            peer_manager::names(out@) == items_of(all, i as nat),
        decreases parts@.len() - i,
    {
        assert(all[i as int] == parts@[i as int]@);
        let t = text::trim(parts[i].as_slice());
        if t.len() > 0 {
            let ghost before = peer_manager::names(out@);
            let item = text::from_chars(t);
            out.push(item);
            assert(peer_manager::names(out@) =~= before.push(item@));
        }
        i = i + 1;
    }
    out
}

/// The topics of a list, each in canonical form.
pub open spec fn topics_of(value: Seq<char>) -> Seq<Seq<char>> {
    list_of(value).map_values(|t: Seq<char>| canonical_topic(t))
}

fn read_topics(value: &[char]) -> (r: Vec<String>)
    ensures
        peer_manager::names(r@) == topics_of(value@),
{
    let items = read_list(value);
    let ghost want = topics_of(value@);
    let mut out: Vec<String> = Vec::new();
    let mut i: usize = 0;
    while i < items.len()
        invariant
            i <= items@.len(),
            peer_manager::names(items@) == list_of(value@),
            want == topics_of(value@),
            peer_manager::names(out@) == want.take(i as int),
        decreases items@.len() - i,
    {
        let ghost before = peer_manager::names(out@);
        assert(peer_manager::names(items@)[i as int] == items@[i as int]@);
        let chars = text::to_chars(items[i].as_str());
        let topic = canonicalize_topic(chars.as_slice());
        out.push(topic);
        assert(peer_manager::names(out@) =~= before.push(topic@));
        assert(want.take(i + 1) =~= want.take(i as int).push(topic@));
        i = i + 1;
    }
    assert(want.take(items@.len() as int) =~= want);
    out
}

/// The topic and score of an item of the form `topic:score`.
pub open spec fn score_item(item: Seq<char>) -> Option<(Seq<char>, i64)> {
    match text::split_at_first(text::trimmed(item), ':') {
        None => None,
        Some((topic, score)) => match numbers::signed_read(
            text::trimmed(score),
            i64::MAX as nat,
        ) {
            Ok(v) => Some((canonical_topic(topic), v as i64)),
            Err(_) => None,
        },
    }
}

/// The scores among the first `k` items; other items are left out.
pub open spec fn score_items(parts: Seq<Seq<char>>, k: nat) -> Seq<(Seq<char>, i64)>
    decreases k,
{
    if k == 0 {
        Seq::empty()
    } else {
        let before = score_items(parts, (k - 1) as nat);
        match score_item(parts[k - 1]) {
            Some(e) => before.push(e),
            None => before,
        }
    }
}

/// The scores of an entry.
pub open spec fn scores_of(value: Seq<char>) -> Seq<(Seq<char>, i64)> {
    let parts = text::pieces(value, ',');
    score_items(parts, parts.len())
}

fn read_score_item(item: &[char]) -> (r: Option<(String, i64)>)
    ensures
        match r {
            Some(e) => score_item(item@) == Some((e.0@, e.1)),
            None => score_item(item@) is None,
        },
{
    match text::split_once(text::trim(item), ':') {
        None => None,
        Some((topic, score)) => match numbers::read_i64(text::trim(score)) {
            Ok(v) => Some((canonicalize_topic(topic), v)),
            Err(_) => None,
        },
    }
}

fn read_scores(value: &[char]) -> (r: Vec<(String, i64)>)
    ensures
        runtime::named(r@) == scores_of(value@),
{
    let parts = text::split_all(value, ',');
    let ghost all = text::contents(parts@);
    let mut out: Vec<(String, i64)> = Vec::new();
    assert(runtime::named(out@) =~= score_items(all, 0));
    let mut i: usize = 0;
    while i < parts.len()
        invariant
            i <= parts@.len(),
            all == text::contents(parts@),
            runtime::named(out@) == score_items(all, i as nat),
        decreases parts@.len() - i,
    {
        assert(all[i as int] == parts@[i as int]@);
        if let Some(e) = read_score_item(parts[i].as_slice()) {
            let ghost before = runtime::named(out@);
            out.push(e);
            assert(runtime::named(out@) =~= before.push((e.0@, e.1)));
        }
        i = i + 1;
    }
    out
}

/// The validation that a name stands for.
pub open spec fn kind_of(name: Seq<char>) -> GossipValidatorKind {
    if name == "block"@ {
        GossipValidatorKind::Block
    } else if name == "block_header"@ {
        GossipValidatorKind::BlockHeader
    } else if name == "attestation"@ {
        GossipValidatorKind::Attestation
    } else if name == "aggregation"@ || name == "aggregated_attestation"@ {
        GossipValidatorKind::AggregatedAttestation
    } else if name == "exit"@ {
        GossipValidatorKind::VoluntaryExit
    } else {
        GossipValidatorKind::Unchecked
    }
}

fn read_kind(name: &[char]) -> (r: GossipValidatorKind)
    ensures
        r == kind_of(name@),
{
    if text::spells(name, "block") {
        GossipValidatorKind::Block
    } else if text::spells(name, "block_header") {
        GossipValidatorKind::BlockHeader
    } else if text::spells(name, "attestation") {
        GossipValidatorKind::Attestation
    } else if text::spells(name, "aggregation") || text::spells(name, "aggregated_attestation") {
        GossipValidatorKind::AggregatedAttestation
    } else if text::spells(name, "exit") {
        GossipValidatorKind::VoluntaryExit
    } else {
        GossipValidatorKind::Unchecked
    }
}

/// The topic and validation of an item of the form `topic=kind`.
pub open spec fn kind_item(item: Seq<char>) -> Option<(Seq<char>, GossipValidatorKind)> {
    match text::split_at_first(text::trimmed(item), '=') {
        None => None,
        Some((topic, kind)) => Some((canonical_topic(topic), kind_of(text::trimmed(kind)))),
    }
}

/// The validations among the first `k` items; other items are left out.
pub open spec fn kind_items(parts: Seq<Seq<char>>, k: nat) -> Seq<(Seq<char>, GossipValidatorKind)>
    decreases k,
{
    if k == 0 {
        Seq::empty()
    } else {
        let before = kind_items(parts, (k - 1) as nat);
        match kind_item(parts[k - 1]) {
            Some(e) => before.push(e),
            None => before,
        }
    }
}

/// The validations of an entry.
pub open spec fn kinds_of(value: Seq<char>) -> Seq<(Seq<char>, GossipValidatorKind)> {
    let parts = text::pieces(value, ',');
    kind_items(parts, parts.len())
}

fn read_kind_item(item: &[char]) -> (r: Option<(String, GossipValidatorKind)>)
    ensures
        match r {
            Some(e) => kind_item(item@) == Some((e.0@, e.1)),
            None => kind_item(item@) is None,
        },
{
    match text::split_once(text::trim(item), '=') {
        None => None,
        Some((topic, kind)) => Some((canonicalize_topic(topic), read_kind(text::trim(kind)))),
    }
}

fn read_kinds(value: &[char]) -> (r: Vec<(String, GossipValidatorKind)>)
    ensures
        runtime::named(r@) == kinds_of(value@),
{
    let parts = text::split_all(value, ',');
    let ghost all = text::contents(parts@);
    let mut out: Vec<(String, GossipValidatorKind)> = Vec::new();
    assert(runtime::named(out@) =~= kind_items(all, 0));
    let mut i: usize = 0;
    while i < parts.len()
        invariant
            i <= parts@.len(),
            all == text::contents(parts@),
            runtime::named(out@) == kind_items(all, i as nat),
        decreases parts@.len() - i,
    {
        assert(all[i as int] == parts@[i as int]@);
        if let Some(e) = read_kind_item(parts[i].as_slice()) {
            let ghost before = runtime::named(out@);
            out.push(e);
            assert(runtime::named(out@) =~= before.push((e.0@, e.1)));
        }
        i = i + 1;
    }
    out
}

/// Entries on the metrics and HTTP servers.
pub struct ServerDraft {
    pub metrics: Option<bool>,
    pub metrics_address: Option<String>,
    pub metrics_port: Option<u16>,
    pub http_api: Option<bool>,
    pub http_address: Option<String>,
    pub http_port: Option<u16>,
    pub metrics_node_name: Option<String>,
    pub metrics_client_name: Option<String>,
}

/// The value of a [`ServerDraft`].
#[verifier::ext_equal]
pub struct ServerModel {
    pub metrics: Option<bool>,
    pub metrics_address: Option<Seq<char>>,
    pub metrics_port: Option<u16>,
    pub http_api: Option<bool>,
    pub http_address: Option<Seq<char>>,
    pub http_port: Option<u16>,
    pub metrics_node_name: Option<Seq<char>>,
    pub metrics_client_name: Option<Seq<char>>,
}

impl View for ServerDraft {
    type V = ServerModel;

    open spec fn view(&self) -> ServerModel {
        ServerModel {
            metrics: self.metrics,
            metrics_address: discovery::option_text(self.metrics_address),
            metrics_port: self.metrics_port,
            http_api: self.http_api,
            http_address: discovery::option_text(self.http_address),
            http_port: self.http_port,
            metrics_node_name: discovery::option_text(self.metrics_node_name),
            metrics_client_name: discovery::option_text(self.metrics_client_name),
        }
    }
}

/// No entry on the servers.
pub open spec fn no_server_entries() -> ServerModel {
    ServerModel {
        metrics: None,
        metrics_address: None,
        metrics_port: None,
        http_api: None,
        http_address: None,
        http_port: None,
        metrics_node_name: None,
        metrics_client_name: None,
    }
}

/// What an entry makes of the draft; `None` where its key is no server key.
pub open spec fn server_entry(d: ServerModel, key: Seq<char>, value: Seq<char>) -> Option<
    Result<ServerModel, Seq<char>>,
> {
    if key == "metrics"@ {
        Some(
            match flag_of(key, value) {
                Ok(b) => Ok(ServerModel { metrics: Some(b), ..d }),
                Err(e) => Err(e),
            },
        )
    } else if key == "metrics_address"@ {
        Some(Ok(ServerModel { metrics_address: text_of(d.metrics_address, value), ..d }))
    } else if key == "metrics_port"@ {
        Some(
            match number_of(key, value, 65535) {
                Ok(n) => Ok(ServerModel { metrics_port: Some(n as u16), ..d }),
                Err(e) => Err(e),
            },
        )
    } else if key == "http_api"@ {
        Some(
            match flag_of(key, value) {
                Ok(b) => Ok(ServerModel { http_api: Some(b), ..d }),
                Err(e) => Err(e),
            },
        )
    } else if key == "http_address"@ {
        Some(Ok(ServerModel { http_address: text_of(d.http_address, value), ..d }))
    } else if key == "http_port"@ {
        Some(
            match number_of(key, value, 65535) {
                Ok(n) => Ok(ServerModel { http_port: Some(n as u16), ..d }),
                Err(e) => Err(e),
            },
        )
    } else if key == "metrics_node_name"@ {
        Some(Ok(ServerModel { metrics_node_name: text_of(d.metrics_node_name, value), ..d }))
    } else if key == "metrics_client_name"@ {
        Some(Ok(ServerModel { metrics_client_name: text_of(d.metrics_client_name, value), ..d }))
    } else {
        None
    }
}

impl ServerDraft {
    /// A draft without entries.
    pub fn new() -> (r: Self)
        ensures
            r@ == no_server_entries(),
    {
        ServerDraft {
            metrics: None,
            metrics_address: None,
            metrics_port: None,
            http_api: None,
            http_address: None,
            http_port: None,
            metrics_node_name: None,
            metrics_client_name: None,
        }
    }

    /// Takes in an entry, if its key is a server key.
    pub fn apply(&mut self, key: &[char], value: &[char]) -> (r: Option<Result<(), String>>)
        ensures
            match r {
                None => server_entry(old(self)@, key@, value@) is None && final(self)@ == old(self)@,
                Some(Ok(())) => server_entry(old(self)@, key@, value@) == Some(
                    Ok::<ServerModel, Seq<char>>(final(self)@),
                ),
                Some(Err(e)) => server_entry(old(self)@, key@, value@) == Some(
                    Err::<ServerModel, Seq<char>>(e@),
                ),
            },
    {
        if text::spells(key, "metrics") {
            match read_flag("metrics", value) {
                Ok(b) => {
                    self.metrics = Some(b);
                },
                Err(e) => {
                    return Some(Err(e));
                },
            }
        } else if text::spells(key, "metrics_address") {
            put_text(&mut self.metrics_address, value);
        } else if text::spells(key, "metrics_port") {
            match read_number("metrics_port", value, 65535) {
                Ok(n) => {
                    self.metrics_port = Some(n as u16);
                },
                Err(e) => {
                    return Some(Err(e));
                },
            }
        } else if text::spells(key, "http_api") {
            match read_flag("http_api", value) {
                Ok(b) => {
                    self.http_api = Some(b);
                },
                Err(e) => {
                    return Some(Err(e));
                },
            }
        } else if text::spells(key, "http_address") {
            put_text(&mut self.http_address, value);
        } else if text::spells(key, "http_port") {
            match read_number("http_port", value, 65535) {
                Ok(n) => {
                    self.http_port = Some(n as u16);
                },
                Err(e) => {
                    return Some(Err(e));
                },
            }
        } else if text::spells(key, "metrics_node_name") {
            put_text(&mut self.metrics_node_name, value);
        } else if text::spells(key, "metrics_client_name") {
            put_text(&mut self.metrics_client_name, value);
        } else {
            return None;
        }
        Some(Ok(()))
    }
}

/// A table by name, if there is one.
pub open spec fn option_named<T>(table: Option<Vec<(String, T)>>) -> Option<Seq<(Seq<char>, T)>> {
    match table {
        Some(v) => Some(runtime::named(v@)),
        None => None,
    }
}

/// Entries on peers, topics and limits.
pub struct NetworkDraft {
    pub discovery_interval_secs: Option<u64>,
    pub score_decay_interval_secs: Option<u64>,
    pub score_decay_amount: Option<i64>,
    pub ban_threshold: Option<i64>,
    pub listen_addr: Option<String>,
    pub node_key_path: Option<String>,
    pub bootnodes: Vec<String>,
    pub bootnodes_file: Option<String>,
    pub trusted_peers: Vec<String>,
    pub allowed_topics: Vec<String>,
    pub topic_scores: Option<Vec<(String, i64)>>,
    pub topic_validators: Option<Vec<(String, GossipValidatorKind)>>,
    pub max_gossip_bytes: Option<usize>,
    pub max_reqresp_bytes: Option<usize>,
}

/// The value of a [`NetworkDraft`].
#[verifier::ext_equal]
pub struct NetworkModel {
    pub discovery_interval_secs: Option<u64>,
    pub score_decay_interval_secs: Option<u64>,
    pub score_decay_amount: Option<i64>,
    pub ban_threshold: Option<i64>,
    pub listen_addr: Option<Seq<char>>,
    pub node_key_path: Option<Seq<char>>,
    pub bootnodes: Seq<Seq<char>>,
    pub bootnodes_file: Option<Seq<char>>,
    pub trusted_peers: Seq<Seq<char>>,
    pub allowed_topics: Seq<Seq<char>>,
    pub topic_scores: Option<Seq<(Seq<char>, i64)>>,
    pub topic_validators: Option<Seq<(Seq<char>, GossipValidatorKind)>>,
    pub max_gossip_bytes: Option<usize>,
    pub max_reqresp_bytes: Option<usize>,
}

impl View for NetworkDraft {
    type V = NetworkModel;

    open spec fn view(&self) -> NetworkModel {
        NetworkModel {
            discovery_interval_secs: self.discovery_interval_secs,
            score_decay_interval_secs: self.score_decay_interval_secs,
            score_decay_amount: self.score_decay_amount,
            ban_threshold: self.ban_threshold,
            listen_addr: discovery::option_text(self.listen_addr),
            node_key_path: discovery::option_text(self.node_key_path),
            bootnodes: peer_manager::names(self.bootnodes@),
            bootnodes_file: discovery::option_text(self.bootnodes_file),
            trusted_peers: peer_manager::names(self.trusted_peers@),
            allowed_topics: peer_manager::names(self.allowed_topics@),
            topic_scores: option_named(self.topic_scores),
            topic_validators: option_named(self.topic_validators),
            max_gossip_bytes: self.max_gossip_bytes,
            max_reqresp_bytes: self.max_reqresp_bytes,
        }
    }
}

/// No entry on the network.
pub open spec fn no_network_entries() -> NetworkModel {
    NetworkModel {
        discovery_interval_secs: None,
        score_decay_interval_secs: None,
        score_decay_amount: None,
        ban_threshold: None,
        listen_addr: None,
        node_key_path: None,
        bootnodes: Seq::empty(),
        bootnodes_file: None,
        trusted_peers: Seq::empty(),
        allowed_topics: Seq::empty(),
        topic_scores: None,
        topic_validators: None,
        max_gossip_bytes: None,
        max_reqresp_bytes: None,
    }
}

/// What an entry makes of the draft; `None` where its key is no network key.
pub open spec fn network_entry(d: NetworkModel, key: Seq<char>, value: Seq<char>) -> Option<
    Result<NetworkModel, Seq<char>>,
> {
    if key == "discovery_interval_secs"@ {
        Some(
            match number_of(key, value, u64::MAX as nat) {
                Ok(n) => Ok(NetworkModel { discovery_interval_secs: Some(n as u64), ..d }),
                Err(e) => Err(e),
            },
        )
    } else if key == "score_decay_interval_secs"@ {
        Some(
            match number_of(key, value, u64::MAX as nat) {
                Ok(n) => Ok(NetworkModel { score_decay_interval_secs: Some(n as u64), ..d }),
                Err(e) => Err(e),
            },
        )
    } else if key == "score_decay_amount"@ {
        Some(
            match integer_of(key, value) {
                Ok(n) => Ok(NetworkModel { score_decay_amount: Some(n as i64), ..d }),
                Err(e) => Err(e),
            },
        )
    } else if key == "ban_threshold"@ {
        Some(
            match integer_of(key, value) {
                Ok(n) => Ok(NetworkModel { ban_threshold: Some(n as i64), ..d }),
                Err(e) => Err(e),
            },
        )
    } else if key == "listen_addr"@ {
        Some(Ok(NetworkModel { listen_addr: text_of(d.listen_addr, value), ..d }))
    } else if key == "node_key_path"@ {
        Some(Ok(NetworkModel { node_key_path: text_of(d.node_key_path, value), ..d }))
    } else if key == "bootnodes"@ {
        Some(Ok(NetworkModel { bootnodes: list_of(value), ..d }))
    } else if key == "bootnodes_file"@ {
        Some(Ok(NetworkModel { bootnodes_file: text_of(d.bootnodes_file, value), ..d }))
    } else if key == "trusted_peers"@ {
        Some(Ok(NetworkModel { trusted_peers: list_of(value), ..d }))
    } else if key == "allowed_topics"@ {
        Some(Ok(NetworkModel { allowed_topics: topics_of(value), ..d }))
    } else if key == "topic_scores"@ {
        Some(Ok(NetworkModel { topic_scores: Some(scores_of(value)), ..d }))
    } else if key == "topic_validators"@ {
        Some(Ok(NetworkModel { topic_validators: Some(kinds_of(value)), ..d }))
    } else if key == "max_gossip_bytes"@ {
        Some(
            match number_of(key, value, usize::MAX as nat) {
                Ok(n) => Ok(NetworkModel { max_gossip_bytes: Some(n as usize), ..d }),
                Err(e) => Err(e),
            },
        )
    } else if key == "max_reqresp_bytes"@ {
        Some(
            match number_of(key, value, usize::MAX as nat) {
                Ok(n) => Ok(NetworkModel { max_reqresp_bytes: Some(n as usize), ..d }),
                Err(e) => Err(e),
            },
        )
    } else {
        None
    }
}

impl NetworkDraft {
    /// A draft without entries.
    pub fn new() -> (r: Self)
        ensures
            r@ == no_network_entries(),
    {
        let r = NetworkDraft {
            discovery_interval_secs: None,
            score_decay_interval_secs: None,
            score_decay_amount: None,
            ban_threshold: None,
            listen_addr: None,
            node_key_path: None,
            bootnodes: Vec::new(),
            bootnodes_file: None,
            trusted_peers: Vec::new(),
            allowed_topics: Vec::new(),
            topic_scores: None,
            topic_validators: None,
            max_gossip_bytes: None,
            max_reqresp_bytes: None,
        };
        assert(r@ =~= no_network_entries());
        r
    }

    /// Takes in an entry, if its key is a network key.
    pub fn apply(&mut self, key: &[char], value: &[char]) -> (r: Option<Result<(), String>>)
        ensures
            match r {
                None => network_entry(old(self)@, key@, value@) is None && final(self)@ == old(self)@,
                Some(Ok(())) => network_entry(old(self)@, key@, value@) == Some(
                    Ok::<NetworkModel, Seq<char>>(final(self)@),
                ),
                Some(Err(e)) => network_entry(old(self)@, key@, value@) == Some(
                    Err::<NetworkModel, Seq<char>>(e@),
                ),
            },
    {
        if text::spells(key, "discovery_interval_secs") {
            match read_number("discovery_interval_secs", value, u64::MAX) {
                Ok(n) => {
                    self.discovery_interval_secs = Some(n);
                },
                Err(e) => {
                    return Some(Err(e));
                },
            }
        } else if text::spells(key, "score_decay_interval_secs") {
            match read_number("score_decay_interval_secs", value, u64::MAX) {
                Ok(n) => {
                    self.score_decay_interval_secs = Some(n);
                },
                Err(e) => {
                    return Some(Err(e));
                },
            }
        } else if text::spells(key, "score_decay_amount") {
            match read_integer("score_decay_amount", value) {
                Ok(n) => {
                    self.score_decay_amount = Some(n);
                },
                Err(e) => {
                    return Some(Err(e));
                },
            }
        } else if text::spells(key, "ban_threshold") {
            match read_integer("ban_threshold", value) {
                Ok(n) => {
                    self.ban_threshold = Some(n);
                },
                Err(e) => {
                    return Some(Err(e));
                },
            }
        } else if text::spells(key, "listen_addr") {
            put_text(&mut self.listen_addr, value);
        } else if text::spells(key, "node_key_path") {
            put_text(&mut self.node_key_path, value);
        } else if text::spells(key, "bootnodes") {
            self.bootnodes = read_list(value);
        } else if text::spells(key, "bootnodes_file") {
            put_text(&mut self.bootnodes_file, value);
        } else if text::spells(key, "trusted_peers") {
            self.trusted_peers = read_list(value);
        } else if text::spells(key, "allowed_topics") {
            self.allowed_topics = read_topics(value);
        } else if text::spells(key, "topic_scores") {
            self.topic_scores = Some(read_scores(value));
        } else if text::spells(key, "topic_validators") {
            self.topic_validators = Some(read_kinds(value));
        } else if text::spells(key, "max_gossip_bytes") {
            match read_number("max_gossip_bytes", value, usize::MAX as u64) {
                Ok(n) => {
                    self.max_gossip_bytes = Some(n as usize);
                },
                Err(e) => {
                    return Some(Err(e));
                },
            }
        } else if text::spells(key, "max_reqresp_bytes") {
            match read_number("max_reqresp_bytes", value, usize::MAX as u64) {
                Ok(n) => {
                    self.max_reqresp_bytes = Some(n as usize);
                },
                Err(e) => {
                    return Some(Err(e));
                },
            }
        } else {
            return None;
        }
        Some(Ok(()))
    }
}

/// Entries on the chain and the node's duties.
pub struct DutyDraft {
    pub genesis_time: Option<u64>,
    pub is_aggregator: Option<bool>,
    pub attestation_committee_count: Option<u64>,
    pub validator_count: Option<usize>,
    pub local_validator_index: Option<u64>,
    pub storage_dir: Option<String>,
    pub validator_config_path: Option<String>,
    pub checkpoint_sync_url: Option<String>,
}

/// The value of a [`DutyDraft`].
#[verifier::ext_equal]
pub struct DutyModel {
    pub genesis_time: Option<u64>,
    pub is_aggregator: Option<bool>,
    pub attestation_committee_count: Option<u64>,
    pub validator_count: Option<usize>,
    pub local_validator_index: Option<u64>,
    pub storage_dir: Option<Seq<char>>,
    pub validator_config_path: Option<Seq<char>>,
    pub checkpoint_sync_url: Option<Seq<char>>,
}

impl View for DutyDraft {
    type V = DutyModel;

    open spec fn view(&self) -> DutyModel {
        DutyModel {
            genesis_time: self.genesis_time,
            is_aggregator: self.is_aggregator,
            attestation_committee_count: self.attestation_committee_count,
            validator_count: self.validator_count,
            local_validator_index: self.local_validator_index,
            storage_dir: discovery::option_text(self.storage_dir),
            validator_config_path: discovery::option_text(self.validator_config_path),
            checkpoint_sync_url: discovery::option_text(self.checkpoint_sync_url),
        }
    }
}

/// No entry on the duties.
pub open spec fn no_duty_entries() -> DutyModel {
    DutyModel {
        genesis_time: None,
        is_aggregator: None,
        attestation_committee_count: None,
        validator_count: None,
        local_validator_index: None,
        storage_dir: None,
        validator_config_path: None,
        checkpoint_sync_url: None,
    }
}

/// What an entry makes of the draft; `None` where its key is no duty key.
pub open spec fn duty_entry(d: DutyModel, key: Seq<char>, value: Seq<char>) -> Option<
    Result<DutyModel, Seq<char>>,
> {
    if key == "genesis_time"@ {
        Some(
            match number_of(key, value, u64::MAX as nat) {
                Ok(n) => Ok(DutyModel { genesis_time: Some(n as u64), ..d }),
                Err(e) => Err(e),
            },
        )
    } else if key == "is_aggregator"@ {
        Some(
            match flag_of(key, value) {
                Ok(b) => Ok(DutyModel { is_aggregator: Some(b), ..d }),
                Err(e) => Err(e),
            },
        )
    } else if key == "attestation_committee_count"@ {
        Some(
            match number_of(key, value, u64::MAX as nat) {
                Ok(n) => if n == 0 {
                    Err(invalid_text(key, "0"@, "must be > 0"@))
                } else {
                    Ok(DutyModel { attestation_committee_count: Some(n as u64), ..d })
                },
                Err(e) => Err(e),
            },
        )
    } else if key == "validator_count"@ {
        Some(
            match number_of(key, value, usize::MAX as nat) {
                Ok(n) => if n == 0 {
                    Err(invalid_text(key, "0"@, "must be > 0"@))
                } else {
                    Ok(DutyModel { validator_count: Some(n as usize), ..d })
                },
                Err(e) => Err(e),
            },
        )
    } else if key == "local_validator_index"@ {
        Some(
            match number_of(key, value, u64::MAX as nat) {
                Ok(n) => Ok(DutyModel { local_validator_index: Some(n as u64), ..d }),
                Err(e) => Err(e),
            },
        )
    } else if key == "storage_dir"@ {
        Some(Ok(DutyModel { storage_dir: text_of(d.storage_dir, value), ..d }))
    } else if key == "validator_config_path"@ {
        Some(Ok(DutyModel { validator_config_path: text_of(d.validator_config_path, value), ..d }))
    } else if key == "checkpoint_sync_url"@ {
        Some(Ok(DutyModel { checkpoint_sync_url: text_of(d.checkpoint_sync_url, value), ..d }))
    } else {
        None
    }
}

fn zero_string(name: &str) -> (r: String)
    ensures
        r@ == invalid_text(name@, "0"@, "must be > 0"@),
{
    let zero = text::to_chars("0");
    invalid_string(name, zero.as_slice(), "must be > 0")
}

impl DutyDraft {
    /// A draft without entries.
    pub fn new() -> (r: Self)
        ensures
            r@ == no_duty_entries(),
    {
        DutyDraft {
            genesis_time: None,
            is_aggregator: None,
            attestation_committee_count: None,
            validator_count: None,
            local_validator_index: None,
            storage_dir: None,
            validator_config_path: None,
            checkpoint_sync_url: None,
        }
    }

    /// Takes in an entry, if its key is a duty key.
    pub fn apply(&mut self, key: &[char], value: &[char]) -> (r: Option<Result<(), String>>)
        ensures
            match r {
                None => duty_entry(old(self)@, key@, value@) is None && final(self)@ == old(self)@,
                Some(Ok(())) => duty_entry(old(self)@, key@, value@) == Some(
                    Ok::<DutyModel, Seq<char>>(final(self)@),
                ),
                Some(Err(e)) => duty_entry(old(self)@, key@, value@) == Some(
                    Err::<DutyModel, Seq<char>>(e@),
                ),
            },
    {
        if text::spells(key, "genesis_time") {
            match read_number("genesis_time", value, u64::MAX) {
                Ok(n) => {
                    self.genesis_time = Some(n);
                },
                Err(e) => {
                    return Some(Err(e));
                },
            }
        } else if text::spells(key, "is_aggregator") {
            match read_flag("is_aggregator", value) {
                Ok(b) => {
                    self.is_aggregator = Some(b);
                },
                Err(e) => {
                    return Some(Err(e));
                },
            }
        } else if text::spells(key, "attestation_committee_count") {
            match read_number("attestation_committee_count", value, u64::MAX) {
                Ok(n) => {
                    if n == 0 {
                        return Some(Err(zero_string("attestation_committee_count")));
                    }
                    self.attestation_committee_count = Some(n);
                },
                Err(e) => {
                    return Some(Err(e));
                },
            }
        } else if text::spells(key, "validator_count") {
            match read_number("validator_count", value, usize::MAX as u64) {
                Ok(n) => {
                    if n == 0 {
                        return Some(Err(zero_string("validator_count")));
                    }
                    self.validator_count = Some(n as usize);
                },
                Err(e) => {
                    return Some(Err(e));
                },
            }
        } else if text::spells(key, "local_validator_index") {
            match read_number("local_validator_index", value, u64::MAX) {
                Ok(n) => {
                    self.local_validator_index = Some(n);
                },
                Err(e) => {
                    return Some(Err(e));
                },
            }
        } else if text::spells(key, "storage_dir") {
            put_text(&mut self.storage_dir, value);
        } else if text::spells(key, "validator_config_path") {
            put_text(&mut self.validator_config_path, value);
        } else if text::spells(key, "checkpoint_sync_url") {
            put_text(&mut self.checkpoint_sync_url, value);
        } else {
            return None;
        }
        Some(Ok(()))
    }
}

/// All entries of a configuration text.
pub struct SettingsDraft {
    pub server: ServerDraft,
    pub network: NetworkDraft,
    pub duty: DutyDraft,
}

/// The value of a [`SettingsDraft`].
#[verifier::ext_equal]
pub struct DraftModel {
    pub server: ServerModel,
    pub network: NetworkModel,
    pub duty: DutyModel,
}

impl View for SettingsDraft {
    type V = DraftModel;

    open spec fn view(&self) -> DraftModel {
        DraftModel { server: self.server@, network: self.network@, duty: self.duty@ }
    }
}

/// No entries.
pub open spec fn no_entries() -> DraftModel {
    DraftModel {
        server: no_server_entries(),
        network: no_network_entries(),
        duty: no_duty_entries(),
    }
}

/// What an entry makes of the draft. Entries with unknown keys change nothing.
pub open spec fn entry_applied(d: DraftModel, key: Seq<char>, value: Seq<char>) -> Result<
    DraftModel,
    Seq<char>,
> {
    match server_entry(d.server, key, value) {
        Some(Ok(server)) => Ok(DraftModel { server, ..d }),
        Some(Err(e)) => Err(e),
        None => match network_entry(d.network, key, value) {
            Some(Ok(network)) => Ok(DraftModel { network, ..d }),
            Some(Err(e)) => Err(e),
            None => match duty_entry(d.duty, key, value) {
                Some(Ok(duty)) => Ok(DraftModel { duty, ..d }),
                Some(Err(e)) => Err(e),
                None => Ok(d),
            },
        },
    }
}

/// Key and value of a line: `None` for a blank line or a comment.
pub open spec fn line_entry(line: Seq<char>) -> Result<Option<(Seq<char>, Seq<char>)>, Seq<char>> {
    let t = text::trimmed(line);
    if t.len() == 0 || t[0] == '#' {
        Ok(None)
    } else {
        match text::split_at_first(t, '=') {
            None => Err("Invalid config line: "@ + t),
            Some((key, value)) => Ok(Some((text::trimmed(key), text::trimmed(value)))),
        }
    }
}

/// Reads the entry of a line.
pub fn read_line<'a>(line: &'a [char]) -> (r: Result<Option<(&'a [char], &'a [char])>, String>)
    ensures
        match r {
            Ok(None) => line_entry(line@) == Ok::<Option<(Seq<char>, Seq<char>)>, Seq<char>>(None),
            Ok(Some(e)) => line_entry(line@) == Ok::<
                Option<(Seq<char>, Seq<char>)>,
                Seq<char>,
            >(Some((e.0@, e.1@))),
            Err(e) => line_entry(line@) == Err::<Option<(Seq<char>, Seq<char>)>, Seq<char>>(e@),
        },
{
    let t = text::trim(line);
    if t.len() == 0 || t[0] == '#' {
        return Ok(None);
    }
    match text::split_once(t, '=') {
        None => {
            let mut s: String = "Invalid config line: ".to_string();
            s.append(text::from_chars(t).as_str());
            Err(s)
        },
        Some((key, value)) => Ok(Some((text::trim(key), text::trim(value)))),
    }
}

/// The draft after the first `k` lines, or the first fault.
pub open spec fn draft_of(lines: Seq<Seq<char>>, k: nat) -> Result<DraftModel, Seq<char>>
    decreases k,
{
    if k == 0 {
        Ok(no_entries())
    } else {
        match draft_of(lines, (k - 1) as nat) {
            Err(e) => Err(e),
            Ok(d) => match line_entry(lines[k - 1]) {
                Err(e) => Err(e),
                Ok(None) => Ok(d),
                Ok(Some((key, value))) => entry_applied(d, key, value),
            },
        }
    }
}

proof fn lemma_draft_fault_stays(lines: Seq<Seq<char>>, j: nat, k: nat)
    requires
        j <= k,
        draft_of(lines, j) is Err,
    ensures
        draft_of(lines, k) == draft_of(lines, j),
    decreases k,
{
    if j < k {
        lemma_draft_fault_stays(lines, j, (k - 1) as nat);
    }
}

/// The entries of a configuration text, or the first fault.
pub open spec fn text_draft(s: Seq<char>) -> Result<DraftModel, Seq<char>> {
    draft_of(text::lines(s), text::lines(s).len())
}

impl SettingsDraft {
    /// Takes in an entry.
    pub fn apply(&mut self, key: &[char], value: &[char]) -> (r: Result<(), String>)
        ensures
            match r {
                Ok(()) => entry_applied(old(self)@, key@, value@) == Ok::<DraftModel, Seq<char>>(
                    final(self)@,
                ),
                Err(e) => entry_applied(old(self)@, key@, value@) == Err::<DraftModel, Seq<char>>(
                    e@,
                ),
            },
    {
        match self.server.apply(key, value) {
            Some(r) => {
                return r;
            },
            None => {},
        }
        match self.network.apply(key, value) {
            Some(r) => {
                return r;
            },
            None => {},
        }
        match self.duty.apply(key, value) {
            Some(r) => {
                return r;
            },
            None => {},
        }
        Ok(())
    }

    /// Reads the entries of a configuration text.
    pub fn read(s: &[char]) -> (r: Result<SettingsDraft, String>)
        ensures
            crate::ssz::view_outcome(r) == text_draft(s@),
    {
        let lines = text::split_lines(s);
        let ghost all = text::contents(lines@);
        let mut draft = SettingsDraft {
            server: ServerDraft::new(),
            network: NetworkDraft::new(),
            duty: DutyDraft::new(),
        };
        let mut i: usize = 0;
        while i < lines.len()
            invariant
                i <= lines@.len(),
                all == text::contents(lines@),
                all == text::lines(s@),
                draft_of(all, i as nat) == Ok::<DraftModel, Seq<char>>(draft@),
            decreases lines@.len() - i,
        {
            assert(all[i as int] == lines@[i as int]@);
            match read_line(lines[i].as_slice()) {
                Err(e) => {
                    proof {
                        lemma_draft_fault_stays(all, (i + 1) as nat, all.len());
                    }
                    return Err(e);
                },
                Ok(None) => {},
                Ok(Some((key, value))) => {
                    if let Err(e) = draft.apply(key, value) {
                        proof {
                            lemma_draft_fault_stays(all, (i + 1) as nat, all.len());
                        }
                        return Err(e);
                    }
                },
            }
            i = i + 1;
        }
        Ok(draft)
    }
}

/// The genesis time after the first `k` lines when no other key is read, or the
/// first fault.
pub open spec fn genesis_time_of(lines: Seq<Seq<char>>, k: nat) -> Result<Option<u64>, Seq<char>>
    decreases k,
{
    if k == 0 {
        Ok(None)
    } else {
        match genesis_time_of(lines, (k - 1) as nat) {
            Err(e) => Err(e),
            Ok(t) => match line_entry(lines[k - 1]) {
                Err(e) => Err(e),
                Ok(None) => Ok(t),
                Ok(Some((key, value))) => if key == "genesis_time"@ {
                    match number_of(key, value, u64::MAX as nat) {
                        Ok(n) => Ok(Some(n as u64)),
                        Err(e) => Err(e),
                    }
                } else {
                    Ok(t)
                },
            },
        }
    }
}

proof fn lemma_time_fault_stays(lines: Seq<Seq<char>>, j: nat, k: nat)
    requires
        j <= k,
        genesis_time_of(lines, j) is Err,
    ensures
        genesis_time_of(lines, k) == genesis_time_of(lines, j),
    decreases k,
{
    if j < k {
        lemma_time_fault_stays(lines, j, (k - 1) as nat);
    }
}

/// Reads the genesis time of a configuration text; other keys are not read.
pub fn read_genesis_time(s: &[char]) -> (r: Result<Option<u64>, String>)
    ensures
        crate::ssz::plain_outcome(r) == genesis_time_of(text::lines(s@), text::lines(s@).len()),
{
    let lines = text::split_lines(s);
    let ghost all = text::contents(lines@);
    let mut time: Option<u64> = None;
    let mut i: usize = 0;
    while i < lines.len()
        invariant
            i <= lines@.len(),
            all == text::contents(lines@),
            all == text::lines(s@),
            genesis_time_of(all, i as nat) == Ok::<Option<u64>, Seq<char>>(time),
        decreases lines@.len() - i,
    {
        assert(all[i as int] == lines@[i as int]@);
        match read_line(lines[i].as_slice()) {
            Err(e) => {
                proof {
                    lemma_time_fault_stays(all, (i + 1) as nat, all.len());
                }
                return Err(e);
            },
            Ok(None) => {},
            Ok(Some((key, value))) => {
                if text::spells(key, "genesis_time") {
                    match read_number("genesis_time", value, u64::MAX) {
                        Ok(n) => {
                            time = Some(n);
                        },
                        Err(e) => {
                            proof {
                                lemma_time_fault_stays(all, (i + 1) as nat, all.len());
                            }
                            return Err(e);
                        },
                    }
                }
            },
        }
        i = i + 1;
    }
    Ok(time)
}

/// The key of the genesis time is a key of its own.
proof fn lemma_genesis_key(d: DraftModel, value: Seq<char>)
    ensures
        server_entry(d.server, "genesis_time"@, value) is None,
        network_entry(d.network, "genesis_time"@, value) is None,
{
    let key = "genesis_time"@;
    reveal_strlit("genesis_time");
    reveal_strlit("metrics");
    reveal_strlit("metrics_address");
    reveal_strlit("metrics_port");
    reveal_strlit("http_api");
    reveal_strlit("http_address");
    reveal_strlit("http_port");
    reveal_strlit("metrics_node_name");
    reveal_strlit("metrics_client_name");
    reveal_strlit("discovery_interval_secs");
    reveal_strlit("score_decay_interval_secs");
    reveal_strlit("score_decay_amount");
    reveal_strlit("ban_threshold");
    reveal_strlit("listen_addr");
    reveal_strlit("node_key_path");
    reveal_strlit("bootnodes");
    reveal_strlit("bootnodes_file");
    reveal_strlit("trusted_peers");
    reveal_strlit("allowed_topics");
    reveal_strlit("topic_scores");
    reveal_strlit("topic_validators");
    reveal_strlit("max_gossip_bytes");
    reveal_strlit("max_reqresp_bytes");
    assert(key.len() == 12 && key[0] == 'g');
    assert("metrics_port"@[0] == 'm');
    assert("http_address"@[0] == 'h');
    assert("topic_scores"@[0] == 't');
}

/// An entry with another key leaves the genesis time as it is.
proof fn lemma_other_keys(d: DraftModel, key: Seq<char>, value: Seq<char>)
    requires
        key != "genesis_time"@,
        entry_applied(d, key, value) is Ok,
    ensures
        entry_applied(d, key, value)->Ok_0.duty.genesis_time == d.duty.genesis_time,
{
}

/// Where all entries can be read, reading the genesis time alone gives the same
/// genesis time.
pub proof fn law_genesis_time_alone(lines: Seq<Seq<char>>, k: nat)
    requires
        draft_of(lines, k) is Ok,
    ensures
        genesis_time_of(lines, k) == Ok::<Option<u64>, Seq<char>>(
            draft_of(lines, k)->Ok_0.duty.genesis_time,
        ),
    decreases k,
{
    if k > 0 {
        law_genesis_time_alone(lines, (k - 1) as nat);
        let d = draft_of(lines, (k - 1) as nat)->Ok_0;
        match line_entry(lines[k - 1]) {
            Ok(Some((key, value))) => {
                if key == "genesis_time"@ {
                    lemma_genesis_key(d, value);
                } else {
                    lemma_other_keys(d, key, value);
                }
            },
            _ => {},
        }
    }
}

} // verus!
