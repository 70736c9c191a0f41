//! The networking runtime: its configuration and its inbound pipelines.

use vstd::prelude::*;
use vstd::string::StringExecFns;

use crate::networking::discovery;
use crate::networking::discovery::Discovery;
use crate::networking::events;
use crate::networking::events::{put_event, EventModel, NetworkEvent};
use crate::networking::gossip::{Gossip, GossipMessage, OUTBOUND_PER_SEC};
use crate::networking::p2p::P2pConfig;
use crate::networking::peer_manager;
use crate::networking::peer_manager::{CountsModel, PeerManager, PeersModel, NANOS_PER_SEC};
use crate::networking::rate_limiter::{LimiterModel, RateLimiter};
use crate::networking::reqresp::{ReqResp, ReqRespMessage, ReqRespModel};
use crate::networking::validate::GossipValidatorKind;
use crate::text;

verus! {

/// Gossip messages that a peer may send within a second.
pub const INBOUND_GOSSIP_PER_SEC: u64 = 256;

/// Requests and responses of one protocol that a peer may send within a second.
pub const INBOUND_REQRESP_PER_SEC: u64 = 128;

/// Seconds of the window for messages of one topic.
pub const INBOUND_TOPIC_SECS: u64 = 5;

/// Messages of one topic that a peer may send within that window.
pub const INBOUND_TOPIC_MAX: u64 = 10;

/// The configuration of the networking runtime.
#[derive(Clone, Debug)]
pub struct NetworkingConfig {
    /// Seconds between two dials of a seed.
    pub discovery_interval_secs: u64,
    /// Seconds between two decays of the scores.
    pub score_decay_interval_secs: u64,
    /// How far a decay moves a score towards zero.
    pub score_decay_amount: i64,
    /// Score at or below which a peer is banned.
    pub ban_threshold: i64,
    /// Addresses to dial on start.
    pub bootnodes: Vec<String>,
    /// Trusted addresses, dialed on start too.
    pub trusted_peers: Vec<String>,
    /// Address to listen on.
    pub listen_addr: String,
    /// File with the node's key, if it has one.
    pub node_key_path: Option<String>,
    /// Topics to subscribe to.
    pub allowed_topics: Vec<String>,
    /// Score of a valid message, by topic.
    pub topic_scores: Vec<(String, i64)>,
    /// Validation of a topic's payloads.
    pub topic_validators: Vec<(String, GossipValidatorKind)>,
    /// Largest gossip payload.
    pub max_gossip_bytes: usize,
    /// Largest payload of a request or a response.
    pub max_reqresp_bytes: usize,
}

/// The value of a [`NetworkingConfig`].
#[verifier::ext_equal]
pub struct ConfigModel {
    pub discovery_interval_secs: u64,
    pub score_decay_interval_secs: u64,
    pub score_decay_amount: i64,
    pub ban_threshold: i64,
    pub bootnodes: Seq<Seq<char>>,
    pub trusted_peers: Seq<Seq<char>>,
    pub listen_addr: Seq<char>,
    pub node_key_path: Option<Seq<char>>,
    pub allowed_topics: Seq<Seq<char>>,
    pub topic_scores: Seq<(Seq<char>, i64)>,
    pub topic_validators: Seq<(Seq<char>, GossipValidatorKind)>,
    pub max_gossip_bytes: usize,
    pub max_reqresp_bytes: usize,
}

/// A table of named values.
pub open spec fn named<T>(v: Seq<(String, T)>) -> Seq<(Seq<char>, T)> {
    v.map_values(|e: (String, T)| (e.0@, e.1))
}

impl View for NetworkingConfig {
    type V = ConfigModel;

    open spec fn view(&self) -> ConfigModel {
        ConfigModel {
            discovery_interval_secs: self.discovery_interval_secs,
            score_decay_interval_secs: self.score_decay_interval_secs,
            score_decay_amount: self.score_decay_amount,
            ban_threshold: self.ban_threshold,
            bootnodes: peer_manager::names(self.bootnodes@),
            trusted_peers: peer_manager::names(self.trusted_peers@),
            listen_addr: self.listen_addr@,
            node_key_path: discovery::option_text(self.node_key_path),
            allowed_topics: peer_manager::names(self.allowed_topics@),
            topic_scores: named(self.topic_scores@),
            topic_validators: named(self.topic_validators@),
            max_gossip_bytes: self.max_gossip_bytes,
            max_reqresp_bytes: self.max_reqresp_bytes,
        }
    }
}

/// The topics of the first development network.
pub open spec fn first_topics() -> Seq<Seq<char>> {
    seq![
        "/leanconsensus/devnet0/block/ssz_snappy"@,
        "/leanconsensus/devnet0/attestation_0/ssz_snappy"@,
        "/leanconsensus/devnet0/aggregation/ssz_snappy"@,
    ]
}

/// The configuration for a development network.
pub open spec fn default_config() -> ConfigModel {
    let t = first_topics();
    ConfigModel {
        discovery_interval_secs: 5,
        score_decay_interval_secs: 30,
        score_decay_amount: 1,
        ban_threshold: -100i64,
        bootnodes: Seq::empty(),
        trusted_peers: Seq::empty(),
        listen_addr: "/ip4/0.0.0.0/udp/9000/quic-v1"@,
        node_key_path: None,
        allowed_topics: t,
        topic_scores: seq![(t[0], 2i64), (t[1], 1i64), (t[2], 1i64)],
        topic_validators: seq![
            (t[0], GossipValidatorKind::Block),
            (t[1], GossipValidatorKind::Attestation),
            (t[2], GossipValidatorKind::AggregatedAttestation),
        ],
        max_gossip_bytes: 2_000_000,
        max_reqresp_bytes: 4_000_000,
    }
}

impl Default for NetworkingConfig {
    fn default() -> (r: Self)
        ensures
            r@ == default_config(),
    {
        let block: &str = "/leanconsensus/devnet0/block/ssz_snappy";
        let attestation: &str = "/leanconsensus/devnet0/attestation_0/ssz_snappy";
        let aggregation: &str = "/leanconsensus/devnet0/aggregation/ssz_snappy";
        let mut allowed_topics: Vec<String> = Vec::new();
        allowed_topics.push(block.to_string());
        allowed_topics.push(attestation.to_string());
        allowed_topics.push(aggregation.to_string());
        let mut topic_scores: Vec<(String, i64)> = Vec::new();
        topic_scores.push((block.to_string(), 2));
        topic_scores.push((attestation.to_string(), 1));
        topic_scores.push((aggregation.to_string(), 1));
        let mut topic_validators: Vec<(String, GossipValidatorKind)> = Vec::new();
        topic_validators.push((block.to_string(), GossipValidatorKind::Block));
        topic_validators.push((attestation.to_string(), GossipValidatorKind::Attestation));
        topic_validators.push((aggregation.to_string(), GossipValidatorKind::AggregatedAttestation));
        let r = NetworkingConfig {
            discovery_interval_secs: 5,
            score_decay_interval_secs: 30,
            score_decay_amount: 1,
            ban_threshold: -100,
            bootnodes: Vec::new(),
            trusted_peers: Vec::new(),
            listen_addr: "/ip4/0.0.0.0/udp/9000/quic-v1".to_string(),
            node_key_path: None,
            allowed_topics,
            topic_scores,
            topic_validators,
            max_gossip_bytes: 2_000_000,
            max_reqresp_bytes: 4_000_000,
        };
        assert(r@ =~= default_config());
        r
    }
}

/// The addresses among the first `k` texts, as they print; other texts are left
/// out.
pub open spec fn parsed_addresses(v: Seq<Seq<char>>, k: nat) -> Seq<Seq<char>>
    decreases k,
{
    if k == 0 {
        Seq::empty()
    } else {
        let before = parsed_addresses(v, (k - 1) as nat);
        match discovery::address_text(v[k - 1]) {
            Some(a) => before.push(a),
            None => before,
        }
    }
}

/// The address to listen on: the configured one, or the default where that is no
/// address.
pub open spec fn listen_address(configured: Seq<char>) -> Seq<char> {
    match discovery::address_text(configured) {
        Some(a) => a,
        None => "/ip4/0.0.0.0/udp/9000/quic-v1"@,
    }
}

/// The first topic to subscribe to.
pub open spec fn first_topic(topics: Seq<Seq<char>>) -> Seq<char> {
    if topics.len() > 0 {
        topics[0]
    } else {
        "/leanconsensus/devnet0/block/ssz_snappy"@
    }
}

fn put_addresses(out: &mut Vec<String>, from: &Vec<String>)
    ensures
        peer_manager::names(final(out)@) == peer_manager::names(old(out)@) + parsed_addresses(
            peer_manager::names(from@),
            from@.len(),
        ),
{
    let ghost all = peer_manager::names(from@);
    let ghost start = peer_manager::names(out@);
    let mut i: usize = 0;
    assert(start + parsed_addresses(all, 0) =~= start);
    while i < from.len()
        invariant
            i <= from@.len(),
            all == peer_manager::names(from@),
            peer_manager::names(out@) == start + parsed_addresses(all, i as nat),
        decreases from@.len() - i,
    {
        assert(all[i as int] == from@[i as int]@);
        let ghost before = peer_manager::names(out@);
        if let Some(a) = discovery::canonical_address(from[i].as_str()) {
            out.push(a);
            assert(peer_manager::names(out@) =~= before.push(a@));
            assert(peer_manager::names(out@) =~= start + parsed_addresses(all, (i + 1) as nat));
        }
        i = i + 1;
    }
}

/// A copy of a list of names.
pub fn copy_names(v: &Vec<String>) -> (r: Vec<String>)
    ensures
        peer_manager::names(r@) == peer_manager::names(v@),
{
    let mut out: Vec<String> = Vec::new();
    let ghost all = peer_manager::names(v@);
    let mut i: usize = 0;
    while i < v.len()
        invariant
            i <= v@.len(),
            all == peer_manager::names(v@),
            peer_manager::names(out@) == all.take(i as int),
        decreases v@.len() - i,
    {
        let ghost before = peer_manager::names(out@);
        let name: String = v[i].clone();
        out.push(name);
        assert(peer_manager::names(out@) =~= before.push(name@));
        assert(peer_manager::names(out@) =~= all.take(i + 1));
        i = i + 1;
    }
    assert(peer_manager::names(out@) =~= all);
    out
}

/// A copy of a table of named values.
pub fn copy_named<T: Copy>(v: &Vec<(String, T)>) -> (r: Vec<(String, T)>)
    ensures
        named(r@) == named(v@),
{
    let mut out: Vec<(String, T)> = Vec::new();
    let ghost all = named(v@);
    let mut i: usize = 0;
    while i < v.len()
        invariant
            i <= v@.len(),
            all == named(v@),
            named(out@) == all.take(i as int),
        decreases v@.len() - i,
    {
        let ghost before = named(out@);
        let entry: (String, T) = (v[i].0.clone(), v[i].1);
        out.push(entry);
        assert(named(out@) =~= before.push((entry.0@, entry.1)));
        assert(named(out@) =~= all.take(i + 1));
        i = i + 1;
    }
    assert(named(out@) =~= all);
    out
}

impl NetworkingConfig {
    /// The configuration of the connections: the addresses are parsed, and what is
    /// no address is left out.
    pub fn p2p_config(&self) -> (r: P2pConfig)
        ensures
            r.listen_addr@ == listen_address(self.listen_addr@),
            peer_manager::names(r.bootnodes@) == parsed_addresses(
                self@.bootnodes,
                self@.bootnodes.len(),
            ) + parsed_addresses(self@.trusted_peers, self@.trusted_peers.len()),
            discovery::option_text(r.node_key_path) == self@.node_key_path,
            r.gossipsub_topic@ == first_topic(self@.allowed_topics),
            peer_manager::names(r.allowed_topics@) == self@.allowed_topics,
            named(r.topic_scores@) == self@.topic_scores,
            named(r.topic_validators@) == self@.topic_validators,
            r.max_gossip_bytes == self.max_gossip_bytes,
            r.max_reqresp_bytes == self.max_reqresp_bytes,
    {
        let listen_addr = match discovery::canonical_address(self.listen_addr.as_str()) {
            Some(a) => a,
            None => "/ip4/0.0.0.0/udp/9000/quic-v1".to_string(),
        };
        let mut bootnodes: Vec<String> = Vec::new();
        assert(peer_manager::names(bootnodes@) =~= Seq::empty());
        put_addresses(&mut bootnodes, &self.bootnodes);
        put_addresses(&mut bootnodes, &self.trusted_peers);
        assert(peer_manager::names(bootnodes@) =~= parsed_addresses(
            self@.bootnodes,
            self@.bootnodes.len(),
        ) + parsed_addresses(self@.trusted_peers, self@.trusted_peers.len()));
        let gossipsub_topic = if self.allowed_topics.len() > 0 {
            self.allowed_topics[0].clone()
        } else {
            "/leanconsensus/devnet0/block/ssz_snappy".to_string()
        };
        P2pConfig {
            listen_addr,
            bootnodes,
            node_key_path: match &self.node_key_path {
                Some(p) => Some(p.clone()),
                None => None,
            },
            gossipsub_topic,
            allowed_topics: copy_names(&self.allowed_topics),
            topic_scores: copy_named(&self.topic_scores),
            topic_validators: copy_named(&self.topic_validators),
            max_gossip_bytes: self.max_gossip_bytes,
            max_reqresp_bytes: self.max_reqresp_bytes,
        }
    }
}

/// The networking runtime: peers, limits and seeds.
pub struct Networking {
    /// Peers and scores.
    pub peers: PeerManager,
    /// Outbound gossip.
    pub gossip: Gossip,
    /// Outbound requests and responses.
    pub reqresp: ReqResp,
    /// Seeds.
    pub discovery: Discovery,
    /// Limit on the gossip of one sender.
    pub gossip_limiter: RateLimiter,
    /// Limit on the requests and responses of one peer and protocol.
    pub reqresp_limiter: RateLimiter,
    /// Limit on the gossip of one sender and topic.
    pub topic_limiter: RateLimiter,
    /// How far a decay moves a score towards zero.
    pub score_decay_amount: i64,
    /// Score at or below which a peer is banned.
    pub ban_threshold: i64,
}

/// The value of a [`Networking`].
#[verifier::ext_equal]
pub struct NetworkingModel {
    pub peers: PeersModel,
    pub gossip: LimiterModel,
    pub reqresp: LimiterModel,
    pub seeds: Seq<Seq<char>>,
    pub dial_interval: u64,
    pub gossip_limiter: LimiterModel,
    pub reqresp_limiter: LimiterModel,
    pub topic_limiter: LimiterModel,
    pub score_decay_amount: i64,
    pub ban_threshold: i64,
}

impl View for Networking {
    type V = NetworkingModel;

    open spec fn view(&self) -> NetworkingModel {
        NetworkingModel {
            peers: self.peers@,
            gossip: self.gossip@,
            reqresp: self.reqresp@,
            seeds: self.discovery.queue(),
            dial_interval: self.discovery.interval(),
            gossip_limiter: self.gossip_limiter@,
            reqresp_limiter: self.reqresp_limiter@,
            topic_limiter: self.topic_limiter@,
            score_decay_amount: self.score_decay_amount,
            ban_threshold: self.ban_threshold,
        }
    }
}

/// The key under which a sender's gossip is limited.
pub open spec fn sender_key(peer: Option<Seq<char>>) -> Seq<char> {
    match peer {
        Some(p) => "gossip_in:"@ + p,
        None => "gossip_in"@,
    }
}

/// The name of a sender.
pub open spec fn sender_name(peer: Option<Seq<char>>) -> Seq<char> {
    match peer {
        Some(p) => p,
        None => "unknown"@,
    }
}

/// The key under which a sender's messages of one topic are limited.
pub open spec fn topic_key(sender: Seq<char>, topic: Seq<char>) -> Seq<char> {
    "gossip_topic:"@ + sender + ":"@ + topic
}

/// The key under which a peer's messages of one protocol are limited.
pub open spec fn protocol_key(peer: Seq<char>, protocol: Seq<char>) -> Seq<char> {
    "reqresp_in:"@ + peer + ":"@ + protocol
}

/// Peers and events after a sender's score has changed; an unknown sender has no
/// score.
pub open spec fn sender_scored(
    peers: PeersModel,
    told: Seq<EventModel>,
    sender: Seq<char>,
    delta: i64,
) -> (PeersModel, Seq<EventModel>) {
    if sender == "unknown"@ {
        (peers, told)
    } else {
        (
            peer_manager::rescored(peers, sender, delta),
            told.push(
                EventModel::PeerScored {
                    peer_id: sender,
                    score: peer_manager::clamped(peer_manager::score_of(peers, sender) + delta),
                },
            ),
        )
    }
}

/// What an inbound gossip message changes and tells.
pub open spec fn gossip_step(
    m: NetworkingModel,
    peer: Option<Seq<char>>,
    topic: Seq<char>,
    now: u64,
) -> (NetworkingModel, Seq<EventModel>) {
    let sender = sender_name(peer);
    let counted = NetworkingModel {
        gossip_limiter: m.gossip_limiter.after(sender_key(peer), now),
        ..m
    };
    if !m.gossip_limiter.allows(sender_key(peer), now) {
        let (peers, told) = sender_scored(
            m.peers,
            seq![EventModel::RateLimited { peer_id: sender, category: "gossip_in"@ }],
            sender,
            -5i64,
        );
        (NetworkingModel { peers, ..counted }, told)
    } else {
        let both = NetworkingModel {
            topic_limiter: m.topic_limiter.after(topic_key(sender, topic), now),
            ..counted
        };
        if !m.topic_limiter.allows(topic_key(sender, topic), now) {
            let (peers, told) = sender_scored(
                m.peers,
                seq![EventModel::RateLimited { peer_id: sender, category: "gossip_topic"@ }],
                sender,
                -10i64,
            );
            (NetworkingModel { peers, ..both }, told)
        } else {
            let (peers, told) = sender_scored(m.peers, Seq::empty(), sender, 1i64);
            (NetworkingModel { peers, ..both }, told)
        }
    }
}

/// What an inbound request or response changes and tells.
pub open spec fn reqresp_step(
    m: NetworkingModel,
    peer: Seq<char>,
    protocol: Seq<char>,
    now: u64,
) -> (NetworkingModel, Seq<EventModel>) {
    let key = protocol_key(peer, protocol);
    let allowed = m.reqresp_limiter.allows(key, now);
    let delta: i64 = if allowed {
        10
    } else {
        -20i64
    };
    let scored = EventModel::PeerScored {
        peer_id: peer,
        score: peer_manager::clamped(peer_manager::score_of(m.peers, peer) + delta),
    };
    (
        NetworkingModel {
            peers: peer_manager::rescored(m.peers, peer, delta),
            reqresp_limiter: m.reqresp_limiter.after(key, now),
            ..m
        },
        if allowed {
            seq![scored]
        } else {
            seq![EventModel::RateLimited { peer_id: peer, category: "reqresp_in"@ }, scored]
        },
    )
}

/// The peers after an event.
pub open spec fn peers_after(peers: PeersModel, e: EventModel) -> PeersModel {
    match e {
        EventModel::PeerConnected { peer_id, inbound } => peer_manager::connected(
            peers,
            peer_id,
            inbound,
        ),
        EventModel::PeerDisconnected { peer_id, inbound } => peer_manager::disconnected(
            peers,
            peer_id,
            inbound,
        ),
        _ => peers,
    }
}

impl Networking {
    /// All parts are in order.
    pub open spec fn wf(&self) -> bool {
        self.peers.wf() && self.gossip.wf() && self.reqresp.wf() && self.discovery.wf()
            && self.gossip_limiter.wf() && self.reqresp_limiter.wf() && self.topic_limiter.wf()
    }

    /// A runtime without peers.
    pub fn start_with_config(config: &NetworkingConfig) -> (r: Self)
        ensures
            r.wf(),
            r@ == (NetworkingModel {
                peers: PeersModel {
                    peers: Set::empty(),
                    scores: Map::empty(),
                    backoff: Map::empty(),
                    counts: CountsModel::zero(),
                },
                gossip: LimiterModel {
                    window: NANOS_PER_SEC,
                    max_events: OUTBOUND_PER_SEC,
                    counts: Map::empty(),
                },
                reqresp: LimiterModel {
                    window: NANOS_PER_SEC,
                    max_events: OUTBOUND_PER_SEC,
                    counts: Map::empty(),
                },
                seeds: Seq::empty(),
                dial_interval: config.discovery_interval_secs,
                gossip_limiter: LimiterModel {
                    window: NANOS_PER_SEC,
                    max_events: INBOUND_GOSSIP_PER_SEC,
                    counts: Map::empty(),
                },
                reqresp_limiter: LimiterModel {
                    window: NANOS_PER_SEC,
                    max_events: INBOUND_REQRESP_PER_SEC,
                    counts: Map::empty(),
                },
                topic_limiter: LimiterModel {
                    window: (INBOUND_TOPIC_SECS * NANOS_PER_SEC) as u64,
                    max_events: INBOUND_TOPIC_MAX,
                    counts: Map::empty(),
                },
                score_decay_amount: config.score_decay_amount,
                ban_threshold: config.ban_threshold,
            }),
    {
        Networking {
            peers: PeerManager::new(),
            gossip: Gossip::new(),
            reqresp: ReqResp::new(),
            discovery: Discovery::new(config.discovery_interval_secs),
            gossip_limiter: RateLimiter::new(NANOS_PER_SEC, INBOUND_GOSSIP_PER_SEC),
            reqresp_limiter: RateLimiter::new(NANOS_PER_SEC, INBOUND_REQRESP_PER_SEC),
            topic_limiter: RateLimiter::new(INBOUND_TOPIC_SECS * NANOS_PER_SEC, INBOUND_TOPIC_MAX),
            score_decay_amount: config.score_decay_amount,
            ban_threshold: config.ban_threshold,
        }
    }

    fn score_sender(&mut self, out: &mut Vec<NetworkEvent>, sender: &String, delta: i64)
        requires
            old(self).wf(),
        ensures
            final(self).wf(),
            ({
                let (peers, told) = sender_scored(
                    old(self)@.peers,
                    events::event_models(old(out)@),
                    sender@,
                    delta,
                );
                &&& final(self)@ == (NetworkingModel { peers, ..old(self)@ })
                &&& events::event_models(final(out)@) == told
            }),
    {
        let chars = text::to_chars(sender.as_str());
        if text::spells(chars.as_slice(), "unknown") {
            return;
        }
        let (_score, event) = self.peers.score_delta(sender, delta);
        put_event(out, event);
    }

    /// Takes in a gossip message at a nanosecond of the caller's clock: it is
    /// counted against the limits of its sender and its topic, and the sender is
    /// scored.
    pub fn on_inbound_gossip(&mut self, msg: &GossipMessage, now: u64) -> (r: Vec<NetworkEvent>)
        requires
            old(self).wf(),
        ensures
            final(self).wf(),
            (final(self)@, events::event_models(r@)) == gossip_step(
                old(self)@,
                discovery::option_text(msg.peer_id),
                msg.topic@,
                now,
            ),
    {
        let ghost m = self@;
        let ghost peer = discovery::option_text(msg.peer_id);
        let (key, sender) = match &msg.peer_id {
            Some(p) => {
                let mut k: String = "gossip_in:".to_string();
                k.append(p.as_str());
                (k, p.clone())
            },
            None => ("gossip_in".to_string(), "unknown".to_string()),
        };
        let mut out = events::no_events();
        if !self.gossip_limiter.allow(key.as_str(), now) {
            put_event(
                &mut out,
                NetworkEvent::RateLimited {
                    peer_id: sender.clone(),
                    category: "gossip_in".to_string(),
                },
            );
            assert(events::event_models(out@) =~= seq![
                EventModel::RateLimited { peer_id: sender@, category: "gossip_in"@ },
            ]);
            self.score_sender(&mut out, &sender, -5);
            return out;
        }
        let mut by_topic: String = "gossip_topic:".to_string();
        by_topic.append(sender.as_str());
        by_topic.append(":");
        by_topic.append(msg.topic.as_str());
        if !self.topic_limiter.allow(by_topic.as_str(), now) {
            put_event(
                &mut out,
                NetworkEvent::RateLimited {
                    peer_id: sender.clone(),
                    category: "gossip_topic".to_string(),
                },
            );
            assert(events::event_models(out@) =~= seq![
                EventModel::RateLimited { peer_id: sender@, category: "gossip_topic"@ },
            ]);
            self.score_sender(&mut out, &sender, -10);
            return out;
        }
        self.score_sender(&mut out, &sender, 1);
        out
    }

    /// Takes in a request or a response at a nanosecond of the caller's clock: it is
    /// counted against the limit of its peer and protocol, and the peer is scored.
    pub fn on_inbound_reqresp(&mut self, msg: &ReqRespMessage, now: u64) -> (r: Vec<NetworkEvent>)
        requires
            old(self).wf(),
        ensures
            final(self).wf(),
            match msg@ {
                ReqRespModel::Request { peer_id, protocol, .. } => (
                    final(self)@,
                    events::event_models(r@),
                ) == reqresp_step(old(self)@, peer_id, protocol, now),
                ReqRespModel::Response { peer_id, protocol, .. } => (
                    final(self)@,
                    events::event_models(r@),
                ) == reqresp_step(old(self)@, peer_id, protocol, now),
            },
    {
        let (peer, protocol) = match msg {
            ReqRespMessage::Request { peer_id, protocol, payload: _ } => (peer_id, protocol),
            ReqRespMessage::Response { peer_id, protocol, payload: _ } => (peer_id, protocol),
        };
        let mut key: String = "reqresp_in:".to_string();
        key.append(peer.as_str());
        key.append(":");
        key.append(protocol.as_str());
        let mut out = events::no_events();
        if !self.reqresp_limiter.allow(key.as_str(), now) {
            put_event(
                &mut out,
                NetworkEvent::RateLimited {
                    peer_id: peer.clone(),
                    category: "reqresp_in".to_string(),
                },
            );
            let (score, event) = self.peers.failed_response_from_peer(peer);
            put_event(&mut out, event);
            assert(events::event_models(out@) =~= seq![
                EventModel::RateLimited { peer_id: peer@, category: "reqresp_in"@ },
                EventModel::PeerScored { peer_id: peer@, score },
            ]);
            return out;
        }
        let (score, event) = self.peers.successful_response_from_peer(peer);
        put_event(&mut out, event);
        assert(events::event_models(out@) =~= seq![
            EventModel::PeerScored { peer_id: peer@, score },
        ]);
        out
    }

    /// Keeps the peers in step with the connections.
    pub fn on_event(&mut self, event: &NetworkEvent)
        requires
            old(self).wf(),
        ensures
            final(self).wf(),
            final(self)@ == (NetworkingModel {
                peers: peers_after(old(self)@.peers, event@),
                ..old(self)@
            }),
    {
        match event {
            NetworkEvent::PeerConnected { peer_id, inbound } => {
                self.peers.connect(peer_id.clone(), *inbound);
            },
            NetworkEvent::PeerDisconnected { peer_id, inbound } => {
                self.peers.disconnect(peer_id, *inbound);
            },
            _ => {},
        }
    }

    /// Decays the scores and bans peers, by the configured rules.
    pub fn decay_scores(&mut self, now: u64) -> (r: (Vec<String>, Vec<NetworkEvent>))
        requires
            old(self).wf(),
        ensures
            final(self).wf(),
            final(self)@ == (NetworkingModel {
                peers: peer_manager::pruned(
                    old(self)@.peers,
                    old(self)@.score_decay_amount,
                    old(self)@.ban_threshold,
                    now,
                ),
                ..old(self)@
            }),
            peer_manager::names(r.0@).no_duplicates(),
            forall|p: Seq<char>| #[trigger]
                peer_manager::names(r.0@).contains(p) <==> peer_manager::is_banned(
                    old(self)@.peers,
                    p,
                    old(self)@.score_decay_amount,
                    old(self)@.ban_threshold,
                ),
            peer_manager::names(r.0@) == peer_manager::banned_peers(
                old(self).peers.score_order(),
                old(self)@.peers.scores,
                old(self)@.score_decay_amount,
                old(self)@.ban_threshold,
                old(self).peers.score_order().len(),
            ),
            events::event_models(r.1@) == peer_manager::score_events(
                old(self).peers.score_order(),
                old(self)@.peers.scores,
                old(self)@.score_decay_amount,
                old(self).peers.score_order().len(),
            ) + peer_manager::ban_events(
                peer_manager::names(r.0@),
                old(self)@.peers.backoff,
                now,
                r.0@.len(),
            ),
    {
        self.peers.decay_and_prune(self.score_decay_amount, self.ban_threshold, now)
    }

    /// Adds a seed.
    pub fn add_seed_peer(&mut self, address: &str)
        requires
            old(self).wf(),
        ensures
            final(self).wf(),
            final(self)@ == (NetworkingModel {
                seeds: match discovery::address_text(address@) {
                    Some(a) => discovery::with_seed(old(self)@.seeds, a),
                    None => old(self)@.seeds,
                },
                ..old(self)@
            }),
    {
        self.discovery.add_seed(address);
    }
}

/// Gossip over a limit costs its sender, gossip within the limits rewards it, and
/// unknown senders are never scored.
pub proof fn law_gossip_scores(m: NetworkingModel, peer: Option<Seq<char>>, topic: Seq<char>, now: u64)
    ensures
        ({
            let after = gossip_step(m, peer, topic, now).0.peers;
            let sender = sender_name(peer);
            let passes = m.gossip_limiter.allows(sender_key(peer), now)
                && m.topic_limiter.allows(topic_key(sender, topic), now);
            &&& sender == "unknown"@ ==> after == m.peers
            &&& sender != "unknown"@ && passes ==> after == peer_manager::rescored(
                m.peers,
                sender,
                1i64,
            )
            &&& sender != "unknown"@ && !passes ==> peer_manager::score_of(after, sender)
                <= peer_manager::score_of(m.peers, sender)
        }),
{
}

} // verus!
