//! What the node does on the events of its connections.

use vstd::prelude::*;
use vstd::slice::slice_to_vec;
use vstd::string::StringExecFns;

use crate::containers::block::{SignedBlockModel, SignedBlockWithAttestation};
use crate::containers::req_resp;
use crate::containers::req_resp::{BlocksByRangeResponse, MAX_BLOCKS_PER_REQUEST};
use crate::keyed_map::NameMap;
use crate::networking::codec;
use crate::networking::codec::{LeanRequest, LeanResponse, RequestFrame, ResponseFrame};
use crate::networking::events;
use crate::networking::events::{put_event, EventModel, NetworkEvent};
use crate::networking::framing;
use crate::networking::framing::{Fault, FrameFault};
use crate::networking::gossipsub;
use crate::networking::gossipsub::context::GossipContext;
use crate::networking::gossipsub::kind_from_topic_hash;
use crate::networking::gossipsub::lean::message::{LeanGossipsubMessage, MessageModel};
use crate::networking::gossipsub::validate;
use crate::networking::gossipsub::validate::{
    is_retryable_unknown_roots_ignore, validate_basic_message, validate_with_context,
    ValidationResult, Verdict,
};
use crate::networking::peer_manager;
use crate::networking::reqresp_handler;
use crate::networking::reqresp_handler::ReqRespHandler;
use crate::networking::reqresp_messages;
use crate::networking::reqresp_messages::{
    LeanRequestMessage, LeanResponseMessage, LeanSupportedProtocol, RequestModel, ResponseModel,
};
use crate::networking::validate::{validate_gossip, GossipSignatureVerifier, GossipValidatorKind};
use crate::text;
use crate::types::collections::SszList;

verus! {

/// Compresses gossip payloads and holds them to a size.
#[derive(Clone, Copy, Debug)]
pub struct SnappyTransform {
    max_size_per_message: usize,
}

/// The message for a payload that is too large.
pub open spec fn oversize_text(size: nat, max: nat) -> Seq<char> {
    "gossip message size ("@ + text::decimal(size) + ") exceeds max ("@ + text::decimal(max)
        + ")"@
}

fn oversize_string(size: usize, max: usize) -> (r: String)
    ensures
        r@ == oversize_text(size as nat, max as nat),
{
    let mut s: String = "gossip message size (".to_string();
    s.append(text::decimal_string(size as u64).as_str());
    s.append(") exceeds max (");
    s.append(text::decimal_string(max as u64).as_str());
    s.append(")");
    s
}

/// What a received payload decompresses to. One that does not fit the address space is
/// refused like one that is too large.
pub open spec fn inbound_payload(data: Seq<u8>, max: usize) -> Result<Seq<u8>, Fault> {
    match framing::raw_length(data) {
        Err(e) => Err(Fault::Other(e)),
        Ok(n) => if n > max || n > isize::MAX {
            Err(Fault::InvalidData(oversize_text(n as nat, max as nat)))
        } else {
            match framing::raw_contents(data) {
                Ok(contents) => Ok(contents),
                Err(e) => Err(Fault::Other(e)),
            }
        },
    }
}

/// What a payload is sent as.
pub open spec fn outbound_payload(data: Seq<u8>, max: usize) -> Result<Seq<u8>, Fault> {
    if data.len() > max {
        Err(Fault::InvalidData(oversize_text(data.len(), max as nat)))
    } else {
        match framing::raw_block(data) {
            Ok(block) => Ok(block),
            Err(e) => Err(Fault::Other(e)),
        }
    }
}

impl SnappyTransform {
    /// The largest size of a payload.
    pub closed spec fn max(&self) -> usize {
        self.max_size_per_message
    }

    /// A transform for payloads up to the given size.
    pub fn new(max_size_per_message: usize) -> (r: Self)
        ensures
            r.max() == max_size_per_message,
    {
        SnappyTransform { max_size_per_message }
    }

    /// Decompresses a received payload.
    pub fn inbound_transform(&self, data: &[u8]) -> (r: Result<Vec<u8>, FrameFault>)
        ensures
            framing::read_outcome(r) == inbound_payload(data@, self.max()),
            r matches Ok(v) ==> v@.len() <= self.max(),
    {
        match framing::snappy_raw_length(data) {
            Err(e) => Err(FrameFault::Other(e)),
            Ok(n) => {
                if n > self.max_size_per_message || n > isize::MAX as usize {
                    return Err(
                        FrameFault::InvalidData(oversize_string(n, self.max_size_per_message)),
                    );
                }
                match framing::snappy_raw_decompress(data) {
                    Ok(v) => {
                        let size: usize = v.len();
                        assert(framing::announces(data@, size));
                        Ok(v)
                    },
                    Err(e) => Err(FrameFault::Other(e)),
                }
            },
        }
    }

    /// Compresses a payload to send. The receiver gets the payload back.
    pub fn outbound_transform(&self, data: &[u8]) -> (r: Result<Vec<u8>, FrameFault>)
        ensures
            framing::read_outcome(r) == outbound_payload(data@, self.max()),
            r matches Ok(v) ==> data@.len() <= isize::MAX ==> inbound_payload(v@, self.max()) == Ok::<
                Seq<u8>,
                Fault,
            >(data@),
    {
        if data.len() > self.max_size_per_message {
            return Err(
                FrameFault::InvalidData(oversize_string(data.len(), self.max_size_per_message)),
            );
        }
        match framing::snappy_raw_compress(data) {
            Ok(block) => Ok(block),
            Err(e) => Err(FrameFault::Other(e)),
        }
    }
}

/// What a node subscribes to, accepts and limits.
#[derive(Clone, Debug)]
pub struct P2pConfig {
    /// Address to listen on.
    pub listen_addr: String,
    /// Addresses to dial on start.
    pub bootnodes: Vec<String>,
    /// File with the node's key, if it has one.
    pub node_key_path: Option<String>,
    /// First topic to subscribe to.
    pub gossipsub_topic: String,
    /// Topics to accept messages of.
    pub allowed_topics: Vec<String>,
    /// Score of a valid message, by topic.
    pub topic_scores: Vec<(String, i64)>,
    /// Validation of a topic's payloads.
    pub topic_validators: Vec<(String, GossipValidatorKind)>,
    /// Largest gossip payload.
    pub max_gossip_bytes: usize,
    /// Largest payload of a request or a response.
    pub max_reqresp_bytes: usize,
}

/// A command to the connections.
#[derive(Clone, Debug, PartialEq, Eq)]
pub enum P2pCommand {
    /// Publish a payload.
    Publish { topic: String, payload: Vec<u8> },
    /// Dial an address.
    Dial { addr: String },
    /// Send a request to a peer.
    SendRequest { peer: String, protocol: String, payload: Vec<u8> },
}

/// Decides on the events of the connections.
pub struct P2pService {
    topic_scores: NameMap<i64>,
    allowed_topics: NameMap<bool>,
    topic_validators: NameMap<GossipValidatorKind>,
    local_peer_id: String,
    listen_addr: String,
    max_gossip_bytes: usize,
    max_reqresp_bytes: usize,
}

/// The value of a [`P2pService`].
#[verifier::ext_equal]
pub struct ServiceModel {
    pub topic_scores: Map<Seq<char>, i64>,
    pub allowed_topics: Set<Seq<char>>,
    pub topic_validators: Map<Seq<char>, GossipValidatorKind>,
    pub local_peer_id: Seq<char>,
    pub listen_addr: Seq<char>,
    pub max_gossip_bytes: usize,
    pub max_reqresp_bytes: usize,
}

impl View for P2pService {
    type V = ServiceModel;

    closed spec fn view(&self) -> ServiceModel {
        ServiceModel {
            topic_scores: self.topic_scores@,
            allowed_topics: self.allowed_topics@.dom(),
            topic_validators: self.topic_validators@,
            local_peer_id: self.local_peer_id@,
            listen_addr: self.listen_addr@,
            max_gossip_bytes: self.max_gossip_bytes,
            max_reqresp_bytes: self.max_reqresp_bytes,
        }
    }
}

/// The first `k` scores by topic; a later entry replaces an earlier one.
pub open spec fn score_table(v: Seq<(String, i64)>, k: nat) -> Map<Seq<char>, i64>
    decreases k,
{
    if k == 0 {
        Map::empty()
    } else {
        score_table(v, (k - 1) as nat).insert(v[k - 1].0@, v[k - 1].1)
    }
}

/// The first `k` validations by topic; a later entry replaces an earlier one.
pub open spec fn validator_table(v: Seq<(String, GossipValidatorKind)>, k: nat) -> Map<
    Seq<char>,
    GossipValidatorKind,
>
    decreases k,
{
    if k == 0 {
        Map::empty()
    } else {
        validator_table(v, (k - 1) as nat).insert(v[k - 1].0@, v[k - 1].1)
    }
}

/// The service that a configuration describes.
pub open spec fn service_of(c: P2pConfig, local_peer_id: Seq<char>) -> ServiceModel {
    ServiceModel {
        topic_scores: score_table(c.topic_scores@, c.topic_scores@.len()),
        allowed_topics: peer_manager::names(c.allowed_topics@).to_set(),
        topic_validators: validator_table(c.topic_validators@, c.topic_validators@.len()),
        local_peer_id,
        listen_addr: c.listen_addr@,
        max_gossip_bytes: c.max_gossip_bytes,
        max_reqresp_bytes: c.max_reqresp_bytes,
    }
}

fn index_scores(v: &Vec<(String, i64)>) -> (r: NameMap<i64>)
    ensures
        r.wf(),
        r@ == score_table(v@, v@.len()),
{
    let mut out: NameMap<i64> = NameMap::new();
    let mut i: usize = 0;
    while i < v.len()
        invariant
            i <= v@.len(),
            out.wf(),
            out@ == score_table(v@, i as nat),
        decreases v@.len() - i,
    {
        out.insert(v[i].0.clone(), v[i].1);
        i = i + 1;
    }
    out
}

fn index_validators(v: &Vec<(String, GossipValidatorKind)>) -> (r: NameMap<GossipValidatorKind>)
    ensures
        r.wf(),
        r@ == validator_table(v@, v@.len()),
{
    let mut out: NameMap<GossipValidatorKind> = NameMap::new();
    let mut i: usize = 0;
    while i < v.len()
        invariant
            i <= v@.len(),
            out.wf(),
            out@ == validator_table(v@, i as nat),
        decreases v@.len() - i,
    {
        out.insert(v[i].0.clone(), v[i].1);
        i = i + 1;
    }
    out
}

fn index_topics(v: &Vec<String>) -> (r: NameMap<bool>)
    ensures
        r.wf(),
        r@.dom() == peer_manager::names(v@).to_set(),
{
    let mut out: NameMap<bool> = NameMap::new();
    let ghost all = peer_manager::names(v@);
    let mut i: usize = 0;
    assert(out@.dom() =~= all.take(0).to_set());
    while i < v.len()
        invariant
            i <= v@.len(),
            all == peer_manager::names(v@),
            out.wf(),
            out@.dom() == all.take(i as int).to_set(),
        decreases v@.len() - i,
    {
        out.insert(v[i].clone(), true);
        proof {
            let now = all.take(i + 1);
            let before = all.take(i as int);
            assert(now =~= before.push(all[i as int]));
            assert forall|t: Seq<char>| #[trigger] now.to_set().contains(t) <==> before.to_set()
                .contains(t) || t == all[i as int] by {
                if now.contains(t) {
                    let j = choose|j: int| 0 <= j < now.len() && now[j] == t;
                    if j < before.len() {
                        assert(before[j] == t);
                    }
                }
                if before.contains(t) {
                    let j = choose|j: int| 0 <= j < before.len() && before[j] == t;
                    assert(now[j] == t);
                }
                assert(now[i as int] == all[i as int]);
            }
            assert(out@.dom() =~= now.to_set());
        }
        i = i + 1;
    }
    assert(all.take(all.len() as int) =~= all);
    out
}

/// The topics to subscribe to, each once: the first topic and the accepted ones.
pub fn subscriptions(config: &P2pConfig) -> (r: Vec<String>)
    ensures
        peer_manager::names(r@).no_duplicates(),
        peer_manager::names(r@).to_set() == peer_manager::names(
            config.allowed_topics@,
        ).to_set().insert(config.gossipsub_topic@),
{
    let mut topics = index_topics(&config.allowed_topics);
    topics.insert(config.gossipsub_topic.clone(), true);
    let n: usize = topics.len();
    let mut out: Vec<String> = Vec::new();
    let mut i: usize = 0;
    while i < n
        invariant
            i <= n,
            topics.wf(),
            n == topics.key_seq().len(),
            peer_manager::names(out@) == topics.key_seq().take(i as int),
        decreases n - i,
    {
        let key: String = topics.key_at(i).clone();
        let ghost before = peer_manager::names(out@);
        assert(key@ == topics.key_seq()[i as int]);
        out.push(key);
        assert(peer_manager::names(out@) =~= before.push(key@));
        assert(peer_manager::names(out@) =~= topics.key_seq().take(i + 1));
        i = i + 1;
    }
    proof {
        topics.lemma_keys();
        let listed = peer_manager::names(out@);
        assert(listed =~= topics.key_seq());
        assert(listed.to_set() =~= topics@.dom()) by {
            assert forall|k: Seq<char>| topics@.dom().contains(k) implies listed.to_set().contains(
                k,
            ) by {
                assert(topics@.contains_key(k));
                let j = choose|j: int| 0 <= j < listed.len() && topics.key_seq()[j] == k;
                assert(listed[j] == k);
            }
            assert forall|k: Seq<char>| listed.to_set().contains(k) implies topics@.dom().contains(
                k,
            ) by {
                let j = choose|j: int| 0 <= j < listed.len() && listed[j] == k;
                assert(topics@.contains_key(topics.key_seq()[j]));
            }
        }
        assert(topics@.dom() =~= peer_manager::names(config.allowed_topics@).to_set().insert(
            config.gossipsub_topic@,
        ));
    }
    out
}

/// A peer's score as an event.
pub open spec fn scored(peer: Seq<char>, score: i64) -> EventModel {
    EventModel::PeerScored { peer_id: peer, score }
}

fn put_score(out: &mut Vec<NetworkEvent>, peer: &String, score: i64)
    ensures
        events::event_models(final(out)@) == events::event_models(old(out)@).push(
            scored(peer@, score),
        ),
{
    put_event(out, NetworkEvent::PeerScored { peer_id: peer.clone(), score });
}

/// Whether a topic is known by its form or by the configuration.
pub open spec fn topic_accepted(m: ServiceModel, topic: Seq<char>) -> bool {
    gossipsub::topic_validator(topic) is Ok || m.allowed_topics.contains(topic)
}

/// How the payloads of a topic are validated: by its form, else by the
/// configuration, else not at all.
pub open spec fn payload_kind(m: ServiceModel, topic: Seq<char>) -> GossipValidatorKind {
    match gossipsub::topic_validator(topic) {
        Ok(k) => k,
        Err(_) => if m.topic_validators.contains_key(topic) {
            m.topic_validators[topic]
        } else {
            GossipValidatorKind::Unchecked
        },
    }
}

/// The score of a valid message of a topic.
pub open spec fn topic_score(m: ServiceModel, topic: Seq<char>) -> i64 {
    if m.topic_scores.contains_key(topic) {
        m.topic_scores[topic]
    } else {
        1
    }
}

/// The events of a message that is accepted.
pub open spec fn accept_events(
    m: ServiceModel,
    topic: Seq<char>,
    data: Seq<u8>,
    source: Seq<char>,
) -> Seq<EventModel> {
    seq![
        EventModel::GossipMessage { topic, payload: data },
        scored(source, topic_score(m, topic)),
    ]
}

/// The events of a decoded message, by its verdicts.
pub open spec fn verdict_events(
    m: ServiceModel,
    basic: Verdict,
    in_context: Verdict,
    topic: Seq<char>,
    data: Seq<u8>,
    source: Seq<char>,
) -> Seq<EventModel> {
    match basic {
        Verdict::Ignore(_) => seq![
            EventModel::GossipValidated { topic, valid: false },
            scored(source, -1i64),
        ],
        Verdict::Reject(_) => seq![scored(source, -25i64)],
        Verdict::Accept => match in_context {
            Verdict::Ignore(reason) => if reason == "attestation references unknown chain roots"@ {
                seq![
                    EventModel::GossipDeferredUnknownRoots { topic, payload: data },
                    scored(source, -1i64),
                ]
            } else {
                seq![scored(source, -1i64)]
            },
            Verdict::Reject(_) => seq![scored(source, -25i64)],
            Verdict::Accept => accept_events(m, topic, data, source),
        },
    }
}

/// The events of a gossip message.
pub open spec fn gossip_events<V: GossipSignatureVerifier, C: GossipContext>(
    m: ServiceModel,
    v: V,
    c: C,
    topic: Seq<char>,
    data: Seq<u8>,
    source: Seq<char>,
) -> Seq<EventModel> {
    if data.len() > m.max_gossip_bytes {
        seq![scored(source, -25i64)]
    } else {
        let told = seq![EventModel::GossipValidated { topic, valid: topic_accepted(m, topic) }];
        if !topic_accepted(m, topic) {
            told + seq![scored(source, -5i64)]
        } else if !crate::networking::validate::payload_valid(v, payload_kind(m, topic), data) {
            told + seq![scored(source, -10i64)]
        } else {
            match MessageModel::decoded(topic, data) {
                Ok(msg) => told + verdict_events(
                    m,
                    validate::basic_verdict(msg),
                    validate::context_verdict(c, msg),
                    topic,
                    data,
                    source,
                ),
                Err(_) => told + accept_events(m, topic, data, source),
            }
        }
    }
}

impl P2pService {
    /// The indexes are in order.
    pub closed spec fn wf(&self) -> bool {
        self.topic_scores.wf() && self.allowed_topics.wf() && self.topic_validators.wf()
    }

    /// The service that a configuration describes.
    pub fn new(config: &P2pConfig, local_peer_id: String) -> (r: Self)
        ensures
            r.wf(),
            r@ == service_of(*config, local_peer_id@),
    {
        P2pService {
            topic_scores: index_scores(&config.topic_scores),
            allowed_topics: index_topics(&config.allowed_topics),
            topic_validators: index_validators(&config.topic_validators),
            local_peer_id,
            listen_addr: config.listen_addr.clone(),
            max_gossip_bytes: config.max_gossip_bytes,
            max_reqresp_bytes: config.max_reqresp_bytes,
        }
    }

    /// The node's own peer.
    pub fn local_peer_id(&self) -> (r: &String)
        ensures
            r@ == self@.local_peer_id,
    {
        &self.local_peer_id
    }

    /// The address that the node listens on.
    pub fn listen_addr(&self) -> (r: &String)
        ensures
            r@ == self@.listen_addr,
    {
        &self.listen_addr
    }

    /// The event of a new connection: the first one connects the peer.
    pub fn on_connection_established(&self, peer: &String, num_established: u32, inbound: bool) -> (r:
        Option<NetworkEvent>)
        ensures
            match r {
                Some(e) => num_established == 1 && e@ == (EventModel::PeerConnected {
                    peer_id: peer@,
                    inbound,
                }),
                None => num_established != 1,
            },
    {
        if num_established == 1 {
            Some(NetworkEvent::PeerConnected { peer_id: peer.clone(), inbound })
        } else {
            None
        }
    }

    /// The event of a closed connection: the last one disconnects the peer.
    pub fn on_connection_closed(&self, peer: &String, num_established: u32, inbound: bool) -> (r:
        Option<NetworkEvent>)
        ensures
            match r {
                Some(e) => num_established == 0 && e@ == (EventModel::PeerDisconnected {
                    peer_id: peer@,
                    inbound,
                }),
                None => num_established != 0,
            },
    {
        if num_established == 0 {
            Some(NetworkEvent::PeerDisconnected { peer_id: peer.clone(), inbound })
        } else {
            None
        }
    }

    /// The event of a peer that identified itself.
    pub fn on_identified(&self, peer: &String) -> (r: NetworkEvent)
        ensures
            r@ == (EventModel::PeerConnected { peer_id: peer@, inbound: true }),
    {
        NetworkEvent::PeerConnected { peer_id: peer.clone(), inbound: true }
    }

    /// The event of a request or a response that failed.
    pub fn on_reqresp_failure(&self, peer: &String) -> (r: NetworkEvent)
        ensures
            r@ == scored(peer@, -10i64),
    {
        NetworkEvent::PeerScored { peer_id: peer.clone(), score: -10 }
    }

    fn put_accept(&self, out: &mut Vec<NetworkEvent>, topic: &String, data: &Vec<u8>, source: &String)
        requires
            self.wf(),
        ensures
            events::event_models(final(out)@) == events::event_models(old(out)@) + accept_events(
                self@,
                topic@,
                data@,
                source@,
            ),
    {
        let score: i64 = match self.topic_scores.get(topic) {
            Some(s) => *s,
            None => 1,
        };
        put_event(
            out,
            NetworkEvent::GossipMessage {
                topic: topic.clone(),
                payload: slice_to_vec(data.as_slice()),
            },
        );
        put_score(out, source, score);
        assert(events::event_models(out@) =~= events::event_models(old(out)@) + accept_events(
            self@,
            topic@,
            data@,
            source@,
        ));
    }

    fn put_verdict<C: GossipContext>(
        &self,
        out: &mut Vec<NetworkEvent>,
        message: &LeanGossipsubMessage,
        context: &C,
        topic: &String,
        data: &Vec<u8>,
        source: &String,
    )
        requires
            self.wf(),
        ensures
            events::event_models(final(out)@) == events::event_models(old(out)@) + verdict_events(
                self@,
                validate::basic_verdict(message@),
                validate::context_verdict(*context, message@),
                topic@,
                data@,
                source@,
            ),
    {
        let ghost before = events::event_models(out@);
        let ghost want = verdict_events(
            self@,
            validate::basic_verdict(message@),
            validate::context_verdict(*context, message@),
            topic@,
            data@,
            source@,
        );
        match validate_basic_message(message) {
            ValidationResult::Accept => {},
            ValidationResult::Ignore(_) => {
                put_event(
                    out,
                    NetworkEvent::GossipValidated { topic: topic.clone(), valid: false },
                );
                put_score(out, source, -1);
                assert(events::event_models(out@) =~= before + want);
                return;
            },
            ValidationResult::Reject(_) => {
                put_score(out, source, -25);
                assert(events::event_models(out@) =~= before + want);
                return;
            },
        }
        match validate_with_context(message, context) {
            ValidationResult::Accept => {
                self.put_accept(out, topic, data, source);
            },
            ValidationResult::Ignore(reason) => {
                if is_retryable_unknown_roots_ignore(reason.as_str()) {
                    put_event(
                        out,
                        NetworkEvent::GossipDeferredUnknownRoots {
                            topic: topic.clone(),
                            payload: slice_to_vec(data.as_slice()),
                        },
                    );
                }
                put_score(out, source, -1);
                assert(events::event_models(out@) =~= before + want);
            },
            ValidationResult::Reject(_) => {
                put_score(out, source, -25);
                assert(events::event_models(out@) =~= before + want);
            },
        }
    }

    /// How the payloads of a topic are validated.
    pub fn validator_kind(&self, topic: &String) -> (r: GossipValidatorKind)
        requires
            self.wf(),
        ensures
            r == payload_kind(self@, topic@),
    {
        match kind_from_topic_hash(topic.as_str()) {
            Ok(k) => k,
            Err(_) => match self.topic_validators.get(topic) {
                Some(k) => *k,
                None => GossipValidatorKind::Unchecked,
            },
        }
    }

    /// The events of a gossip message.
    pub fn on_gossip_message<V: GossipSignatureVerifier, C: GossipContext>(
        &self,
        topic: &String,
        data: &Vec<u8>,
        source: &String,
        verifier: &V,
        context: &C,
    ) -> (r: Vec<NetworkEvent>)
        requires
            self.wf(),
        ensures
            events::event_models(r@) == gossip_events(
                self@,
                *verifier,
                *context,
                topic@,
                data@,
                source@,
            ),
    {
        let mut out = events::no_events();
        if data.len() > self.max_gossip_bytes {
            put_score(&mut out, source, -25);
            assert(events::event_models(out@) =~= seq![scored(source@, -25i64)]);
            return out;
        }
        let form = kind_from_topic_hash(topic.as_str());
        let valid: bool = form.is_ok() || self.allowed_topics.contains(topic);
        put_event(&mut out, NetworkEvent::GossipValidated { topic: topic.clone(), valid });
        let ghost told = seq![EventModel::GossipValidated { topic: topic@, valid }];
        assert(events::event_models(out@) =~= told);
        if !valid {
            put_score(&mut out, source, -5);
            assert(events::event_models(out@) =~= told + seq![scored(source@, -5i64)]);
            return out;
        }
        let kind = self.validator_kind(topic);
        if !validate_gossip(kind, data.as_slice(), verifier) {
            put_score(&mut out, source, -10);
            assert(events::event_models(out@) =~= told + seq![scored(source@, -10i64)]);
            return out;
        }
        match LeanGossipsubMessage::decode(topic.as_str(), data.as_slice()) {
            Ok(message) => self.put_verdict(&mut out, &message, context, topic, data, source),
            Err(_) => self.put_accept(&mut out, topic, data, source),
        }
        out
    }
}

/// Which group of protocols carries a request.
#[derive(Clone, Copy, Debug, PartialEq, Eq, Structural)]
pub enum ReqRespRoute {
    /// The status protocol.
    Status,
    /// The block protocols.
    Blocks,
}

/// The group of protocols that carries a request, if its protocol is supported.
pub fn request_route(protocol: &str) -> (r: Option<ReqRespRoute>)
    ensures
        r == (match LeanSupportedProtocol::of_id(protocol@) {
            Some(LeanSupportedProtocol::StatusV1) => Some(ReqRespRoute::Status),
            Some(_) => Some(ReqRespRoute::Blocks),
            None => None,
        }),
{
    match LeanSupportedProtocol::parse_protocol_id(protocol) {
        Some(LeanSupportedProtocol::StatusV1) => Some(ReqRespRoute::Status),
        Some(_) => Some(ReqRespRoute::Blocks),
        None => None,
    }
}

/// The answer to a request that cannot be served.
pub open spec fn refusal(protocol: Seq<char>) -> ResponseFrame {
    ResponseFrame { protocol, response_code: 1, payloads: seq![codec::INVALID_REQUEST@] }
}

/// The encodings of a series of responses.
pub open spec fn encoded(v: Seq<ResponseModel>) -> Seq<Seq<u8>> {
    v.map_values(|m: ResponseModel| m.bytes())
}

/// The answer to a request.
pub open spec fn reply_to<H: ReqRespHandler>(h: H, q: RequestFrame) -> ResponseFrame {
    match LeanSupportedProtocol::of_id(q.protocol) {
        None => refusal(q.protocol),
        Some(kind) => match RequestModel::decoded(kind, q.payload) {
            Err(_) => refusal(q.protocol),
            Ok(request) => {
                let answers = h.answers(request);
                if answers.len() == 0 && kind == LeanSupportedProtocol::StatusV1 {
                    refusal(q.protocol)
                } else {
                    ResponseFrame {
                        protocol: q.protocol,
                        response_code: 0,
                        payloads: encoded(answers),
                    }
                }
            },
        },
    }
}

fn refuse(protocol: &String) -> (r: LeanResponse)
    ensures
        r@ == refusal(protocol@),
{
    let mut payloads: Vec<Vec<u8>> = Vec::new();
    payloads.push(codec::invalid_request());
    assert(codec::rows(payloads@) =~= seq![codec::INVALID_REQUEST@]);
    LeanResponse { protocol: protocol.clone(), response_code: 1, payloads }
}

fn encode_all(v: &Vec<LeanResponseMessage>) -> (r: Vec<Vec<u8>>)
    requires
        reqresp_handler::all_encodable(reqresp_handler::response_models(v@)),
    ensures
        codec::rows(r@) == encoded(reqresp_handler::response_models(v@)),
{
    let ghost all = reqresp_handler::response_models(v@);
    let mut out: Vec<Vec<u8>> = Vec::new();
    let mut i: usize = 0;
    assert(codec::rows(out@) =~= encoded(all).take(0));
    while i < v.len()
        invariant
            i <= v@.len(),
            all == reqresp_handler::response_models(v@),
            reqresp_handler::all_encodable(all),
            codec::rows(out@) == encoded(all).take(i as int),
        decreases v@.len() - i,
    {
        assert(all[i as int] == v@[i as int]@);
        let bytes = v[i].encode_ssz();
        let ghost before = codec::rows(out@);
        proof {
            codec::lemma_rows_push(out@, bytes);
        }
        out.push(bytes);
        assert(codec::rows(out@) =~= encoded(all).take(i + 1));
        i = i + 1;
    }
    assert(codec::rows(out@) =~= encoded(all));
    out
}

/// The blocks of the first `k` payloads of an answer by slot range: those that
/// are not too large, can be decoded and can be passed on.
pub open spec fn range_blocks(payloads: Seq<Seq<u8>>, max: usize, k: nat) -> Seq<SignedBlockModel>
    decreases k,
{
    if k == 0 {
        Seq::empty()
    } else {
        let before = range_blocks(payloads, max, (k - 1) as nat);
        match reqresp_messages::range_response_decoded(payloads[k - 1]) {
            Ok(b) => if payloads[k - 1].len() <= max && b.encodable() {
                before.push(b)
            } else {
                before
            },
            Err(_) => before,
        }
    }
}

/// The blame for those of the first `k` payloads that are too large.
pub open spec fn oversize_events(
    peer: Seq<char>,
    payloads: Seq<Seq<u8>>,
    max: usize,
    k: nat,
) -> Seq<EventModel>
    decreases k,
{
    if k == 0 {
        Seq::empty()
    } else {
        let before = oversize_events(peer, payloads, max, (k - 1) as nat);
        if payloads[k - 1].len() > max {
            before.push(scored(peer, -25i64))
        } else {
            before
        }
    }
}

/// The first blocks, as many as an answer may hold.
pub open spec fn first_blocks(blocks: Seq<SignedBlockModel>) -> Seq<SignedBlockModel> {
    if blocks.len() > MAX_BLOCKS_PER_REQUEST {
        blocks.take(MAX_BLOCKS_PER_REQUEST as int)
    } else {
        blocks
    }
}

/// The events of a good response.
pub open spec fn good_response(peer: Seq<char>, protocol: Seq<char>, payload: Seq<u8>) -> Seq<
    EventModel,
> {
    seq![EventModel::ReqRespResponse { peer_id: peer, protocol, payload }, scored(peer, 1i64)]
}

/// The events of the first `k` payloads of an answer, one by one.
pub open spec fn single_events(
    peer: Seq<char>,
    r: ResponseFrame,
    max: usize,
    k: nat,
) -> Seq<EventModel>
    decreases k,
{
    if k == 0 {
        Seq::empty()
    } else {
        let before = single_events(peer, r, max, (k - 1) as nat);
        if r.payloads[k - 1].len() > max {
            before + seq![scored(peer, -25i64)]
        } else {
            before + good_response(peer, r.protocol, r.payloads[k - 1])
        }
    }
}

/// The events of a response.
pub open spec fn response_events(m: ServiceModel, peer: Seq<char>, r: ResponseFrame) -> Seq<
    EventModel,
> {
    let n = r.payloads.len();
    let max = m.max_reqresp_bytes;
    if LeanSupportedProtocol::of_id(r.protocol) == Some(LeanSupportedProtocol::BlocksByRangeV1) {
        oversize_events(peer, r.payloads, max, n) + good_response(
            peer,
            r.protocol,
            req_resp::listed_bytes::<SignedBlockWithAttestation>(
                first_blocks(range_blocks(r.payloads, max, n)),
            ),
        )
    } else {
        single_events(peer, r, max, n)
    }
}

/// The values of a list of blocks.
pub open spec fn block_models(v: Seq<SignedBlockWithAttestation>) -> Seq<SignedBlockModel> {
    v.map_values(|b: SignedBlockWithAttestation| b@)
}

/// Every block of a list can be encoded.
pub open spec fn blocks_encodable(v: Seq<SignedBlockModel>) -> bool {
    forall|i: int| 0 <= i < v.len() ==> (#[trigger] v[i]).encodable()
}

fn put_good_response(
    out: &mut Vec<NetworkEvent>,
    peer: &String,
    protocol: &String,
    payload: Vec<u8>,
)
    ensures
        events::event_models(final(out)@) == events::event_models(old(out)@) + good_response(
            peer@,
            protocol@,
            payload@,
        ),
{
    put_event(
        out,
        NetworkEvent::ReqRespResponse { peer_id: peer.clone(), protocol: protocol.clone(), payload },
    );
    put_score(out, peer, 1);
    assert(events::event_models(out@) =~= events::event_models(old(out)@) + good_response(
        peer@,
        protocol@,
        payload@,
    ));
}

impl P2pService {
    /// The events of a request and the answer to it. A request that is too large is
    /// blamed and not answered.
    pub fn on_request<H: ReqRespHandler>(&self, peer: &String, request: &LeanRequest, handler: &H) -> (r:
        (Vec<NetworkEvent>, Option<LeanResponse>))
        ensures
            if request@.payload.len() > self@.max_reqresp_bytes {
                &&& events::event_models(r.0@) == seq![scored(peer@, -25i64)]
                &&& r.1 is None
            } else {
                &&& events::event_models(r.0@) == seq![
                    EventModel::ReqRespRequest {
                        peer_id: peer@,
                        protocol: request@.protocol,
                        payload: request@.payload,
                    },
                ]
                &&& r.1 matches Some(reply)
                &&& reply@ == reply_to(*handler, request@)
            },
    {
        let mut out = events::no_events();
        if request.payload.len() > self.max_reqresp_bytes {
            put_score(&mut out, peer, -25);
            assert(events::event_models(out@) =~= seq![scored(peer@, -25i64)]);
            return (out, None);
        }
        let reply = Self::answer(request, handler);
        put_event(
            &mut out,
            NetworkEvent::ReqRespRequest {
                peer_id: peer.clone(),
                protocol: request.protocol.clone(),
                payload: slice_to_vec(request.payload.as_slice()),
            },
        );
        assert(events::event_models(out@) =~= seq![
            EventModel::ReqRespRequest {
                peer_id: peer@,
                protocol: request@.protocol,
                payload: request@.payload,
            },
        ]);
        (out, Some(reply))
    }

    fn answer<H: ReqRespHandler>(request: &LeanRequest, handler: &H) -> (r: LeanResponse)
        ensures
            r@ == reply_to(*handler, request@),
    {
        let kind = match LeanSupportedProtocol::parse_protocol_id(request.protocol.as_str()) {
            Some(k) => k,
            None => {
                return refuse(&request.protocol);
            },
        };
        let message = match LeanRequestMessage::decode_ssz(kind, request.payload.as_slice()) {
            Ok(m) => m,
            Err(_) => {
                return refuse(&request.protocol);
            },
        };
        let answers = handler.on_request(&message);
        assert(answers@.len() == handler.answers(message@).len());
        if answers.len() == 0 && kind == LeanSupportedProtocol::StatusV1 {
            return refuse(&request.protocol);
        }
        let payloads = encode_all(&answers);
        LeanResponse { protocol: request.protocol.clone(), response_code: 0, payloads }
    }

    /// The events of a response.
    pub fn on_response(&self, peer: &String, response: &LeanResponse) -> (r: Vec<NetworkEvent>)
        ensures
            events::event_models(r@) == response_events(self@, peer@, response@),
    {
        let kind = LeanSupportedProtocol::parse_protocol_id(response.protocol.as_str());
        if let Some(LeanSupportedProtocol::BlocksByRangeV1) = kind {
            return self.on_range_response(peer, response);
        }
        let mut out = events::no_events();
        let mut i: usize = 0;
        while i < response.payloads.len()
            invariant
                i <= response.payloads@.len(),
                events::event_models(out@) == single_events(
                    peer@,
                    response@,
                    self@.max_reqresp_bytes,
                    i as nat,
                ),
            decreases response.payloads@.len() - i,
        {
            let payload = &response.payloads[i];
            assert(response@.payloads[i as int] == payload@);
            let ghost before = events::event_models(out@);
            if payload.len() > self.max_reqresp_bytes {
                put_score(&mut out, peer, -25);
                assert(events::event_models(out@) =~= before + seq![scored(peer@, -25i64)]);
            } else {
                put_good_response(
                    &mut out,
                    peer,
                    &response.protocol,
                    slice_to_vec(payload.as_slice()),
                );
            }
            i = i + 1;
        }
        out
    }

    fn collect_range(&self, peer: &String, response: &LeanResponse) -> (r: (
        Vec<NetworkEvent>,
        Vec<SignedBlockWithAttestation>,
    ))
        ensures
            events::event_models(r.0@) == oversize_events(
                peer@,
                response@.payloads,
                self@.max_reqresp_bytes,
                response@.payloads.len(),
            ),
            block_models(r.1@) == range_blocks(
                response@.payloads,
                self@.max_reqresp_bytes,
                response@.payloads.len(),
            ),
            blocks_encodable(block_models(r.1@)),
    {
        let mut out = events::no_events();
        let mut blocks: Vec<SignedBlockWithAttestation> = Vec::new();
        let max: usize = self.max_reqresp_bytes;
        let mut i: usize = 0;
        assert(block_models(blocks@) =~= Seq::empty());
        while i < response.payloads.len()
            invariant
                i <= response.payloads@.len(),
                max == self@.max_reqresp_bytes,
                events::event_models(out@) == oversize_events(
                    peer@,
                    response@.payloads,
                    max,
                    i as nat,
                ),
                block_models(blocks@) == range_blocks(response@.payloads, max, i as nat),
                blocks_encodable(block_models(blocks@)),
            decreases response.payloads@.len() - i,
        {
            let payload = &response.payloads[i];
            assert(response@.payloads[i as int] == payload@);
            if payload.len() > max {
                put_score(&mut out, peer, -25);
            } else {
                match LeanResponseMessage::decode_ssz(
                    LeanSupportedProtocol::BlocksByRangeV1,
                    payload.as_slice(),
                ) {
                    Ok(LeanResponseMessage::BlocksByRange(b)) => {
                        let whole = crate::containers::block::single_set_bit(
                            &b.message.proposer_attestation.aggregation_bits,
                        );
                        if whole.is_some() {
                            let ghost before = block_models(blocks@);
                            blocks.push(b);
                            assert(block_models(blocks@) =~= before.push(b@));
                        }
                    },
                    _ => {},
                }
            }
            i = i + 1;
        }
        (out, blocks)
    }

    fn on_range_response(&self, peer: &String, response: &LeanResponse) -> (r: Vec<NetworkEvent>)
        requires
            LeanSupportedProtocol::of_id(response@.protocol) == Some(
                LeanSupportedProtocol::BlocksByRangeV1,
            ),
        ensures
            events::event_models(r@) == response_events(self@, peer@, response@),
    {
        let (mut out, blocks) = self.collect_range(peer, response);
        let ghost kept = first_blocks(block_models(blocks@));
        let first = copy_first_blocks(&blocks);
        match SszList::new(first) {
            Ok(list) => {
                let answer = BlocksByRangeResponse { blocks: list };
                assert(answer@ =~= kept);
                assert forall|k: int| 0 <= k < answer@.len() implies (
                #[trigger] answer@[k]).encodable() by {
                    assert(block_models(blocks@)[k].encodable());
                }
                put_good_response(&mut out, peer, &response.protocol, answer.encode_ssz());
            },
            Err(_) => {
                assert(false);
            },
        }
        out
    }
}

fn copy_first_blocks(blocks: &Vec<SignedBlockWithAttestation>) -> (r: Vec<
    SignedBlockWithAttestation,
>)
    ensures
        block_models(r@) == first_blocks(block_models(blocks@)),
        r@.len() <= MAX_BLOCKS_PER_REQUEST,
{
    let ghost all = block_models(blocks@);
    let ghost kept = first_blocks(all);
    let mut first: Vec<SignedBlockWithAttestation> = Vec::new();
    let n: usize = if blocks.len() > MAX_BLOCKS_PER_REQUEST {
        MAX_BLOCKS_PER_REQUEST
    } else {
        blocks.len()
    };
    let mut j: usize = 0;
    assert(block_models(first@) =~= kept.take(0));
    while j < n
        invariant
            j <= n,
            n == kept.len(),
            n <= blocks@.len(),
            all == block_models(blocks@),
            kept == first_blocks(all),
            first@.len() == j,
            block_models(first@) == kept.take(j as int),
        decreases n - j,
    {
        let ghost before = block_models(first@);
        let copy = blocks[j].duplicate();
        first.push(copy);
        assert(all[j as int] == blocks@[j as int]@);
        assert(block_models(first@) =~= before.push(kept[j as int]));
        assert(block_models(first@) =~= kept.take(j + 1));
        j = j + 1;
    }
    assert(block_models(first@) =~= kept);
    first
}

/// A gossip message passes if it is not too large, its topic is accepted, its
/// payload is valid and, where it can be decoded, both validations accept it.
pub open spec fn gossip_passes<V: GossipSignatureVerifier, C: GossipContext>(
    m: ServiceModel,
    v: V,
    c: C,
    topic: Seq<char>,
    data: Seq<u8>,
) -> bool {
    &&& data.len() <= m.max_gossip_bytes
    &&& topic_accepted(m, topic)
    &&& crate::networking::validate::payload_valid(v, payload_kind(m, topic), data)
    &&& MessageModel::decoded(topic, data) matches Ok(msg) ==> validate::basic_verdict(msg)
        == Verdict::Accept && validate::context_verdict(c, msg) == Verdict::Accept
}

/// A gossip message is passed on exactly where it is valid, and whatever happens
/// its sender is scored once, at the end.
pub proof fn law_only_valid_gossip_is_passed_on<V: GossipSignatureVerifier, C: GossipContext>(
    m: ServiceModel,
    v: V,
    c: C,
    topic: Seq<char>,
    data: Seq<u8>,
    source: Seq<char>,
)
    ensures
        ({
            let told = gossip_events(m, v, c, topic, data, source);
            &&& told.contains(EventModel::GossipMessage { topic, payload: data }) <==> gossip_passes(
                m,
                v,
                c,
                topic,
                data,
            )
            &&& told.len() > 0
            &&& told.last() is PeerScored
            &&& told.last()->PeerScored_peer_id == source
            &&& forall|i: int| 0 <= i < told.len() - 1 ==> !((#[trigger] told[i]) is PeerScored)
            &&& told.last()->PeerScored_score < 0 ==> !gossip_passes(m, v, c, topic, data)
                || topic_score(m, topic) < 0
        }),
{
    let told = gossip_events(m, v, c, topic, data, source);
    let message = EventModel::GossipMessage { topic, payload: data };
    if gossip_passes(m, v, c, topic, data) {
        assert(told[1] == message);
    } else {
        assert forall|i: int| 0 <= i < told.len() implies told[i] != message by {}
    }
}

/// A request is refused exactly where its protocol is not supported, it cannot
/// be decoded, or it asks for a status that there is none of. The answer names
/// the request's protocol.
pub proof fn law_refusals<H: ReqRespHandler>(h: H, q: RequestFrame)
    ensures
        reply_to(h, q).protocol == q.protocol,
        reply_to(h, q).response_code != 0 <==> match LeanSupportedProtocol::of_id(q.protocol) {
            None => true,
            Some(kind) => match RequestModel::decoded(kind, q.payload) {
                Err(_) => true,
                Ok(request) => kind == LeanSupportedProtocol::StatusV1 && h.answers(request).len()
                    == 0,
            },
        },
        reply_to(h, q).response_code != 0 ==> reply_to(h, q).payloads == seq![
            codec::INVALID_REQUEST@,
        ],
{
}

} // verus!
