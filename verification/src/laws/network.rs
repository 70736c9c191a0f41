//! What the network layer knows, checks, sends and tells.

use crate::containers::attestation::{
    AttestationModel, ProofModel, SignedAggregateModel, SignedAttestation,
};
use crate::containers::block::{BlockModel, SignedBlockModel};
use crate::containers::pq_verifier::CheckModel;
use crate::containers::state::StateModel;
use crate::laws::transition::alone;
use crate::networking::codec;
use crate::networking::codec::{RequestFrame, ResponseFrame};
use crate::networking::discovery;
use crate::networking::events::EventModel;
use crate::networking::framing;
use crate::networking::framing::Fault;
use crate::networking::gossipsub;
use crate::networking::gossipsub::context;
use crate::networking::gossipsub::context::{ContextModel, GossipContext};
use crate::networking::gossipsub::lean::message::MessageModel;
use crate::networking::gossipsub::lean::topics::{LeanGossipTopicKind, TopicModel};
use crate::networking::gossipsub::validate as verdicts;
use crate::networking::gossipsub::validate::Verdict;
use crate::networking::p2p;
use crate::networking::p2p::ServiceModel;
use crate::networking::reqresp_handler;
use crate::networking::reqresp_handler::ReqRespHandler;
use crate::networking::reqresp_messages::{LeanSupportedProtocol, RequestModel, ResponseModel};
use crate::networking::validate;
use crate::networking::validate::{
    GossipSignatureVerifier, GossipValidatorKind, VerifierModel,
};
use crate::slot::Slot;
use crate::storage::TableModel;
use crate::types::bytes::{Bytes3112, Bytes32, Bytes52};
use crate::types::uint::Uint64;
use vstd::prelude::*;

verus! {

/// The root stands in one of the last 200 slots of the history.
pub open spec fn in_recent_history(s: StateModel, root: Bytes32) -> bool {
    let n = s.historical_block_hashes.len();
    exists|i: int|
        0 <= i < n && n - i <= 200 && #[trigger] s.historical_block_hashes[i] == root
}

/// A context that has just looked at its state knows the zero root, the latest block, both
/// checkpoints, the blocks of the last 200 slots and those of the table, and no other. Its slot
/// is that of the clock, or of the state where there is none.
pub proof fn law_known_roots(c: ContextModel, root: Bytes32)
    requires
        c.recent_roots.entries == context::entries_for(c.state),
        c.state.historical_block_hashes.len() <= u64::MAX,
    ensures
        c.knows(root) <==> {
            ||| root == Bytes32::zero_value()
            ||| root == c.state.latest_block_header.root_value()
            ||| root == c.state.latest_justified.root
            ||| root == c.state.latest_finalized.root
            ||| in_recent_history(c.state, root)
            ||| (c.store matches Some(t) && t.blocks.contains_key(root))
        },
        c.slot_clock is None ==> c.current() == Some(c.state.slot),
        c.slot_clock matches Some(n) ==> c.current() == Some(Slot(Uint64(n))),
{
    context::law_context_knows_recent_history(c, root);
    let history = c.state.historical_block_hashes;
    if in_recent_history(c.state, root) {
        let i = choose|i: int|
            0 <= i < history.len() && history.len() - i <= 200 && #[trigger] history[i] == root;
        assert(history[i] == root);
    }
    if exists|s: int|
        context::cache_start(history) <= s < history.len() && #[trigger] history[s] == root {
        let s = choose|s: int|
            context::cache_start(history) <= s < history.len() && #[trigger] history[s] == root;
        assert(history.len() - s <= 200);
    }
}

/// The keys of the set bits, in ascending order of their places.
pub open spec fn keys_of_voters(
    registry: Seq<Bytes52>,
    bits: Seq<bool>,
    keys: Seq<Bytes52>,
    places: Seq<int>,
) -> bool {
    &&& keys.len() == places.len()
    &&& forall|i: int|
        0 <= i < keys.len() ==> 0 <= #[trigger] places[i] < bits.len() && places[i]
            < registry.len() && bits[places[i]] && keys[i] == registry[places[i]]
    &&& forall|i: int, j: int| 0 <= i < j < places.len() ==> #[trigger] places[i] < #[trigger] places[j]
    &&& forall|k: int| 0 <= k < bits.len() && #[trigger] bits[k] ==> places.contains(k)
}

pub proof fn lemma_gathered(registry: Seq<Bytes52>, bits: Seq<bool>) -> (places: Seq<int>)
    ensures
        validate::gathered(registry, bits) is None <==> exists|k: int|
            registry.len() <= k < bits.len() && #[trigger] bits[k],
        validate::gathered(registry, bits) matches Some(keys) ==> keys_of_voters(
            registry,
            bits,
            keys,
            places,
        ),
    decreases bits.len(),
{
    if bits.len() == 0 {
        Seq::empty()
    } else {
        let short = bits.drop_last();
        let before = lemma_gathered(registry, short);
        let last = bits.len() - 1;
        if validate::gathered(registry, short) is None {
            let k = choose|k: int| registry.len() <= k < short.len() && #[trigger] short[k];
            assert(bits[k]);
            before
        } else {
            let keys = validate::gathered(registry, short)->Some_0;
            if exists|k: int| registry.len() <= k < bits.len() && #[trigger] bits[k] {
                let k = choose|k: int| registry.len() <= k < bits.len() && #[trigger] bits[k];
                if k < last {
                    assert(short[k]);
                }
            }
            if bits.last() && bits.len() > registry.len() {
                assert(bits[last]);
                before
            } else if bits.last() {
                let places = before.push(last);
                let now = keys.push(registry[last]);
                assert forall|i: int| 0 <= i < now.len() implies 0 <= #[trigger] places[i]
                    < bits.len() && places[i] < registry.len() && bits[places[i]] && now[i]
                    == registry[places[i]] by {
                    if i < before.len() {
                        assert(short[before[i]]);
                    }
                }
                assert forall|k: int| 0 <= k < bits.len() && #[trigger] bits[k] implies places.contains(
                    k,
                ) by {
                    if k < last {
                        assert(short[k]);
                        let i = choose|i: int| 0 <= i < before.len() && before[i] == k;
                        assert(places[i] == k);
                    } else {
                        assert(places[before.len() as int] == k);
                    }
                }
                places
            } else {
                assert forall|i: int| 0 <= i < keys.len() implies 0 <= #[trigger] before[i]
                    < bits.len() && before[i] < registry.len() && bits[before[i]] && keys[i]
                    == registry[before[i]] by {
                    assert(short[before[i]]);
                }
                assert forall|k: int| 0 <= k < bits.len() && #[trigger] bits[k] implies before.contains(
                    k,
                ) by {
                    assert(short[k]);
                }
                before
            }
        }
    }
}

/// The keys of an aggregate are those of its voters, in ascending order of their indexes; there
/// are none when a voter is not registered.
pub proof fn law_keys_of_an_aggregate(registry: Seq<Bytes52>, bits: Seq<bool>)
    ensures
        validate::gathered(registry, bits) is None <==> exists|k: int|
            registry.len() <= k < bits.len() && #[trigger] bits[k],
        validate::gathered(registry, bits) matches Some(keys) ==> exists|places: Seq<int>|
            keys_of_voters(registry, bits, keys, places),
{
    let places = lemma_gathered(registry, bits);
    if let Some(keys) = validate::gathered(registry, bits) {
        assert(keys_of_voters(registry, bits, keys, places));
    }
}

/// What is asked of the signature scheme. A block is checked against its proposer's key for
/// proposals, a vote against its validator's key for votes, each over its own root and in its
/// own slot. Nothing can be asked of a validator that is not registered.
pub proof fn law_checks(
    v: VerifierModel,
    b: BlockModel,
    signature: Bytes3112,
    a: SignedAttestation,
)
    ensures
        b.proposer_index.0.0 < v.proposal_pubkeys.len() ==> v.block_check(
            b.proposer_index,
            b,
            signature,
        ) == Some(
            CheckModel::Single {
                public_key: v.proposal_pubkeys[b.proposer_index.0.0 as int],
                message: b.root_value(),
                signature,
                epoch: b.slot.0.0 as u32,
            },
        ),
        b.proposer_index.0.0 >= v.proposal_pubkeys.len() ==> v.block_check(
            b.proposer_index,
            b,
            signature,
        ) is None,
        a.validator_id.0 < v.attestation_pubkeys.len() ==> v.vote_check(a) == Some(
            CheckModel::Single {
                public_key: v.attestation_pubkeys[a.validator_id.0 as int],
                message: a.message.root_value(),
                signature: a.signature,
                epoch: a.message.slot.0.0 as u32,
            },
        ),
        a.validator_id.0 >= v.attestation_pubkeys.len() ==> v.vote_check(a) is None,
{
}

/// An aggregate is checked over the root of its vote, in its slot, with its proof and the keys
/// of its voters, which are at least one.
pub proof fn law_aggregate_check(v: VerifierModel, a: AttestationModel, p: ProofModel)
    ensures
        v.aggregate_check(a, p) matches Some(c) ==> {
            &&& c is Aggregate
            &&& exists|places: Seq<int>| #[trigger]
                keys_of_voters(
                    v.attestation_pubkeys,
                    a.aggregation_bits,
                    c->public_keys,
                    places,
                )
            &&& c->public_keys.len() > 0
            &&& c->Aggregate_message == a.data.root_value()
            &&& c->Aggregate_proof == p.proof_data
            &&& c->Aggregate_epoch == a.data.slot.0.0 as u32
        },
        v.aggregate_check(a, p) is None ==> {
            ||| forall|k: int| 0 <= k < a.aggregation_bits.len() ==> !#[trigger] a.aggregation_bits[k]
            ||| exists|k: int|
                v.attestation_pubkeys.len() <= k < a.aggregation_bits.len()
                    && #[trigger] a.aggregation_bits[k]
        },
{
    let places = lemma_gathered(v.attestation_pubkeys, a.aggregation_bits);
    if let Some(keys) = validate::gathered(v.attestation_pubkeys, a.aggregation_bits) {
        assert(keys_of_voters(v.attestation_pubkeys, a.aggregation_bits, keys, places));
        if keys.len() > 0 {
            let c = v.aggregate_check(a, p)->Some_0;
            assert(keys_of_voters(
                v.attestation_pubkeys,
                a.aggregation_bits,
                c->public_keys,
                places,
            ));
        }
        if keys.len() == 0 {
            assert forall|k: int| 0 <= k < a.aggregation_bits.len() implies !#[trigger] a.aggregation_bits[k] by {
                if a.aggregation_bits[k] {
                    assert(places.contains(k));
                }
            }
        }
    }
}

proof fn lemma_votes_valid<V: GossipSignatureVerifier>(
    v: V,
    votes: Seq<AttestationModel>,
    proofs: Seq<ProofModel>,
    i: nat,
)
    requires
        i <= votes.len(),
    ensures
        validate::attestations_valid(v, votes, proofs, i) <==> forall|k: int|
            i <= k < votes.len() ==> proofs[k].participants == (#[trigger] votes[k]).aggregation_bits
                && v.accepts_aggregate(votes[k], proofs[k]),
    decreases votes.len() - i,
{
    if i < votes.len() {
        lemma_votes_valid(v, votes, proofs, i + 1);
        if forall|k: int|
            i <= k < votes.len() ==> proofs[k].participants == (#[trigger] votes[k]).aggregation_bits
                && v.accepts_aggregate(votes[k], proofs[k]) {
            assert(v.accepts_aggregate(votes[i as int], proofs[i as int]));
        }
    }
}

/// A signed block is valid exactly when the proposer's vote, if anybody cast it, was cast in the
/// block's slot by the proposer alone, the proposer's signature is accepted, and there is one
/// proof for each vote, by the same voters, that is accepted.
pub proof fn law_valid_blocks<V: GossipSignatureVerifier>(v: V, s: SignedBlockModel)
    ensures
        ({
            let b = s.message.block;
            let vote = s.message.proposer_attestation;
            let proofs = s.signature.attestation_signatures;
            validate::block_valid(v, s) <==> {
                &&& (exists|k: int|
                    0 <= k < vote.aggregation_bits.len() && #[trigger] vote.aggregation_bits[k])
                    ==> vote.data.slot == b.slot && alone(
                    vote.aggregation_bits,
                    b.proposer_index.0.0 as int,
                )
                &&& v.accepts_block(b.proposer_index, b, s.signature.proposer_signature)
                &&& proofs.len() == b.attestations.len()
                &&& forall|k: int|
                    0 <= k < b.attestations.len() ==> proofs[k].participants == (
                    #[trigger] b.attestations[k]).aggregation_bits && v.accepts_aggregate(
                        b.attestations[k],
                        proofs[k],
                    )
            }
        }),
{
    let b = s.message.block;
    let bits = s.message.proposer_attestation.aggregation_bits;
    let p = b.proposer_index.0.0 as int;
    lemma_votes_valid(v, b.attestations, s.signature.attestation_signatures, 0);
    assert(alone(bits, p) <==> crate::containers::block::only_bit(bits) == Some(p)) by {
        if alone(bits, p) {
            assert(bits[p]);
            assert(crate::containers::block::is_only_bit(bits, p));
            crate::containers::block::lemma_only_bit(bits, p);
        }
        if crate::containers::block::only_bit(bits) == Some(p) {
            let i = choose|i: int| crate::containers::block::is_only_bit(bits, i);
            assert(crate::containers::block::is_only_bit(bits, p));
            assert forall|j: int| 0 <= j < bits.len() implies (#[trigger] bits[j] <==> j == p) by {}
        }
    }
}

/// A payload is valid when it decodes as what its topic carries and its signatures are accepted:
/// all of a block's, the one of a vote, the one of an aggregate, which needs a voter. Headers
/// and exits need to decode, and unchecked payloads nothing.
pub proof fn law_valid_payloads<V: GossipSignatureVerifier>(v: V, payload: Seq<u8>)
    ensures
        validate::payload_valid(v, GossipValidatorKind::Unchecked, payload),
        validate::payload_valid(v, GossipValidatorKind::Block, payload) <==> (
        SignedBlockModel::decoded(payload, true) matches Ok(s) && validate::block_valid(v, s)),
        validate::payload_valid(v, GossipValidatorKind::Attestation, payload) <==> (
        SignedAttestation::decoded(payload) matches Ok(a) && v.accepts_vote(a)),
        validate::payload_valid(v, GossipValidatorKind::AggregatedAttestation, payload) <==> (
        SignedAggregateModel::decoded(payload, true) matches Ok(s) && (exists|k: int|
            0 <= k < s.proof.participants.len() && #[trigger] s.proof.participants[k])
            && v.accepts_aggregate(
            (AttestationModel { aggregation_bits: s.proof.participants, data: s.data }),
            s.proof,
        )),
        validate::payload_valid(v, GossipValidatorKind::BlockHeader, payload) <==> payload.len()
            == 112,
        validate::payload_valid(v, GossipValidatorKind::VoluntaryExit, payload) <==> payload.len()
            == 16,
{
}

/// The names of the topics, and what they carry: signed blocks, aggregates, and the votes of a
/// subnet.
pub proof fn law_topics(fork: Seq<char>, id: u64)
    ensures
        (TopicModel { fork, kind: LeanGossipTopicKind::Block }).text() == "/leanconsensus/"@ + fork
            + "/"@ + "blocks"@ + "/ssz_snappy"@,
        (TopicModel { fork, kind: LeanGossipTopicKind::AggregatedAttestation }).text()
            == "/leanconsensus/"@ + fork + "/"@ + "aggregation"@ + "/ssz_snappy"@,
        (TopicModel { fork, kind: LeanGossipTopicKind::AttestationSubnet(id) }).text()
            == "/leanconsensus/"@ + fork + "/"@ + ("attestation_"@ + crate::text::decimal(
            id as nat,
        )) + "/ssz_snappy"@,
        gossipsub::validator_of(LeanGossipTopicKind::Block) == GossipValidatorKind::Block,
        gossipsub::validator_of(LeanGossipTopicKind::AggregatedAttestation)
            == GossipValidatorKind::AggregatedAttestation,
        gossipsub::validator_of(LeanGossipTopicKind::AttestationSubnet(id))
            == GossipValidatorKind::Attestation,
{
}

/// A message decodes as what its topic carries.
pub proof fn law_messages(topic: Seq<char>, data: Seq<u8>)
    ensures
        TopicModel::of_text(topic) is Err ==> MessageModel::decoded(topic, data) is Err,
        TopicModel::of_text(topic) matches Ok(t) ==> {
            &&& t.kind == LeanGossipTopicKind::Block ==> (SignedBlockModel::decoded(data, true)
                matches Ok(b) ==> MessageModel::decoded(topic, data) matches Ok(
                MessageModel::Block(m),
            ) && m == b)
            &&& t.kind == LeanGossipTopicKind::AggregatedAttestation ==> (
            SignedAggregateModel::decoded(data, true) matches Ok(a) ==> MessageModel::decoded(
                topic,
                data,
            ) matches Ok(MessageModel::AggregatedAttestation(m)) && m == a)
            &&& t.kind matches LeanGossipTopicKind::AttestationSubnet(id) ==> (
            SignedAttestation::decoded(data) matches Ok(a) ==> MessageModel::decoded(topic, data)
                matches Ok(MessageModel::AttestationSubnet { subnet_id, attestation })
                && subnet_id == id && attestation == a)
        },
{
}

/// The names of the protocols.
pub proof fn law_protocols()
    ensures
        LeanSupportedProtocol::StatusV1.id() == "/leanconsensus/req/"@ + "status"@ + "/"@ + "1"@
            + "/ssz_snappy"@,
        LeanSupportedProtocol::BlocksByRootV1.id() == "/leanconsensus/req/"@ + "blocks_by_root"@
            + "/"@ + "1"@ + "/ssz_snappy"@,
        LeanSupportedProtocol::BlocksByRangeV1.id() == "/leanconsensus/req/"@ + "blocks_by_range"@
            + "/"@ + "1"@ + "/ssz_snappy"@,
{
}

/// The last event is the new score of the source, and it is `score`.
pub open spec fn ends_with_score(told: Seq<EventModel>, source: Seq<char>, score: int) -> bool {
    &&& told.len() > 0
    &&& told.last() matches EventModel::PeerScored { peer_id, score: s }
    &&& peer_id == source && s == score
}

/// What a gossip message earns its source. Too large a payload costs 25 and tells nothing else;
/// otherwise it is told first whether the topic is accepted. An unknown topic costs 5, an
/// invalid payload 10, a rejected message 25, an ignored one 1. An accepted one earns the score
/// of its topic, or 1 where the topic has none, and is passed on before. A message that was
/// ignored for unknown roots is kept for later.
pub proof fn law_gossip_scores<V: GossipSignatureVerifier, C: GossipContext>(
    m: ServiceModel,
    v: V,
    c: C,
    topic: Seq<char>,
    data: Seq<u8>,
    source: Seq<char>,
)
    ensures
        ({
            let told = p2p::gossip_events(m, v, c, topic, data, source);
            let known = TopicModel::of_text(topic) is Ok || m.allowed_topics.contains(topic);
            let fits = data.len() <= m.max_gossip_bytes;
            let kind = match TopicModel::of_text(topic) {
                Ok(t) => gossipsub::validator_of(t.kind),
                Err(_) => if m.topic_validators.contains_key(topic) {
                    m.topic_validators[topic]
                } else {
                    GossipValidatorKind::Unchecked
                },
            };
            let valid = validate::payload_valid(v, kind, data);
            let earned = if m.topic_scores.contains_key(topic) {
                m.topic_scores[topic] as int
            } else {
                1
            };
            &&& !fits ==> told.len() == 1 && ends_with_score(told, source, -25)
            &&& fits ==> told[0] == (EventModel::GossipValidated { topic, valid: known })
            &&& fits && !known ==> told.len() == 2 && ends_with_score(told, source, -5)
            &&& fits && known && !valid ==> told.len() == 2 && ends_with_score(told, source, -10)
            &&& fits && known && valid && MessageModel::decoded(topic, data) is Err ==> told.len()
                == 3 && told[1] == (EventModel::GossipMessage { topic, payload: data })
                && ends_with_score(told, source, earned)
            &&& fits && known && valid ==> (MessageModel::decoded(topic, data) matches Ok(msg) ==> {
                let basic = verdicts::basic_verdict(msg);
                let full = verdicts::context_verdict(c, msg);
                &&& basic is Reject ==> ends_with_score(told, source, -25) && told.len() == 2
                &&& basic is Ignore ==> ends_with_score(told, source, -1) && told[1] == (
                EventModel::GossipValidated { topic, valid: false })
                &&& basic is Accept && full is Reject ==> ends_with_score(told, source, -25)
                    && told.len() == 2
                &&& basic is Accept && full is Ignore ==> ends_with_score(told, source, -1)
                &&& basic is Accept && full == Verdict::Ignore(
                    "attestation references unknown chain roots"@,
                ) ==> told[1] == (EventModel::GossipDeferredUnknownRoots { topic, payload: data })
                &&& basic is Accept && full is Accept ==> told.len() == 3 && told[1] == (
                EventModel::GossipMessage { topic, payload: data }) && ends_with_score(
                    told,
                    source,
                    earned,
                )
            })
        }),
{
    let told = p2p::gossip_events(m, v, c, topic, data, source);
    assert(told.len() > 0);
}

/// In a table of topics the last entry for a topic counts.
pub proof fn law_last_score_counts(v: Seq<(String, i64)>, k: nat, i: int)
    requires
        k <= v.len(),
        0 <= i < k,
        forall|j: int| i < j < k ==> (#[trigger] v[j]).0@ != v[i].0@,
    ensures
        p2p::score_table(v, k).contains_key(v[i].0@),
        p2p::score_table(v, k)[v[i].0@] == v[i].1,
    decreases k,
{
    if i < k - 1 {
        assert(v[k - 1].0@ != v[i].0@);
        law_last_score_counts(v, (k - 1) as nat, i);
    }
}

/// A response to a request that a node can serve has code 0 and carries its answers; any other
/// has code 1 and says that the request is invalid.
pub proof fn law_replies<H: ReqRespHandler>(h: H, q: RequestFrame, kind: LeanSupportedProtocol)
    requires
        LeanSupportedProtocol::of_id(q.protocol) == Some(kind),
    ensures
        RequestModel::decoded(kind, q.payload) matches Ok(asked) ==> (h.answers(asked).len() > 0
            ==> {
            let r = p2p::reply_to(h, q);
            &&& r.response_code == 0
            &&& r.protocol == q.protocol
            &&& r.payloads.len() == h.answers(asked).len()
            &&& forall|i: int|
                0 <= i < r.payloads.len() ==> #[trigger] r.payloads[i] == h.answers(
                    asked,
                )[i].bytes()
        }),
        RequestModel::decoded(kind, q.payload) is Err ==> p2p::reply_to(h, q).response_code == 1,
{
}

/// The status of a node: the block that its table has as head, with its slot; the latest header
/// where the table has none. The finalized root is the table's, or the state's where it has
/// none, and the finalized slot is the state's.
pub proof fn law_status(s: StateModel, t: TableModel)
    ensures
        ({
            let st = reqresp_handler::status_of(s, t);
            &&& forall|head: Bytes32|
                t.head == Some(head) && #[trigger] t.blocks.contains_key(head) ==> st.head_root
                    == head && st.head_slot.0 == t.blocks[head].message.block.slot.num()
            &&& (forall|head: Bytes32|
                t.head == Some(head) ==> !#[trigger] t.blocks.contains_key(head)) ==> st.head_root
                == s.latest_block_header.root_value() && st.head_slot.0
                == s.latest_block_header.slot.num()
            &&& t.finalized matches Some(root) ==> st.finalized_root == root
            &&& t.finalized is None ==> st.finalized_root == s.latest_finalized.root
            &&& st.finalized_epoch.0 == s.latest_finalized.slot.num()
            &&& st.fork_digest == Bytes32::zero_value()
        }),
{
    if let Some(head) = t.head {
        assert(t.blocks.contains_key(head) || !t.blocks.contains_key(head));
    }
}

proof fn lemma_found(
    blocks: Map<Bytes32, SignedBlockModel>,
    roots: Seq<Bytes32>,
    k: nat,
    j: int,
)
    requires
        0 <= j < k <= roots.len(),
        blocks.contains_key(roots[j]),
    ensures
        reqresp_handler::found_blocks(blocks, roots, k).contains(
            ResponseModel::BlocksByRoot(blocks[roots[j]]),
        ),
    decreases k,
{
    let now = reqresp_handler::found_blocks(blocks, roots, k);
    let before = reqresp_handler::found_blocks(blocks, roots, (k - 1) as nat);
    let x = ResponseModel::BlocksByRoot(blocks[roots[j]]);
    if j < k - 1 {
        lemma_found(blocks, roots, (k - 1) as nat, j);
        let i = choose|i: int| 0 <= i < before.len() && before[i] == x;
        assert(now[i] == x);
    } else {
        assert(now[before.len() as int] == x);
    }
}

/// What a node answers. A status with its own; a request for slots with nothing; a request for
/// roots with every block that it knows among the first 1024 roots, and with no other.
pub proof fn law_answers(s: StateModel, t: TableModel, q: RequestModel, j: int)
    ensures
        ({
            let a = reqresp_handler::node_answers(s, t, q);
            &&& q is Status ==> a.len() == 1 && a[0] == ResponseModel::Status(
                reqresp_handler::status_of(s, t),
            )
            &&& q is BlocksByRange ==> a.len() == 0
            &&& q matches RequestModel::BlocksByRoot(roots) ==> {
                &&& 0 <= j < roots.len() && j < 1_024 && t.blocks.contains_key(roots[j])
                    ==> a.contains(ResponseModel::BlocksByRoot(t.blocks[roots[j]]))
                &&& a.len() <= 1_024
                &&& 0 <= j < a.len() ==> exists|i: int|
                    0 <= i < roots.len() && i < 1_024 && t.blocks.contains_key(#[trigger] roots[i])
                        && a[j] == ResponseModel::BlocksByRoot(t.blocks[roots[i]])
            }
        }),
{
    if let RequestModel::BlocksByRoot(roots) = q {
        let k = reqresp_handler::roots_served(roots);
        let a = reqresp_handler::node_answers(s, t, q);
        reqresp_handler::law_answers_follow_the_request(t.blocks, roots, k);
        if 0 <= j < roots.len() && j < 1_024 && t.blocks.contains_key(roots[j]) {
            lemma_found(t.blocks, roots, k, j);
        }
        if 0 <= j < a.len() {
            assert(reqresp_handler::comes_from(t.blocks, roots, a[j], j, k as int));
            let i = choose|i: int|
                j <= i < k && t.blocks.contains_key(#[trigger] roots[i]) && a[j]
                    == ResponseModel::BlocksByRoot(t.blocks[roots[i]]);
            assert(t.blocks.contains_key(roots[i]));
        }
    }
}

/// A length goes in groups of seven bits, the lowest first; every byte but the last has its top
/// bit set.
pub proof fn law_lengths(n: nat)
    ensures
        ({
            let b = framing::varint(n);
            &&& b.len() > 0
            &&& b[0] as int % 128 == n as int % 128
            &&& b[0] >= 128 <==> n >= 128
            &&& n < 128 ==> b.len() == 1
            &&& n >= 128 ==> b.skip(1) == framing::varint(n / 128)
        }),
    decreases n,
{
    if n >= 128 {
        assert(framing::varint(n).skip(1) =~= framing::varint(n / 128));
    }
}

/// A request on the wire is the length of its payload and the frames of it; a response chunk
/// has its code in front.
pub proof fn law_wire(payload: Seq<u8>, code: u8)
    ensures
        ({
            let head = framing::varint(payload.len());
            let q = codec::request_bytes(payload);
            let r = codec::chunk_bytes(code, payload);
            &&& q.subrange(0, head.len() as int) == head
            &&& q.skip(head.len() as int) == framing::framed(payload)
            &&& r[0] == code
            &&& r.subrange(1, 1 + head.len() as int) == head
            &&& r.skip(1 + head.len() as int) == framing::framed(payload)
        }),
{
    let head = framing::varint(payload.len());
    let q = codec::request_bytes(payload);
    let r = codec::chunk_bytes(code, payload);
    assert(q.subrange(0, head.len() as int) =~= head);
    assert(q.skip(head.len() as int) =~= framing::framed(payload));
    assert(r.subrange(1, 1 + head.len() as int) =~= head);
    assert(r.skip(1 + head.len() as int) =~= framing::framed(payload));
}

/// A response on the wire: a refusal is one chunk with its code; a success is one chunk, or,
/// where the protocol streams blocks, one for each payload, all with code 0; without payloads it
/// is nothing.
pub proof fn law_responses(r: ResponseFrame, last: Seq<u8>)
    ensures
        ({
            let b = codec::response_bytes(r);
            let kind = LeanSupportedProtocol::of_id(r.protocol);
            let streams = kind == Some(LeanSupportedProtocol::BlocksByRootV1) || kind == Some(
                LeanSupportedProtocol::BlocksByRangeV1,
            );
            &&& r.response_code != 0 && r.payloads.len() > 0 ==> b == codec::chunk_bytes(
                r.response_code,
                r.payloads[0],
            )
            &&& r.response_code == 0 && r.payloads.len() == 0 ==> b.len() == 0
            &&& r.response_code == 0 && r.payloads.len() > 0 && !streams ==> b
                == codec::chunk_bytes(0, r.payloads[0])
            &&& r.response_code == 0 && streams ==> codec::response_bytes(
                (ResponseFrame { payloads: r.payloads.push(last), ..r }),
            ) == b + codec::chunk_bytes(0, last)
        }),
{
    let more = ResponseFrame { payloads: r.payloads.push(last), ..r };
    lemma_stream(r.payloads, more.payloads, r.payloads.len());
    if r.payloads.len() == 0 {
        reveal_with_fuel(codec::stream_bytes, 2);
        assert(codec::stream_bytes(more.payloads, 1) =~= Seq::<u8>::empty() + codec::chunk_bytes(
            0,
            last,
        ));
    }
}

proof fn lemma_stream(a: Seq<Seq<u8>>, b: Seq<Seq<u8>>, k: nat)
    requires
        k <= a.len(),
        k <= b.len(),
        forall|i: int| 0 <= i < k ==> a[i] == b[i],
    ensures
        codec::stream_bytes(a, k) == codec::stream_bytes(b, k),
    decreases k,
{
    if k > 0 {
        lemma_stream(a, b, (k - 1) as nat);
    }
}

/// What the chunks of a frame add. One of type 0 adds what the block behind its four checksum
/// bytes decompresses to, one of type 1 the bytes behind its checksum; neither may outgrow the
/// announced length. Types from 2 to 127 are refused, and those above are skipped.
pub proof fn law_chunks(out: Seq<u8>, expected: nat, kind: u8, chunk: Seq<u8>)
    ensures
        ({
            let r = framing::chunk_added(out, expected, kind, chunk);
            &&& kind >= 128 ==> r == Ok::<Seq<u8>, Fault>(out)
            &&& 2 <= kind <= 127 ==> r is Err
            &&& kind == 1 && chunk.len() >= 4 && out.len() + chunk.len() <= expected + 4 ==> r
                == Ok::<Seq<u8>, Fault>(out + chunk.skip(4))
            &&& kind <= 1 && chunk.len() < 4 ==> r is Err
            &&& kind == 1 && out.len() + chunk.len() > expected + 4 ==> r is Err
            &&& kind == 0 && chunk.len() >= 4 ==> (framing::raw_length(chunk.skip(4)) matches Ok(n)
                ==> framing::raw_contents(chunk.skip(4)) matches Ok(more) ==> (out.len() + n
                <= expected ==> r == Ok::<Seq<u8>, Fault>(out + more)) && (out.len() + n > expected
                ==> r is Err))
            &&& kind == 0 && chunk.len() >= 4 && (framing::raw_length(chunk.skip(4)) is Err
                || framing::raw_contents(chunk.skip(4)) is Err) ==> r is Err
        }),
{
}

/// Payloads of gossip within the limit are sent as raw blocks; larger ones are refused, both
/// when they are sent and when they announce themselves as larger.
pub proof fn law_gossip_payloads(data: Seq<u8>, max: usize)
    ensures
        data.len() > max ==> p2p::outbound_payload(data, max) is Err,
        data.len() <= max ==> (framing::raw_block(data) matches Ok(b) ==> p2p::outbound_payload(
            data,
            max,
        ) == Ok::<Seq<u8>, Fault>(b)),
        framing::raw_length(data) matches Ok(n) && n > max ==> p2p::inbound_payload(data, max)
            is Err,
        framing::raw_length(data) matches Ok(n) && n <= max && n <= isize::MAX ==> (
        framing::raw_contents(data) matches Ok(c) ==> p2p::inbound_payload(data, max) == Ok::<
            Seq<u8>,
            Fault,
        >(c)),
{
}

/// A seed joins the queue at its end, once; a turn moves the first seed to the end.
pub proof fn law_seeds(queue: Seq<Seq<char>>, address: Seq<char>)
    ensures
        queue.contains(address) ==> discovery::with_seed(queue, address) == queue,
        !queue.contains(address) ==> {
            let next = discovery::with_seed(queue, address);
            next.len() == queue.len() + 1 && next.last() == address && next.drop_last() == queue
        },
        queue.len() > 0 ==> {
            let next = discovery::rotated(queue);
            &&& next.len() == queue.len()
            &&& next.last() == queue[0]
            &&& forall|i: int| 0 <= i < queue.len() - 1 ==> #[trigger] next[i] == queue[i + 1]
        },
{
    assert(queue.push(address).drop_last() =~= queue);
}

} // verus!
