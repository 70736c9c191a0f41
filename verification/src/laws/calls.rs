//! What calls answer, stated over their arguments and results.

use crate::containers::attestation::{AttestationData, SignedAttestation};
use crate::containers::block::{BlockHeader, SignedBlockWithAttestation};
use crate::containers::checkpoint::Checkpoint;
use crate::containers::state::State;
use crate::containers::validator::Validator;
use crate::crypto::pq;
use crate::fork_choice::ForkChoiceStore;
use crate::networking::codec::{LeanRequest, LeanResponse};
use crate::networking::events;
use crate::networking::events::{EventModel, NetworkEvent};
use crate::networking::p2p;
use crate::networking::p2p::P2pService;
use crate::networking::peer_manager::PeerManager;
use crate::networking::reqresp_handler::ReqRespHandler;
use crate::networking::runtime::{Networking, NetworkingConfig};
use crate::networking::validate;
use crate::networking::validate::ValidatorsVerifier;
use crate::slot;
use crate::slot::Slot;
use crate::types::bytes::{Bytes3112, Bytes52};
use vstd::prelude::*;

verus! {

/// A slot lasts four seconds: slot `r` is in progress from `4000 * r` milliseconds behind genesis
/// on, until the next one is. Before genesis it is slot 0.
pub proof fn law_slot_in_progress(genesis: u64, now: u64, r: u64)
    requires
        call_ensures(slot::slot_index_from_unix_millis, (genesis, now), r),
    ensures
        now < 1_000 * genesis ==> r == 0,
        now >= 1_000 * genesis ==> 1_000 * genesis + 4_000 * r <= now < 1_000 * genesis + 4_000 * (r
            + 1),
{
    let e = slot::elapsed_millis(genesis, now);
    assert(slot::SLOT_DURATION_SECS * 1000 == 4000);
    vstd::arithmetic::div_mod::lemma_fundamental_div_mod(e, 4000);
    assert(r == e / 4000);
}

/// A slot has four intervals of a second each: the one in progress is the number of whole seconds
/// since the slot began.
pub proof fn law_interval_in_progress(genesis: u64, now: u64, s: u64, r: u64)
    requires
        call_ensures(slot::slot_index_from_unix_millis, (genesis, now), s),
        call_ensures(slot::interval_index_from_unix_millis, (genesis, now), r),
    ensures
        now < 1_000 * genesis ==> r == 0,
        now >= 1_000 * genesis ==> {
            let start = 1_000 * genesis + 4_000 * s;
            &&& 0 <= r < 4
            &&& start + 1_000 * r <= now < start + 1_000 * (r + 1)
        },
{
    let e = slot::elapsed_millis(genesis, now);
    law_slot_in_progress(genesis, now, s);
    vstd::arithmetic::div_mod::lemma_fundamental_div_mod(e, 1000);
    let q = e / 1000;
    vstd::arithmetic::div_mod::lemma_fundamental_div_mod(q, 4);
    assert(s == q / 4) by {
        vstd::arithmetic::div_mod::lemma_div_denominator(e, 1000, 4);
        assert(slot::SLOT_DURATION_SECS * 1000 == 4000);
    }
}

/// The delay leads to the next slot's first millisecond: to genesis before it, behind it to a
/// multiple of four seconds, which is at most one slot away.
pub proof fn law_next_slot(genesis: u64, now: u64, s: u64, r: u64)
    requires
        genesis <= u64::MAX / 1000,
        call_ensures(slot::slot_index_from_unix_millis, (genesis, now), s),
        call_ensures(slot::next_slot_boundary_delay, (genesis, now), r),
    ensures
        now < 1_000 * genesis ==> now + r == 1_000 * genesis,
        now >= 1_000 * genesis ==> now + r == 1_000 * genesis + 4_000 * (s + 1),
        0 < r,
        now >= 1_000 * genesis ==> r <= 4_000,
{
}

/// A slot may be justified when it lies at most five slots behind the finalized one, or as many
/// as a square or as a product of two neighbouring numbers; one before the finalized slot cannot
/// be asked for.
pub proof fn law_justifiable(s: Slot, finalized: Slot, r: Result<bool, String>, k: nat)
    requires
        call_ensures(slot::is_justifiable_after, (s, finalized), r),
    ensures
        s.num() < finalized.num() <==> r is Err,
        r is Ok && s.num() <= finalized.num() + 5 ==> r->Ok_0,
        s.num() == finalized.num() + k * k ==> r is Ok && r->Ok_0,
        s.num() == finalized.num() + k * (k + 1) ==> r is Ok && r->Ok_0,
        s.num() > finalized.num() + 5 && s.num() > finalized.num() + k * (k + 1) && s.num()
            < finalized.num() + (k + 1) * (k + 1) ==> r is Ok && !r->Ok_0,
        s.num() > finalized.num() + 5 && s.num() > finalized.num() + k * k && s.num()
            < finalized.num() + k * (k + 1) ==> r is Ok && !r->Ok_0,
{
    assert(k * k >= 0) by (nonlinear_arith);
    assert(k * (k + 1) >= 0) by (nonlinear_arith);
    if s.num() >= finalized.num() {
        let d = (s.num() - finalized.num()) as nat;
        if d == k * k {
            assert(slot::justifiable_distance(d));
        }
        if d == k * (k + 1) {
            assert(slot::justifiable_distance(d));
        }
        if d > 5 && slot::justifiable_distance(d) {
            if exists|j: nat| #[trigger] (j * j) == d {
                let j = choose|j: nat| #[trigger] (j * j) == d;
                lemma_between(j, k);
            } else {
                let j = choose|j: nat| #[trigger] (j * (j + 1)) == d;
                lemma_between(j, k);
            }
        }
    }
}

proof fn lemma_between(j: nat, k: nat)
    ensures
        j <= k ==> j * j <= k * k,
        j > k ==> j * j >= (k + 1) * (k + 1),
        j <= k ==> j * (j + 1) <= k * (k + 1),
        j < k ==> j * (j + 1) <= k * k,
        j > k ==> j * (j + 1) >= (k + 1) * (k + 1),
        k * k <= k * (k + 1) <= (k + 1) * (k + 1),
{
    assert(j <= k ==> j * j <= k * k) by (nonlinear_arith);
    assert(j > k ==> j * j >= (k + 1) * (k + 1)) by (nonlinear_arith);
    assert(j <= k ==> j * (j + 1) <= k * (k + 1)) by (nonlinear_arith);
    assert(j < k ==> j * (j + 1) <= k * k) by (nonlinear_arith);
    assert(j > k ==> j * (j + 1) >= (k + 1) * (k + 1)) by (nonlinear_arith);
    assert(k * k <= k * (k + 1) <= (k + 1) * (k + 1)) by (nonlinear_arith);
}

/// A request or a response that failed costs its peer 10.
pub proof fn law_failed_requests(service: P2pService, peer: String, r: NetworkEvent)
    requires
        call_ensures(P2pService::on_reqresp_failure, (&service, &peer), r),
    ensures
        r@ == (EventModel::PeerScored { peer_id: peer@, score: -10i64 }),
{
}

/// A request that is too large costs its peer 25 and gets no answer. Any other one is told, and
/// answered.
pub proof fn law_requests<H: ReqRespHandler>(
    service: P2pService,
    peer: String,
    request: LeanRequest,
    handler: H,
    r: (Vec<NetworkEvent>, Option<LeanResponse>),
)
    requires
        call_ensures(P2pService::on_request::<H>, (&service, &peer, &request, &handler), r),
    ensures
        request@.payload.len() > service@.max_reqresp_bytes ==> r.1 is None && events::event_models(
            r.0@,
        ) == seq![EventModel::PeerScored { peer_id: peer@, score: -25i64 }],
        request@.payload.len() <= service@.max_reqresp_bytes ==> {
            &&& events::event_models(r.0@) == seq![
                EventModel::ReqRespRequest {
                    peer_id: peer@,
                    protocol: request@.protocol,
                    payload: request@.payload,
                },
            ]
            &&& r.1 matches Some(reply)
            &&& reply@ == p2p::reply_to(handler, request@)
        },
{
}

/// Every validator signs votes and proposals with the key that the registry holds at its place.
/// Without validators nothing is checked.
pub proof fn law_verifier_of_validators(all: &[Validator], r: ValidatorsVerifier, i: int)
    requires
        call_ensures(validate::verifier_from_validators, (all,), r),
    ensures
        all@.len() == 0 <==> r is Noop,
        r matches ValidatorsVerifier::Simple(v) ==> {
            &&& v@.attestation_pubkeys.len() == all@.len()
            &&& v@.proposal_pubkeys.len() == all@.len()
            &&& v@.accepted.len() == 0
            &&& 0 <= i < all@.len() ==> v@.attestation_pubkeys[i] == all@[i].pubkey
                && v@.proposal_pubkeys[i] == all@[i].pubkey
        },
{
}

/// A network begins without peers. In each second it sends at most 64 messages and 64 requests
/// for a key, and takes at most 256 messages and 128 requests of a peer; of a topic it takes at
/// most 10 messages in five seconds.
pub proof fn law_network_begins_empty(config: NetworkingConfig, r: Networking)
    requires
        call_ensures(Networking::start_with_config, (&config,), r),
    ensures
        r@.peers.peers == Set::<Seq<char>>::empty(),
        r@.peers.scores.dom() == Set::<Seq<char>>::empty(),
        r@.peers.backoff.dom() == Set::<Seq<char>>::empty(),
        r@.gossip.window == 1_000_000_000 && r@.gossip.max_events == 64,
        r@.reqresp.window == 1_000_000_000 && r@.reqresp.max_events == 64,
        r@.gossip_limiter.window == 1_000_000_000 && r@.gossip_limiter.max_events == 256,
        r@.reqresp_limiter.window == 1_000_000_000 && r@.reqresp_limiter.max_events == 128,
        r@.topic_limiter.window == 5_000_000_000 && r@.topic_limiter.max_events == 10,
        r@.seeds.len() == 0,
        r@.dial_interval == config.discovery_interval_secs,
        r@.score_decay_amount == config.score_decay_amount,
        r@.ban_threshold == config.ban_threshold,
{
}

/// A store begins with its anchor: the block is the head, safe, justified and finalized, at the
/// slots of the state's checkpoints, and no vote is counted or waits.
pub proof fn law_store_begins_at_the_anchor(
    block: SignedBlockWithAttestation,
    post: State,
    r: Result<ForkChoiceStore, String>,
)
    requires
        call_ensures(ForkChoiceStore::new, (block, post), r),
    ensures
        r is Ok <==> crate::fork_choice::state_matches(post@, block@.message.block.state_root),
        r matches Ok(store) ==> {
            let root = block@.message.block.root_value();
            &&& store@.head == root
            &&& store@.head_slot == block@.message.block.slot.num()
            &&& store@.safe_target == root
            &&& store@.latest_justified.root == root
            &&& store@.latest_justified.slot == post@.latest_justified.slot
            &&& store@.latest_finalized.root == root
            &&& store@.latest_finalized.slot == post@.latest_finalized.slot
            &&& store@.reorgs_total == 0
            &&& store@.validator_count == post@.validators.len()
            &&& store@.blocks.dom() == Set::empty().insert(root)
            &&& store@.blocks[root] == block@
            &&& store@.states[root] == post@
            &&& store@.parents[root] == block@.message.block.parent_root
            &&& store@.votes.dom() == Set::<usize>::empty()
            &&& store@.new_votes.dom() == Set::<usize>::empty()
        },
{
    if let Ok(store) = r {
        assert(store@.blocks.dom() =~= Set::empty().insert(block@.message.block.root_value()));
        assert(store@.votes.dom() =~= Set::<usize>::empty());
        assert(store@.new_votes.dom() =~= Set::<usize>::empty());
    }
}

/// An aggregated proof is looked at when it has participants and at least eight bytes.
pub proof fn law_aggregate_inputs(keys: usize, len: usize, r: Result<(), String>)
    requires
        call_ensures(pq::check_verify_aggregate, (keys, len), r),
    ensures
        r is Ok <==> keys > 0 && len >= 8,
{
}

/// A key has 52 bytes and a signature 3112; other lengths are refused.
pub proof fn law_generated_values(
    bytes: &[u8],
    key: Result<Bytes52, String>,
    signature: Result<Bytes3112, String>,
)
    requires
        call_ensures(pq::generated_public_key, (bytes,), key),
        call_ensures(pq::generated_signature, (bytes,), signature),
    ensures
        key is Ok <==> bytes@.len() == 52,
        signature is Ok <==> bytes@.len() == 3_112,
        key matches Ok(k) ==> k == Bytes52::of(bytes@),
        signature matches Ok(s) ==> s == Bytes3112::of(bytes@),
{
}

/// What has to be waited for before a peer is dialed again is the time up to its next turn.
pub proof fn law_waiting_time(m: PeerManager, peer: String, now: u64, r: Option<u64>)
    requires
        call_ensures(PeerManager::backoff_remaining, (&m, &peer, now), r),
    ensures
        r matches Some(left) ==> left > 0 && m@.backoff.contains_key(peer@) && now + left
            == m@.backoff[peer@].next_allowed,
        r is None && m@.backoff.contains_key(peer@) ==> m@.backoff[peer@].next_allowed <= now,
{
}

/// A good response earns its peer 10, and a failed one costs it 20; the scores of the others stay.
pub proof fn law_scored_responses(
    m: &mut PeerManager,
    n: &mut PeerManager,
    peer: String,
    good: (i64, NetworkEvent),
    bad: (i64, NetworkEvent),
    other: Seq<char>,
)
    requires
        call_ensures(PeerManager::successful_response_from_peer, (m, &peer), good),
        call_ensures(PeerManager::failed_response_from_peer, (n, &peer), bad),
        -1_000_000 < crate::networking::peer_manager::score_of(old(m)@, peer@) < 1_000_000,
        -1_000_000 < crate::networking::peer_manager::score_of(old(n)@, peer@) < 1_000_000,
    ensures
        good.0 == crate::networking::peer_manager::score_of(old(m)@, peer@) + 10,
        bad.0 == crate::networking::peer_manager::score_of(old(n)@, peer@) - 20,
        final(m)@.scores.contains_key(peer@) && final(m)@.scores[peer@] == good.0,
        final(n)@.scores.contains_key(peer@) && final(n)@.scores[peer@] == bad.0,
        good.1@ == (EventModel::PeerScored { peer_id: peer@, score: good.0 }),
        bad.1@ == (EventModel::PeerScored { peer_id: peer@, score: bad.0 }),
        other != peer@ ==> final(m)@.scores.contains_key(other) == old(m)@.scores.contains_key(
            other,
        ),
        other != peer@ && old(m)@.scores.contains_key(other) ==> final(m)@.scores[other]
            == old(m)@.scores[other],
{
}

/// The sizes of the values that have one.
pub proof fn law_sizes(
    vote: usize,
    signed_vote: usize,
    header: usize,
    checkpoint: usize,
    validator: usize,
)
    requires
        call_ensures(AttestationData::fixed_len, (), vote),
        call_ensures(SignedAttestation::fixed_len, (), signed_vote),
        call_ensures(BlockHeader::fixed_len, (), header),
        call_ensures(Checkpoint::fixed_len, (), checkpoint),
        call_ensures(Validator::fixed_len, (), validator),
    ensures
        checkpoint == 32 + 8,
        vote == 8 + 3 * checkpoint,
        signed_vote == 8 + vote + 3_112,
        header == 8 + 8 + 3 * 32,
        validator == 52 + 8 + 8,
{
}

} // verus!
