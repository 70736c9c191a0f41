//! What the operations of the chain do, stated over their arguments and results.

use crate::containers::attestation::{Attestation, AttestationModel};
use crate::containers::block::{Attestations, SignedBlockModel, SignedBlockWithAttestation};
use crate::containers::checkpoint::Checkpoint;
use crate::containers::state::State;
use crate::fork_choice::ForkChoiceStore;
use crate::laws::finality;
use crate::laws::fork_choice as branches;
use crate::laws::gossip;
use crate::laws::roots;
use crate::networking::gossipsub::context::GossipContext;
use crate::networking::gossipsub::lean::message::{LeanGossipsubMessage, MessageModel};
use crate::networking::gossipsub::validate;
use crate::networking::gossipsub::validate::{ValidationResult, Verdict};
use crate::slot::Slot;
use crate::ssz;
use crate::ssz::hash;
use crate::storage::BlockTable;
use crate::types::bitlist;
use crate::types::bytes::Bytes32;
use vstd::prelude::*;

verus! {

/// The root of a state commits to each of its ten consensus fields in its own place.
pub proof fn law_state_root(s: State, r: [u8; 32])
    requires
        call_ensures(State::hash_tree_root, (&s,), r),
    ensures
        Bytes32(r) == roots::above(
            roots::above(
                roots::above_four(
                    hash::number_chunk(s@.config.genesis_time.0),
                    hash::number_chunk(s@.slot.0.0),
                    s@.latest_block_header.root_value(),
                    roots::above(
                        s@.latest_justified.root,
                        hash::number_chunk(s@.latest_justified.slot.0.0),
                    ),
                ),
                roots::above_four(
                    roots::above(
                        s@.latest_finalized.root,
                        hash::number_chunk(s@.latest_finalized.slot.0.0),
                    ),
                    ssz::list_root::<Bytes32>(s@.historical_block_hashes, 262_144),
                    bitlist::bitlist_root(s@.justified_slots, 262_144),
                    ssz::list_root::<crate::containers::validator::Validator>(s@.validators, 4_096),
                ),
            ),
            roots::above(
                roots::above_four(
                    ssz::list_root::<Bytes32>(s@.justifications_roots, 262_144),
                    bitlist::bitlist_root(s@.justifications_validators, 1_073_741_824),
                    roots::blank(),
                    roots::blank(),
                ),
                roots::above_four(roots::blank(), roots::blank(), roots::blank(), roots::blank()),
            ),
        ),
{
    roots::law_state_root_commits_to_every_field(s@);
}

/// A block comes into the store when its state carries its state root, and is refused otherwise,
/// which changes nothing. Behind the import the votes that it carries count: each voter's last one
/// for a known block, the proposer's own coming last. The others keep their votes.
pub proof fn law_block_comes_in(
    store: &mut ForkChoiceStore,
    signed: SignedBlockWithAttestation,
    post: State,
    r: Result<(), String>,
    v: usize,
)
    requires
        call_ensures(ForkChoiceStore::on_block, (store, signed, post), r),
    ensures
        r is Ok <==> post@.latest_block_header.state_root == signed@.message.block.state_root
            || post@.root_value() == signed@.message.block.state_root,
        r is Err ==> final(store)@ == old(store)@,
        r is Ok ==> {
            let root = signed@.message.block.root_value();
            let known = old(store)@.blocks.insert(root, signed@);
            let list = branches::carried(signed@);
            let after = final(store)@;
            &&& after.blocks == known
            &&& after.states.contains_key(root) && after.states[root] == post@
            &&& after.new_votes == old(store)@.new_votes
            &&& forall|i: int| #[trigger]
                branches::speaks_last(known, list, list.len() as int, v, i)
                    ==> after.votes.contains_key(v) && after.votes[v] == list[i].data.head.root
            &&& branches::is_silent(known, list, list.len() as int, v) ==> branches::same_vote(
                after.votes,
                old(store)@.votes,
                v,
            )
        },
{
    branches::law_block_votes_count(old(store)@, signed@, post@, v);
}

/// A vote from the network waits for the target that it names, if that block is known; it is
/// counted when the waiting votes are accepted, in place of the voter's earlier vote.
pub proof fn law_vote_waits_and_counts(
    store: &mut ForkChoiceStore,
    vote: Attestation,
    taken: bool,
    v: usize,
)
    requires
        call_ensures(ForkChoiceStore::on_attestation, (store, &vote), taken),
    ensures
        ({
            let before = old(store)@;
            let after = final(store)@;
            let target = vote@.data.target.root;
            let voted = v < vote@.aggregation_bits.len() && vote@.aggregation_bits[v as int];
            &&& taken == before.blocks.contains_key(target)
            &&& after.votes == before.votes
            &&& after.head == before.head
            &&& taken && voted ==> after.new_votes.contains_key(v) && after.new_votes[v] == target
            &&& !taken || !voted ==> branches::same_vote(after.new_votes, before.new_votes, v)
        }),
{
    branches::law_vote_goes_to_its_block(
        old(store)@.blocks,
        old(store)@.new_votes,
        vote@.aggregation_bits,
        vote@.data.target.root,
        v,
    );
}

/// Accepting the waiting votes counts them and leaves none waiting.
pub proof fn law_waiting_votes_are_accepted(store: &mut ForkChoiceStore, r: (), v: usize)
    requires
        call_ensures(ForkChoiceStore::accept_new_votes, (store,), r),
        old(store)@.new_votes.dom().len() > 0,
    ensures
        old(store)@.new_votes.contains_key(v) ==> final(store)@.votes.contains_key(v) && final(store)@.votes[v] == old(store)@.new_votes[v],
        !old(store)@.new_votes.contains_key(v) ==> branches::same_vote(
            final(store)@.votes,
            old(store)@.votes,
            v,
        ),
        !final(store)@.new_votes.contains_key(v),
{
    branches::law_accepted_votes_replace(old(store)@, v);
}

/// The target of a vote. Going back from the head stops at the first block, within three steps,
/// that does not lie above the safe target; where that block can be justified it is the target,
/// unless the justified checkpoint is later.
pub proof fn law_vote_target(
    store: ForkChoiceStore,
    finalized: Slot,
    r: Option<Checkpoint>,
    path: Seq<Bytes32>,
    k: int,
)
    requires
        call_ensures(ForkChoiceStore::attestation_target, (&store, finalized), r),
        branches::is_head_branch(store@, path),
        branches::stops_at(store@, path, k),
        branches::block_slot(store@, path[k]) >= finalized.num(),
        branches::may_be_justified(branches::block_slot(store@, path[k]) - finalized.num()),
    ensures
        r is Some,
        branches::block_slot(store@, path[k]) >= store@.latest_justified.slot.num() ==> r->Some_0.root
            == path[k] && r->Some_0.slot.num() == branches::block_slot(store@, path[k]),
        branches::block_slot(store@, path[k]) < store@.latest_justified.slot.num() ==> r
            == Some(store@.latest_justified),
{
    branches::law_target_of_the_vote(store@, finalized, path, k, k);
}

/// One vote, processed by itself: from two thirds of the validators on its target is justified,
/// and below nothing is.
pub proof fn law_vote_is_processed(
    s: &mut State,
    votes: Attestations,
    r: Result<(), String>,
    vote: AttestationModel,
)
    requires
        call_ensures(State::process_attestations, (s, &votes), r),
        votes@ == seq![vote],
        finality::rows_are_whole(old(s)@),
        old(s)@.validators.len() > 0,
    ensures
        ({
            let before = old(s)@;
            let after = final(s)@;
            let linked = finality::links(
                before,
                before.justified_slots,
                before.latest_finalized.slot.num(),
                vote.data.source,
                vote.data.target,
            );
            let c = finality::behind_target(before, vote).len();
            let n = before.validators.len();
            &&& !linked ==> after == before && r is Ok
            &&& linked && 3 * c >= 2 * n ==> after.latest_justified == vote.data.target
            &&& linked && 3 * c < 2 * n ==> after.latest_justified == before.latest_justified
                && after.latest_finalized == before.latest_finalized
        }),
{
    finality::law_one_vote(old(s)@, vote, 0);
}

/// A block from the network is accepted exactly when its parent is known, it lies above finality,
/// it is at most one slot ahead, and its proposer's vote and the votes of its body are in order.
pub proof fn law_block_from_the_network<C: GossipContext>(
    c: C,
    message: LeanGossipsubMessage,
    signed: SignedBlockModel,
    r: ValidationResult,
)
    requires
        call_ensures(validate::validate_with_context::<C>, (&message, &c), r),
        message@ == MessageModel::Block(signed),
    ensures
        r@ == Verdict::Accept <==> {
            let b = signed.message.block;
            let vote = signed.message.proposer_attestation.data;
            &&& c.knows(b.parent_root)
            &&& forall|f: Slot| c.finalized() == Some(f) ==> b.slot.num() > #[trigger] f.num()
            &&& gossip::in_time(c, b.slot.num())
            &&& vote.source.slot.num() < vote.target.slot.num() <= vote.head.slot.num()
            &&& gossip::blocks_known(c, vote)
            &&& gossip::in_time(c, vote.slot.num())
            &&& gossip::not_before_finality(c, vote.source.slot.num())
            &&& forall|k: int|
                0 <= k < b.attestations.len() ==> gossip::body_vote_in_order(
                    c,
                    (#[trigger] b.attestations[k]).data,
                    b.slot.num(),
                )
        },
{
    gossip::law_block_in_context(c, signed);
}

/// What is put into the table can be read from it, and nothing else changes.
pub proof fn law_table_reads_back(
    t: &mut BlockTable,
    root: Bytes32,
    signed: SignedBlockWithAttestation,
    r: (),
    other: Bytes32,
)
    requires
        call_ensures(BlockTable::insert, (t, root, signed), r),
    ensures
        final(t)@.blocks.contains_key(root) && final(t)@.blocks[root] == signed@,
        other != root ==> final(t)@.blocks.contains_key(other) == old(t)@.blocks.contains_key(other),
        other != root && old(t)@.blocks.contains_key(other) ==> final(t)@.blocks[other] == old(t)@.blocks[other],
        final(t)@.head == old(t)@.head,
        final(t)@.finalized == old(t)@.finalized,
{
}

/// Advancing a state ends at the slot that was asked for, which must lie ahead.
pub proof fn law_slots_go_on(s: &mut State, target: Slot, r: Result<(), String>)
    requires
        call_ensures(State::process_slots, (s, target), r),
        old(s)@.root_value() != Bytes32::zero_value(),
    ensures
        r is Ok <==> old(s)@.slot.num() < target.num(),
        r is Ok ==> final(s)@.slot.num() == target.num() && final(s)@.latest_justified
            == old(s)@.latest_justified && final(s)@.latest_finalized == old(s)@.latest_finalized,
        r is Err ==> final(s)@ == old(s)@,
{
    if old(s)@.slot.num() < target.num() {
        crate::laws::transition::law_advancing_closes_the_header(old(s)@, target);
    }
}

} // verus!
