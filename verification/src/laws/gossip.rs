//! Which gossip messages are accepted, which are dropped, and whose sender is blamed.

use crate::containers::attestation::{AttestationData, AttestationModel, SignedAttestation};
use crate::containers::block::SignedBlockModel;
use crate::networking::gossipsub::context::GossipContext;
use crate::networking::gossipsub::lean::message::MessageModel;
use crate::networking::gossipsub::validate;
use crate::networking::gossipsub::validate::Verdict;
use vstd::prelude::*;

verus! {

/// The four slots of a vote follow one another: the source lies below the target, the target
/// at or below the head, the head at or below the slot of the vote.
pub open spec fn slots_follow(data: AttestationData) -> bool {
    data.source.slot.num() < data.target.slot.num() <= data.head.slot.num() <= data.slot.num()
}

/// The context knows the three blocks that a vote names.
pub open spec fn blocks_known<C: GossipContext>(c: C, data: AttestationData) -> bool {
    &&& c.knows(data.source.root)
    &&& c.knows(data.target.root)
    &&& c.knows(data.head.root)
}

/// A vote by itself, without a limit on its slot, is accepted exactly when its slots follow
/// one another; otherwise it is rejected.
pub proof fn law_vote_alone(data: AttestationData)
    ensures
        slots_follow(data) ==> validate::fields_verdict(data, None) == Verdict::Accept,
        !slots_follow(data) ==> validate::fields_verdict(data, None) is Reject,
{
}

/// A vote with a limit is accepted exactly when its slots follow one another up to the limit.
/// Only one whose slots do not follow one another is rejected.
pub proof fn law_vote_under_limit(data: AttestationData, limit: u64)
    ensures
        slots_follow(data) && data.slot.num() <= limit ==> validate::fields_verdict(
            data,
            Some(limit),
        ) == Verdict::Accept,
        slots_follow(data) && data.slot.num() > limit ==> validate::fields_verdict(
            data,
            Some(limit),
        ) == Verdict::Ignore("attestation from future slot"@),
        !slots_follow(data) ==> validate::fields_verdict(data, Some(limit)) is Reject,
{
}

/// The reason of a rejection is the first thing out of order, from the source upwards.
pub proof fn law_rejected_vote_names_its_fault(data: AttestationData, limit: Option<u64>)
    ensures
        data.source.slot.num() >= data.target.slot.num() ==> validate::fields_verdict(data, limit)
            == Verdict::Reject("attestation target not above source"@),
        data.source.slot.num() < data.target.slot.num() && data.target.slot.num()
            > data.head.slot.num() ==> validate::fields_verdict(data, limit) == Verdict::Reject(
            "attestation head below target"@,
        ),
        data.source.slot.num() < data.target.slot.num() <= data.head.slot.num()
            && data.head.slot.num() > data.slot.num() ==> validate::fields_verdict(data, limit)
            == Verdict::Reject("attestation slot below head slot"@),
{
}

proof fn lemma_all_fields(votes: Seq<AttestationModel>, limit: u64, i: nat)
    requires
        i <= votes.len(),
    ensures
        validate::all_fields_verdict(votes, limit, i) == Verdict::Accept <==> forall|k: int|
            i <= k < votes.len() ==> slots_follow((#[trigger] votes[k]).data)
                && votes[k].data.slot.num() <= limit,
        forall|k: int|
            i <= k < votes.len() && (forall|j: int|
                i <= j < k ==> slots_follow((#[trigger] votes[j]).data)
                    && votes[j].data.slot.num() <= limit) && !slots_follow(
                (#[trigger] votes[k]).data,
            ) ==> validate::all_fields_verdict(votes, limit, i) is Reject,
    decreases votes.len() - i,
{
    if i < votes.len() {
        lemma_all_fields(votes, limit, i + 1);
        law_vote_under_limit(votes[i as int].data, limit);
        assert forall|k: int|
            i <= k < votes.len() && (forall|j: int|
                i <= j < k ==> slots_follow((#[trigger] votes[j]).data)
                    && votes[j].data.slot.num() <= limit) && !slots_follow(
                (#[trigger] votes[k]).data,
            ) implies validate::all_fields_verdict(votes, limit, i) is Reject by {
            if k > i {
                assert(slots_follow(votes[i as int].data));
            }
        }
        if validate::all_fields_verdict(votes, limit, i) == Verdict::Accept {
            assert forall|k: int| i <= k < votes.len() implies slots_follow(
                (#[trigger] votes[k]).data,
            ) && votes[k].data.slot.num() <= limit by {}
        }
        if forall|k: int|
            i <= k < votes.len() ==> slots_follow((#[trigger] votes[k]).data)
                && votes[k].data.slot.num() <= limit {
            assert(slots_follow(votes[i as int].data));
        }
    }
}

/// A block by itself is accepted exactly when its proposer votes in the block's slot and every
/// vote in its body has slots that follow one another up to the block's slot. A proposer's
/// vote of another slot is rejected.
pub proof fn law_block_alone(s: SignedBlockModel)
    ensures
        validate::block_basic_verdict(s) == Verdict::Accept <==> {
            &&& s.message.proposer_attestation.data.slot.num() == s.message.block.slot.num()
            &&& forall|k: int|
                0 <= k < s.message.block.attestations.len() ==> {
                    let data = (#[trigger] s.message.block.attestations[k]).data;
                    slots_follow(data) && data.slot.num() <= s.message.block.slot.num()
                }
        },
        s.message.proposer_attestation.data.slot.num() != s.message.block.slot.num()
            ==> validate::block_basic_verdict(s) == Verdict::Reject(
            "proposer attestation slot mismatch"@,
        ),
{
    let b = s.message.block;
    lemma_all_fields(b.attestations, b.slot.0.0, 0);
    let p = s.message.proposer_attestation.data.slot;
    assert(p.num() == b.slot.num() ==> p.0 == b.slot.0);
}

/// With one committee every validator publishes on subnet 0. There an attestation is accepted
/// exactly when its slots follow one another; on any other subnet it is rejected.
pub proof fn law_attestation_belongs_to_its_subnet(subnet_id: u64, a: SignedAttestation)
    ensures
        subnet_id == 0 && slots_follow(a.message) ==> validate::subnet_basic_verdict(subnet_id, a)
            == Verdict::Accept,
        subnet_id == 0 && !slots_follow(a.message) ==> validate::subnet_basic_verdict(subnet_id, a)
            is Reject,
        subnet_id != 0 ==> validate::subnet_basic_verdict(subnet_id, a) == Verdict::Reject(
            "attestation published on wrong subnet"@,
        ),
{
}

/// A vote is at most one slot ahead of the slot in progress, where there is a clock.
pub open spec fn in_time<C: GossipContext>(c: C, slot: int) -> bool {
    forall|now: crate::slot::Slot| c.current() == Some(now) ==> slot <= #[trigger] now.num() + 1
}

/// A vote's source is not before finality, where there is a finalized slot.
pub open spec fn not_before_finality<C: GossipContext>(c: C, slot: int) -> bool {
    forall|f: crate::slot::Slot| c.finalized() == Some(f) ==> slot >= #[trigger] f.num()
}

/// The context accepts a vote exactly when its source lies below its target and its target at
/// or below its head, its three blocks are known, it is at most one slot ahead of the slot in
/// progress, and its source is not before finality. Votes out of order are rejected, all
/// others are ignored.
pub proof fn law_vote_in_context<C: GossipContext>(c: C, data: AttestationData)
    ensures
        validate::vote_context_verdict(c, data) == Verdict::Accept <==> {
            &&& data.source.slot.num() < data.target.slot.num() <= data.head.slot.num()
            &&& blocks_known(c, data)
            &&& in_time(c, data.slot.num())
            &&& not_before_finality(c, data.source.slot.num())
        },
        validate::vote_context_verdict(c, data) is Reject <==> !(data.source.slot.num()
            < data.target.slot.num() <= data.head.slot.num()),
        data.source.slot.num() < data.target.slot.num() <= data.head.slot.num() && !blocks_known(
            c,
            data,
        ) ==> validate::vote_context_verdict(c, data) == Verdict::Ignore(
            "attestation references unknown chain roots"@,
        ),
        data.source.slot.num() < data.target.slot.num() <= data.head.slot.num() && blocks_known(
            c,
            data,
        ) && !in_time(c, data.slot.num()) ==> validate::vote_context_verdict(c, data)
            == Verdict::Ignore("attestation from future slot"@),
{
    match c.current() {
        Some(now) => {
            assert(in_time(c, data.slot.num()) <==> data.slot.num() <= now.num() + 1);
        },
        None => {},
    }
    match c.finalized() {
        Some(f) => {
            assert(not_before_finality(c, data.source.slot.num()) <==> data.source.slot.num()
                >= f.num());
        },
        None => {},
    }
}

/// A vote in the body of a block is in order: its slots follow one another up to the block's
/// slot and its three blocks are known.
pub open spec fn body_vote_in_order<C: GossipContext>(
    c: C,
    data: AttestationData,
    slot: int,
) -> bool {
    slots_follow(data) && data.slot.num() <= slot && blocks_known(c, data)
}

proof fn lemma_body_votes<C: GossipContext>(c: C, votes: Seq<AttestationModel>, limit: u64, i: nat)
    requires
        i <= votes.len(),
    ensures
        validate::attestations_context_verdict(c, votes, limit, i) == Verdict::Accept <==> forall|
            k: int,
        |
            i <= k < votes.len() ==> body_vote_in_order(
                c,
                (#[trigger] votes[k]).data,
                limit as int,
            ),
        validate::attestations_context_verdict(c, votes, limit, i) is Reject ==> exists|k: int|
            i <= k < votes.len() && !slots_follow((#[trigger] votes[k]).data),
    decreases votes.len() - i,
{
    if i < votes.len() {
        lemma_body_votes(c, votes, limit, i + 1);
        law_vote_under_limit(votes[i as int].data, limit);
        let all = forall|k: int|
            i <= k < votes.len() ==> body_vote_in_order(
                c,
                (#[trigger] votes[k]).data,
                limit as int,
            );
        if all {
            assert(body_vote_in_order(c, votes[i as int].data, limit as int));
        }
        if !slots_follow(votes[i as int].data) {
            assert(!slots_follow(votes[i as int].data));
        } else if validate::attestations_context_verdict(c, votes, limit, i) is Reject {
            let k = choose|k: int|
                i + 1 <= k < votes.len() && !slots_follow((#[trigger] votes[k]).data);
            assert(!slots_follow(votes[k].data));
        }
    }
}

/// A block is accepted exactly when its parent is known, it lies above finality, it is at most
/// one slot ahead of the slot in progress, its proposer's vote is accepted by itself, and every
/// vote in its body is in order and names known blocks. So a block of the slot in progress or
/// the next one is never held back for its slot.
pub proof fn law_block_in_context<C: GossipContext>(c: C, s: SignedBlockModel)
    ensures
        validate::block_context_verdict(c, s) == Verdict::Accept <==> {
            let b = s.message.block;
            let vote = s.message.proposer_attestation.data;
            &&& c.knows(b.parent_root)
            &&& forall|f: crate::slot::Slot|
                c.finalized() == Some(f) ==> b.slot.num() > #[trigger] f.num()
            &&& in_time(c, b.slot.num())
            &&& vote.source.slot.num() < vote.target.slot.num() <= vote.head.slot.num()
            &&& blocks_known(c, vote)
            &&& in_time(c, vote.slot.num())
            &&& not_before_finality(c, vote.source.slot.num())
            &&& forall|k: int|
                0 <= k < b.attestations.len() ==> body_vote_in_order(
                    c,
                    (#[trigger] b.attestations[k]).data,
                    b.slot.num(),
                )
        },
{
    let b = s.message.block;
    law_vote_in_context(c, s.message.proposer_attestation.data);
    lemma_body_votes(c, b.attestations, b.slot.0.0, 0);
    match c.current() {
        Some(now) => {
            assert(in_time(c, b.slot.num()) <==> b.slot.num() <= now.num() + 1);
        },
        None => {},
    }
    match c.finalized() {
        Some(f) => {
            assert((forall|g: crate::slot::Slot|
                c.finalized() == Some(g) ==> b.slot.num() > #[trigger] g.num()) <==> b.slot.num()
                > f.num());
        },
        None => {},
    }
}

/// What becomes of a block that is not accepted. Without a known parent it is ignored,
/// whatever else holds of it. With one, it is rejected at or before the finalized slot, and
/// above it ignored when it lies more than one slot ahead. The sender of a block is blamed for
/// nothing but a finalized slot or a vote out of order.
pub proof fn law_refused_block<C: GossipContext>(c: C, s: SignedBlockModel)
    ensures
        ({
            let b = s.message.block;
            let verdict = validate::block_context_verdict(c, s);
            &&& !c.knows(b.parent_root) ==> verdict == Verdict::Ignore(
                "block parent root unknown locally"@,
            )
            &&& forall|f: crate::slot::Slot|
                c.knows(b.parent_root) && c.finalized() == Some(f) && b.slot.num()
                    <= #[trigger] f.num() ==> verdict == Verdict::Reject(
                    "block at or before finalized slot"@,
                )
            &&& c.knows(b.parent_root) && (forall|f: crate::slot::Slot|
                c.finalized() == Some(f) ==> b.slot.num() > #[trigger] f.num()) && !in_time(
                c,
                b.slot.num(),
            ) ==> verdict == Verdict::Ignore("block from future slot"@)
            &&& verdict is Reject ==> {
                ||| exists|f: crate::slot::Slot|
                    c.finalized() == Some(f) && b.slot.num() <= #[trigger] f.num()
                ||| {
                    let vote = s.message.proposer_attestation.data;
                    !(vote.source.slot.num() < vote.target.slot.num() <= vote.head.slot.num())
                }
                ||| exists|k: int|
                    0 <= k < b.attestations.len() && !slots_follow(
                        (#[trigger] b.attestations[k]).data,
                    )
            }
        }),
{
    let b = s.message.block;
    law_vote_in_context(c, s.message.proposer_attestation.data);
    lemma_body_votes(c, b.attestations, b.slot.0.0, 0);
    match c.current() {
        Some(now) => {
            assert(in_time(c, b.slot.num()) <==> b.slot.num() <= now.num() + 1);
        },
        None => {},
    }
    match c.finalized() {
        Some(f) => {
            assert(f.num() == f.num());
            assert((forall|g: crate::slot::Slot|
                c.finalized() == Some(g) ==> b.slot.num() > #[trigger] g.num()) <==> b.slot.num()
                > f.num());
        },
        None => {},
    }
}

/// Each kind of message is held to the rules of what it carries. An attestation of a subnet
/// must belong there before the context is asked.
pub proof fn law_messages_are_held_to_their_rules<C: GossipContext>(c: C, m: MessageModel)
    ensures
        m matches MessageModel::Block(s) ==> {
            &&& validate::basic_verdict(m) == validate::block_basic_verdict(s)
            &&& validate::context_verdict(c, m) == validate::block_context_verdict(c, s)
        },
        m matches MessageModel::Attestation(a) ==> {
            &&& validate::basic_verdict(m) == Verdict::Accept <==> slots_follow(a.message)
            &&& validate::context_verdict(c, m) == validate::vote_context_verdict(c, a.message)
        },
        m matches MessageModel::AttestationSubnet { subnet_id, attestation } ==> {
            &&& validate::basic_verdict(m) == Verdict::Accept <==> subnet_id == 0 && slots_follow(
                attestation.message,
            )
            &&& subnet_id == 0 && slots_follow(attestation.message) ==> validate::context_verdict(
                c,
                m,
            ) == validate::vote_context_verdict(c, attestation.message)
            &&& !(subnet_id == 0 && slots_follow(attestation.message))
                ==> validate::context_verdict(c, m) is Reject
        },
        m matches MessageModel::AggregatedAttestation(a) ==> {
            &&& validate::basic_verdict(m) == Verdict::Accept <==> slots_follow(a.data)
            &&& validate::context_verdict(c, m) == validate::vote_context_verdict(c, a.data)
        },
{
}

} // verus!
