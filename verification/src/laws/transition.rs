//! What a block does to the state, and which blocks are refused.

use crate::containers::attestation::AttestationData;
use crate::containers::block;
use crate::containers::block::{BlockHeader, BlockModel, SignedBlockModel};
use crate::containers::justification;
use crate::containers::state;
use crate::containers::state::{SignatureVerifier, StateModel};
use crate::containers::validator::Validator;
use crate::slot::Slot;
use crate::types::bytes::Bytes32;
use crate::types::uint::Uint64;
use vstd::prelude::*;

verus! {

/// The latest header, with the root of the state where its state root is still open.
pub open spec fn closed_header(s: StateModel) -> BlockHeader {
    BlockHeader {
        slot: s.latest_block_header.slot,
        proposer_index: s.latest_block_header.proposer_index,
        parent_root: s.latest_block_header.parent_root,
        state_root: if s.latest_block_header.state_root == Bytes32::zero_value() {
            s.root_value()
        } else {
            s.latest_block_header.state_root
        },
        body_root: s.latest_block_header.body_root,
    }
}

/// Advancing goes to the target slot and closes the latest header with the root that the state
/// had before; nothing else changes. (A state whose own root is zero is left out.)
pub proof fn law_advancing_closes_the_header(s: StateModel, target: Slot)
    requires
        s.slot.num() < target.num(),
        s.root_value() != Bytes32::zero_value(),
    ensures
        ({
            let next = s.advanced(target);
            &&& next.slot.num() == target.num()
            &&& next.latest_block_header == closed_header(s)
            &&& next.config == s.config
            &&& next.latest_justified == s.latest_justified
            &&& next.latest_finalized == s.latest_finalized
            &&& next.historical_block_hashes == s.historical_block_hashes
            &&& next.justified_slots == s.justified_slots
            &&& next.validators == s.validators
            &&& next.balances == s.balances
            &&& next.justifications_roots == s.justifications_roots
            &&& next.justifications_validators == s.justifications_validators
        }),
{
    state::law_advancing_with_known_root(s.next_slot(), target);
    assert(s.advanced(target) == s.next_slot().advanced(target));
    assert(s.next_slot().latest_block_header == closed_header(s));
}

/// Advancing does not go back.
pub proof fn law_no_way_back(s: StateModel, target: Slot)
    requires
        s.slot.num() >= target.num(),
    ensures
        s.advanced(target) == s,
{
}

/// A header is taken exactly when its slot is later than the latest header's, its proposer is
/// the one whose turn it is in the slot of the state, and it names the latest header as its
/// parent. The turn goes round the registry.
pub proof fn law_header_checks(s: StateModel, h: BlockHeader)
    requires
        s.validators.len() <= 4_096,
    ensures
        ({
            let n = s.validators.len() as int;
            let later = h.slot.num() > s.latest_block_header.slot.num();
            let turn = n > 0 && h.proposer_index.0.0 as int == s.slot.num() % n;
            let child = h.parent_root == s.latest_block_header.root_value();
            &&& s.header_verdict(h) is Ok <==> later && turn && child
            &&& !later ==> s.header_verdict(h) == Err::<(), Seq<char>>(
                "block slot not greater than latest header slot"@,
            )
            &&& later && !turn ==> s.header_verdict(h) == Err::<(), Seq<char>>(
                "block proposer index does not match expected proposer"@,
            )
            &&& later && turn && !child ==> s.header_verdict(h) == Err::<(), Seq<char>>(
                "block parent root does not match latest header root"@,
            )
        }),
{
    let n = s.validators.len() as u64;
    if n > 0 {
        assert(s.slot.0.0 % n == s.slot.num() % (n as int));
    }
}

/// What an accepted header changes. The parent's root joins the history, with a zero root for
/// each slot without a block in between, so that the history reaches up to the block. The
/// window is filled up with clear bits as far as the slot before the block and keeps its bits.
/// The header becomes the latest one, its state root open. The first block behind genesis gives
/// both checkpoints its parent's root; their slots stay, as does all else.
pub proof fn law_header_is_taken_in(s: StateModel, h: BlockHeader, i: int)
    requires
        h.slot.num() > s.latest_block_header.slot.num(),
    ensures
        ({
            let next = s.with_header(h);
            let old_len = s.historical_block_hashes.len() as int;
            let gap = h.slot.num() - s.latest_block_header.slot.num();
            let covered = h.slot.num() - 1 - s.latest_finalized.slot.num();
            let first = s.latest_block_header.slot.num() == 0;
            &&& next.historical_block_hashes.len() == old_len + gap
            &&& 0 <= i < old_len ==> next.historical_block_hashes[i] == s.historical_block_hashes[i]
            &&& next.historical_block_hashes[old_len] == h.parent_root
            &&& old_len < i < old_len + gap ==> next.historical_block_hashes[i]
                == Bytes32::zero_value()
            &&& next.justified_slots.len() >= s.justified_slots.len()
            &&& next.justified_slots.len() >= covered
            &&& next.justified_slots.len() == s.justified_slots.len()
                || next.justified_slots.len() == covered
            &&& 0 <= i < s.justified_slots.len() ==> next.justified_slots[i]
                == s.justified_slots[i]
            &&& s.justified_slots.len() <= i < next.justified_slots.len()
                ==> !next.justified_slots[i]
            &&& next.latest_block_header.slot == h.slot
            &&& next.latest_block_header.proposer_index == h.proposer_index
            &&& next.latest_block_header.parent_root == h.parent_root
            &&& next.latest_block_header.body_root == h.body_root
            &&& next.latest_block_header.state_root == Bytes32::zero_value()
            &&& next.latest_justified.slot == s.latest_justified.slot
            &&& next.latest_finalized.slot == s.latest_finalized.slot
            &&& next.latest_justified.root == (if first {
                h.parent_root
            } else {
                s.latest_justified.root
            })
            &&& next.latest_finalized.root == (if first {
                h.parent_root
            } else {
                s.latest_finalized.root
            })
            &&& next.config == s.config
            &&& next.slot == s.slot
            &&& next.validators == s.validators
            &&& next.balances == s.balances
            &&& next.justifications_roots == s.justifications_roots
            &&& next.justifications_validators == s.justifications_validators
        }),
{
}

/// The state in which the votes of a block are counted: in the block's slot, with the block's
/// header taken in.
pub open spec fn with_block_header(s: StateModel, b: BlockModel) -> StateModel {
    (StateModel { slot: b.slot, latest_block_header: closed_header(s), ..s }).with_header(
        b.header(),
    )
}

/// A block is applied exactly when its slot is later than that of the state and of the latest
/// header, its proposer's turn it is, its parent is the latest block, its votes can be counted,
/// and the state behind its votes has the root that it claims. The state behind the block is
/// that one, with the claimed root in its header. (A state whose own root is zero is left out.)
pub proof fn law_applied_blocks(s: StateModel, b: BlockModel)
    requires
        s.root_value() != Bytes32::zero_value(),
        s.validators.len() <= 4_096,
    ensures
        ({
            let n = s.validators.len() as int;
            let (voted, answer) = justification::attested(with_block_header(s, b), b.attestations);
            let header_fits = {
                &&& b.slot.num() > s.latest_block_header.slot.num()
                &&& n > 0 && b.proposer_index.0.0 as int == b.slot.num() % n
                &&& b.parent_root == closed_header(s).root_value()
            };
            &&& s.transition(b) is Ok <==> {
                &&& b.slot.num() > s.slot.num()
                &&& header_fits
                &&& answer is Ok
                &&& voted.root_value() == b.state_root
            }
            &&& s.transition(b) matches Ok(next) ==> {
                &&& next.slot == b.slot
                &&& next.latest_block_header.slot == b.slot
                &&& next.latest_block_header.proposer_index == b.proposer_index
                &&& next.latest_block_header.parent_root == b.parent_root
                &&& next.latest_block_header.state_root == b.state_root
                &&& next.latest_block_header.body_root == block::body_root(b.attestations)
                &&& next.latest_justified == voted.latest_justified
                &&& next.latest_finalized == voted.latest_finalized
                &&& next.historical_block_hashes == voted.historical_block_hashes
                &&& next.justified_slots == voted.justified_slots
                &&& next.justifications_roots == voted.justifications_roots
                &&& next.justifications_validators == voted.justifications_validators
                &&& next.validators == s.validators
                &&& next.balances == s.balances
                &&& next.config == s.config
            }
            &&& b.slot.num() <= s.slot.num() ==> s.transition(b) == Err::<StateModel, Seq<char>>(
                "target slot must be in the future"@,
            )
            &&& b.slot.num() > s.slot.num() && header_fits && answer is Ok && voted.root_value()
                != b.state_root ==> s.transition(b) == Err::<StateModel, Seq<char>>(
                "block state root does not match computed state root"@,
            )
        }),
{
    if s.slot.num() < b.slot.num() {
        law_advancing_closes_the_header(s, b.slot);
        let ready = s.advanced(b.slot);
        assert(ready.slot == b.slot) by {
            assert(ready.slot.0.0 == b.slot.0.0);
        }
        assert(ready =~= (StateModel {
            slot: b.slot,
            latest_block_header: closed_header(s),
            ..s
        }));
        law_header_checks(ready, b.header());
        justification::lemma_attested_keeps(ready.with_header(b.header()), b.attestations);
    }
}

/// The genesis state: slot 0, no history, no votes, every balance 0, and a header of slot 0
/// without a parent that carries the root of the state with that header's state root open.
pub proof fn law_genesis(genesis_time: Uint64, validators: Seq<Validator>, i: int)
    ensures
        ({
            let g = state::genesis(genesis_time, validators);
            let open_header = BlockHeader {
                state_root: Bytes32::zero_value(),
                ..g.latest_block_header
            };
            &&& g.config.genesis_time == genesis_time
            &&& g.slot.num() == 0
            &&& g.validators == validators
            &&& g.balances.len() == validators.len()
            &&& 0 <= i < g.balances.len() ==> g.balances[i].0 == 0
            &&& g.historical_block_hashes.len() == 0
            &&& g.justified_slots.len() == 0
            &&& g.justifications_roots.len() == 0
            &&& g.justifications_validators.len() == 0
            &&& g.latest_justified.slot.num() == 0 && g.latest_justified.root
                == Bytes32::zero_value()
            &&& g.latest_finalized.slot.num() == 0 && g.latest_finalized.root
                == Bytes32::zero_value()
            &&& g.latest_block_header.slot.num() == 0
            &&& g.latest_block_header.proposer_index.0.0 == 0
            &&& g.latest_block_header.parent_root == Bytes32::zero_value()
            &&& g.latest_block_header.body_root == block::body_root(Seq::empty())
            &&& g.latest_block_header.state_root == (StateModel {
                latest_block_header: open_header,
                ..g
            }).root_value()
        }),
{
    let g = state::genesis(genesis_time, validators);
    let open_header = BlockHeader { state_root: Bytes32::zero_value(), ..g.latest_block_header };
    assert((StateModel { latest_block_header: open_header, ..g })
        =~= state::genesis_with(genesis_time, validators, Bytes32::zero_value()));
}

/// The one set bit of a list is bit `i`.
pub open spec fn alone(bits: Seq<bool>, i: int) -> bool {
    0 <= i < bits.len() && forall|j: int| 0 <= j < bits.len() ==> (#[trigger] bits[j] <==> j == i)
}

/// A signed block passes the basic checks exactly when it has one signature for each of its
/// votes and its proposer, and nobody else, votes in the block's slot.
pub proof fn law_basic_checks(m: SignedBlockModel)
    ensures
        ({
            let b = m.message.block;
            let vote = m.message.proposer_attestation;
            let counted = m.signature.attestation_signatures.len() == b.attestations.len();
            let timely = vote.data.slot.num() == b.slot.num();
            &&& block::basic_verdict(m) is Ok <==> counted && timely && alone(
                vote.aggregation_bits,
                b.proposer_index.0.0 as int,
            )
            &&& counted && !timely ==> block::basic_verdict(m) == Err::<(), Seq<char>>(
                "proposer attestation slot does not match block slot"@,
            )
            &&& counted && timely && (forall|i: int| !#[trigger] alone(vote.aggregation_bits, i))
                ==> block::basic_verdict(m) == Err::<(), Seq<char>>(
                "proposer attestation must have exactly one participant"@,
            )
            &&& forall|i: int|
                counted && timely && #[trigger] alone(vote.aggregation_bits, i) && i
                    != b.proposer_index.0.0 ==> block::basic_verdict(m) == Err::<(), Seq<char>>(
                    "proposer attestation does not match proposer index"@,
                )
        }),
{
    let b = m.message.block;
    let vote = m.message.proposer_attestation;
    let bits = vote.aggregation_bits;
    assert(vote.data.slot.num() == b.slot.num() <==> vote.data.slot == b.slot) by {
        if vote.data.slot.num() == b.slot.num() {
            assert(vote.data.slot.0.0 == b.slot.0.0);
        }
    }
    assert forall|i: int| alone(bits, i) <==> block::is_only_bit(bits, i) by {
        if block::is_only_bit(bits, i) {
            assert forall|j: int| 0 <= j < bits.len() implies (#[trigger] bits[j] <==> j == i) by {}
        }
    }
    if exists|i: int| alone(bits, i) {
        let i = choose|i: int| alone(bits, i);
        assert(block::is_only_bit(bits, i));
        block::lemma_only_bit(bits, i);
        assert forall|j: int| #[trigger] alone(bits, j) implies j == i by {
            assert(bits[j]);
        }
    } else {
        if exists|i: int| block::is_only_bit(bits, i) {
            let i = choose|i: int| block::is_only_bit(bits, i);
            assert(alone(bits, i));
        }
    }
}

/// A vote rebuilt from its validator has that validator as its only voter; a validator outside
/// the registry is refused.
pub proof fn law_lone_votes(index: u64, data: AttestationData)
    ensures
        index < 4_096 ==> {
            &&& block::lone_vote(index, data) matches Ok(vote)
            &&& vote.data == data
            &&& vote.aggregation_bits.len() == index + 1
            &&& alone(vote.aggregation_bits, index as int)
        },
        index >= 4_096 ==> block::lone_vote(index, data) is Err,
{
}

/// A signed block is imported exactly when it passes the basic checks, its signatures are found
/// good against the state before it, and its block is applied; the first refusal is the answer.
pub proof fn law_imports<V: SignatureVerifier>(verifier: V, s: StateModel, m: SignedBlockModel)
    ensures
        ({
            let basic = block::basic_verdict(m);
            let good = verifier.verdict(m, s);
            let applied = s.transition(m.message.block);
            &&& basic is Ok && good is Ok ==> state::import_verdict(verifier, s, m) == applied
            &&& basic matches Err(e) ==> state::import_verdict(verifier, s, m) == Err::<
                StateModel,
                Seq<char>,
            >(e)
            &&& basic is Ok ==> (good matches Err(e) ==> state::import_verdict(verifier, s, m)
                == Err::<StateModel, Seq<char>>(e))
        }),
{
}

/// What an import counts: the slots from the state to the block, the votes of a block whose
/// votes could be counted, and one finalization when finality has moved on.
pub proof fn law_imports_are_counted(s: StateModel, b: BlockModel)
    ensures
        ({
            let report = s.transition_report(b);
            &&& b.slot.num() > s.slot.num() ==> report.slots_processed == b.slot.num()
                - s.slot.num()
            &&& b.slot.num() <= s.slot.num() ==> report.slots_processed == 0
            &&& s.transition(b) is Ok && b.attestations.len() <= 4_096
                ==> report.attestations_processed == b.attestations.len()
            &&& s.transition(b) is Err ==> report.finalizations == 0
            &&& s.transition(b) matches Ok(next) ==> report.finalizations == (if
            next.latest_finalized.slot.num() > s.latest_finalized.slot.num() {
                1int
            } else {
                0int
            })
        }),
{
}

} // verus!
