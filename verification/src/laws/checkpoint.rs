//! Which states a node may start from, and the block that it starts with.

use crate::checkpoint_sync;
use crate::containers::block::{BlockHeader, BlockModel};
use crate::containers::state::StateModel;
use crate::containers::validator::Validator;
use crate::laws::transition::alone;
use crate::types::bytes::Bytes32;
use vstd::prelude::*;

verus! {

/// Each validator has the key of the one of the same place and its place as its index.
pub open spec fn same_registry(have: Seq<Validator>, want: Seq<Validator>) -> bool {
    &&& have.len() == want.len()
    &&& forall|k: int|
        0 <= k < have.len() ==> (#[trigger] have[k]).pubkey == want[k].pubkey
            && have[k].index.0.0 == k
}

proof fn lemma_registry_passes(have: Seq<Validator>, want: Seq<Validator>, i: nat)
    requires
        i <= have.len() == want.len(),
    ensures
        checkpoint_sync::registry_verdict(have, want, i) is Ok <==> forall|k: int|
            i <= k < have.len() ==> (#[trigger] have[k]).pubkey == want[k].pubkey
                && have[k].index.0.0 == k,
    decreases have.len() - i,
{
    if i < have.len() {
        lemma_registry_passes(have, want, i + 1);
        if forall|k: int|
            i <= k < have.len() ==> (#[trigger] have[k]).pubkey == want[k].pubkey
                && have[k].index.0.0 == k {
            assert(have[i as int].pubkey == want[i as int].pubkey);
        }
    }
}

/// The slots and roots of a state fit together: the latest header and finality are not ahead of
/// the state, what is justified is not behind what is finalized, checkpoints of one slot have one
/// root, one of the header's slot has the header's root, and a header with a state root carries
/// the root of the state with that place open.
pub open spec fn hangs_together(s: StateModel) -> bool {
    let h = s.latest_block_header;
    let open_header = BlockHeader { state_root: Bytes32::zero_value(), ..h };
    let j = s.latest_justified;
    let f = s.latest_finalized;
    &&& h.slot.num() <= s.slot.num()
    &&& f.slot.num() <= s.slot.num()
    &&& f.slot.num() <= j.slot.num()
    &&& j.slot.num() == f.slot.num() ==> j.root == f.root
    &&& f.slot.num() == h.slot.num() ==> f.root == h.root_value()
    &&& j.slot.num() == h.slot.num() ==> j.root == h.root_value()
    &&& h.state_root == Bytes32::zero_value() || h.state_root == (StateModel {
        latest_block_header: open_header,
        ..s
    }).root_value()
}

/// A node may start from a state exactly when it has validators, they are those of genesis, each
/// in its place, it has the same genesis time, and its slots and roots fit together.
pub proof fn law_accepted_checkpoints(s: StateModel, genesis: StateModel)
    ensures
        checkpoint_sync::checkpoint_verdict(s, genesis) is Ok <==> {
            &&& s.validators.len() > 0
            &&& same_registry(s.validators, genesis.validators)
            &&& s.config.genesis_time == genesis.config.genesis_time
            &&& hangs_together(s)
        },
{
    if s.validators.len() == genesis.validators.len() {
        lemma_registry_passes(s.validators, genesis.validators, 0);
    }
    let h = s.latest_block_header;
    let j = s.latest_justified;
    let f = s.latest_finalized;
    assert(j.slot.num() == f.slot.num() <==> j.slot == f.slot) by {
        if j.slot.num() == f.slot.num() {
            assert(j.slot.0.0 == f.slot.0.0);
        }
    }
    assert(f.slot.num() == h.slot.num() <==> f.slot == h.slot) by {
        if f.slot.num() == h.slot.num() {
            assert(f.slot.0.0 == h.slot.0.0);
        }
    }
    assert(j.slot.num() == h.slot.num() <==> j.slot == h.slot) by {
        if j.slot.num() == h.slot.num() {
            assert(j.slot.0.0 == h.slot.0.0);
        }
    }
}

/// The block that a node starts with has the fields of the state's latest header and no votes;
/// an open state root is filled with the root of the state.
pub proof fn law_anchor_block(s: StateModel)
    ensures
        ({
            let b = checkpoint_sync::anchor_block(s);
            let h = s.latest_block_header;
            &&& b.slot == h.slot
            &&& b.proposer_index == h.proposer_index
            &&& b.parent_root == h.parent_root
            &&& b.attestations.len() == 0
            &&& h.state_root != Bytes32::zero_value() ==> b.state_root == h.state_root
            &&& h.state_root == Bytes32::zero_value() ==> b.state_root == s.root_value()
        }),
{
}

/// In the envelope of that block its proposer alone votes, in its slot and for itself as head,
/// target and source; nothing is signed. A proposer outside the registry is refused.
pub proof fn law_anchor_envelope(b: BlockModel)
    ensures
        b.proposer_index.0.0 >= 4_096 ==> checkpoint_sync::anchor_envelope(b) is Err,
        b.proposer_index.0.0 < 4_096 ==> {
            &&& checkpoint_sync::anchor_envelope(b) matches Ok(e)
            &&& e.message.block == b
            &&& e.signature.attestation_signatures.len() == 0
            &&& ({
                let vote = e.message.proposer_attestation;
                &&& alone(vote.aggregation_bits, b.proposer_index.0.0 as int)
                &&& vote.data.slot == b.slot
                &&& vote.data.head.root == b.root_value() && vote.data.head.slot == b.slot
                &&& vote.data.target == vote.data.head
                &&& vote.data.source == vote.data.head
            })
        },
{
}

/// The reply of a provider holds a state exactly when its status is 200 and its body decodes.
pub proof fn law_replies(status: u64, body: Seq<u8>, body_text: Seq<char>)
    ensures
        status == 200 ==> checkpoint_sync::reply_state(status, body, body_text)
            == StateModel::decoded(body, true),
        status != 200 ==> checkpoint_sync::reply_state(status, body, body_text) is Err,
{
}

} // verus!
