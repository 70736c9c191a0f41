//! Starting from a finalized state that another node serves.

use vstd::prelude::*;
use vstd::slice::slice_subrange;
use vstd::string::StringExecFns;

use crate::containers::attestation::{
    Attestation, AttestationData, AttestationModel, VALIDATOR_REGISTRY_LIMIT,
};
use crate::containers::block;
use crate::containers::block::{
    AttestationSignatures, Attestations, Block, BlockBody, BlockModel, BlockSignatures,
    BlockWithAttestation, ProposalModel, SignaturesModel, SignedBlockModel,
    SignedBlockWithAttestation,
};
use crate::containers::checkpoint::Checkpoint;
use crate::containers::state::{State, StateModel};
use crate::containers::validator::Validator;
use crate::text;
use crate::types::bitlist::BitList;
use crate::types::bytes::{Bytes3112, Bytes32};

verus! {

/// Path under which a node serves its finalized state.
pub const FINALIZED_STATE_PATH: &'static str = "/lean/v0/states/finalized";

/// `s` without the copies of `c` at its end.
pub open spec fn without_trailing(s: Seq<char>, c: char) -> Seq<char>
    decreases s.len(),
{
    if s.len() > 0 && s.last() == c {
        without_trailing(s.drop_last(), c)
    } else {
        s
    }
}

/// The address of the finalized state at a provider.
pub open spec fn state_url(base: Seq<char>) -> Result<Seq<char>, Seq<char>> {
    if text::trimmed(base).len() == 0 {
        Err("checkpoint sync url is empty"@)
    } else {
        Ok(without_trailing(text::trimmed(base), '/') + "/lean/v0/states/finalized"@)
    }
}

/// Builds the address of the finalized state at a provider.
pub fn finalized_state_url(base_url: &str) -> (r: Result<String, String>)
    ensures
        crate::ssz::view_outcome(r) == state_url(base_url@),
{
    let chars = text::to_chars(base_url);
    let base = text::trim(chars.as_slice());
    if base.len() == 0 {
        return Err("checkpoint sync url is empty".to_string());
    }
    let mut end: usize = base.len();
    assert(base@.take(end as int) =~= base@);
    while end > 0 && base[end - 1] == '/'
        invariant
            end <= base@.len(),
            without_trailing(base@.take(end as int), '/') == without_trailing(base@, '/'),
        decreases end,
    {
        assert(base@.take(end as int).drop_last() =~= base@.take(end - 1));
        end = end - 1;
    }
    let kept = slice_subrange(base, 0, end);
    assert(kept@ =~= base@.take(end as int));
    let mut url: String = text::from_chars(kept);
    url.append("/lean/v0/states/finalized");
    Ok(url)
}

/// The message for a reply with a status other than success.
pub open spec fn http_failure_text(status: u64, body: Seq<char>) -> Seq<char> {
    "checkpoint sync HTTP "@ + text::decimal(status as nat) + ": "@ + body
}

/// What a provider's reply gives: the state that it holds, or the message for a
/// status other than success.
pub open spec fn reply_state(status: u64, body: Seq<u8>, body_text: Seq<char>) -> Result<
    StateModel,
    Seq<char>,
> {
    if status != 200 {
        Err(http_failure_text(status, body_text))
    } else {
        StateModel::decoded(body, true)
    }
}

/// Reads the state out of a provider's reply. `body_text` is the body as text,
/// for the message.
pub fn checkpoint_state_from_reply(status: u64, body: &[u8], body_text: &str) -> (r: Result<
    State,
    String,
>)
    ensures
        crate::ssz::view_outcome(r) == reply_state(status, body@, body_text@),
{
    if status != 200 {
        let mut s: String = "checkpoint sync HTTP ".to_string();
        s.append(text::decimal_string(status).as_str());
        s.append(": ");
        s.append(body_text);
        return Err(s);
    }
    State::decode_ssz_checked(body)
}

/// The bytes as a list of decimal numbers.
pub open spec fn byte_list_text(bytes: Seq<u8>, k: nat) -> Seq<char>
    decreases k,
{
    if k == 0 {
        ""@
    } else if k == 1 {
        text::decimal(bytes[0] as nat)
    } else {
        byte_list_text(bytes, (k - 1) as nat) + ", "@ + text::decimal(bytes[k - 1] as nat)
    }
}

/// A root as messages print it.
pub open spec fn root_text(root: Bytes32) -> Seq<char> {
    "Bytes32(["@ + byte_list_text(root@, 32) + "])"@
}

/// Prints a root as messages show it.
pub fn root_string(root: &Bytes32) -> (r: String)
    ensures
        r@ == root_text(*root),
{
    let bytes = root.as_slice();
    let mut list: String = text::decimal_string(bytes[0] as u64);
    let mut i: usize = 1;
    while i < 32
        invariant
            1 <= i <= 32,
            bytes@ == root@,
            bytes@.len() == 32,
            list@ == byte_list_text(root@, i as nat),
        decreases 32 - i,
    {
        list.append(", ");
        list.append(text::decimal_string(bytes[i] as u64).as_str());
        i = i + 1;
    }
    let mut s: String = "Bytes32([".to_string();
    s.append(list.as_str());
    s.append("])");
    s
}

/// Whether the validators from `i` on are those of genesis, in their places.
pub open spec fn registry_verdict(have: Seq<Validator>, want: Seq<Validator>, i: nat) -> Result<
    (),
    Seq<char>,
>
    decreases have.len() - i,
{
    if i >= have.len() {
        Ok(())
    } else if i >= want.len() {
        Err("missing genesis validator "@ + text::decimal(i))
    } else if have[i as int].pubkey != want[i as int].pubkey {
        Err("checkpoint validator key mismatch at index "@ + text::decimal(i))
    } else if have[i as int].index.0.0 != i {
        Err(
            "checkpoint validator index mismatch at "@ + text::decimal(i) + ": expected "@
                + text::decimal(i) + ", got "@ + text::decimal(have[i as int].index.0.0 as nat),
        )
    } else {
        registry_verdict(have, want, i + 1)
    }
}

/// The root of a state whose header names no state root yet.
pub open spec fn unrooted_state_root(s: StateModel) -> Bytes32 {
    let header = crate::containers::block::BlockHeader {
        state_root: Bytes32::zero_value(),
        ..s.latest_block_header
    };
    StateModel { latest_block_header: header, ..s }.root_value()
}

/// Whether the slots and roots of a state fit together.
pub open spec fn consistency_verdict(s: StateModel) -> Result<(), Seq<char>> {
    let slot = s.slot.0.0;
    let header = s.latest_block_header;
    let header_root = header.root_value();
    let justified = s.latest_justified;
    let finalized = s.latest_finalized;
    if header.slot.0.0 > slot {
        Err(
            "checkpoint header slot "@ + text::decimal(header.slot.0.0 as nat)
                + " is ahead of state slot "@ + text::decimal(slot as nat),
        )
    } else if finalized.slot.0.0 > slot {
        Err("checkpoint finalized slot is in the future"@)
    } else if justified.slot.0.0 < finalized.slot.0.0 {
        Err("checkpoint justified slot is before finalized slot"@)
    } else if justified.slot == finalized.slot && justified.root != finalized.root {
        Err("checkpoint justified/finalized roots mismatch at same slot"@)
    } else if finalized.slot == header.slot && finalized.root != header_root {
        Err("checkpoint finalized root does not match header root"@)
    } else if justified.slot == header.slot && justified.root != header_root {
        Err("checkpoint justified root does not match header root"@)
    } else if header.state_root != Bytes32::zero_value() && header.state_root
        != unrooted_state_root(s) {
        Err(
            "checkpoint state_root mismatch: expected "@ + root_text(unrooted_state_root(s))
                + ", got "@ + root_text(header.state_root),
        )
    } else {
        Ok(())
    }
}

/// Whether a state may serve as the start of a chain with the given genesis.
pub open spec fn checkpoint_verdict(s: StateModel, genesis: StateModel) -> Result<(), Seq<char>> {
    if s.validators.len() == 0 {
        Err("checkpoint state has empty validator registry"@)
    } else if s.validators.len() != genesis.validators.len() {
        Err(
            "checkpoint validator count "@ + text::decimal(s.validators.len())
                + " does not match genesis "@ + text::decimal(genesis.validators.len()),
        )
    } else if s.config.genesis_time != genesis.config.genesis_time {
        Err(
            "checkpoint genesis_time "@ + text::decimal(s.config.genesis_time.0 as nat)
                + " does not match config "@ + text::decimal(genesis.config.genesis_time.0 as nat),
        )
    } else {
        match registry_verdict(s.validators, genesis.validators, 0) {
            Err(e) => Err(e),
            Ok(()) => consistency_verdict(s),
        }
    }
}

/// Holds the validators against those of genesis.
fn verify_registry(state: &State, expected_genesis: &State) -> (r: Result<(), String>)
    ensures
        crate::ssz::plain_outcome(r) == registry_verdict(
            state@.validators,
            expected_genesis@.validators,
            0,
        ),
{
    let have = &state.validators.data;
    let want = &expected_genesis.validators.data;
    let mut i: usize = 0;
    while i < have.len()
        invariant
            i <= have@.len(),
            have@ == state@.validators,
            want@ == expected_genesis@.validators,
            registry_verdict(have@, want@, i as nat) == registry_verdict(have@, want@, 0),
        decreases have@.len() - i,
    {
        if i >= want.len() {
            let mut s: String = "missing genesis validator ".to_string();
            s.append(text::decimal_string(i as u64).as_str());
            return Err(s);
        }
        let v = &have[i];
        let w = &want[i];
        if !v.pubkey.same_bytes(&w.pubkey) {
            let mut s: String = "checkpoint validator key mismatch at index ".to_string();
            s.append(text::decimal_string(i as u64).as_str());
            return Err(s);
        }
        if v.index.0.0 != i as u64 {
            let mut s: String = "checkpoint validator index mismatch at ".to_string();
            s.append(text::decimal_string(i as u64).as_str());
            s.append(": expected ");
            s.append(text::decimal_string(i as u64).as_str());
            s.append(", got ");
            s.append(text::decimal_string(v.index.0.0).as_str());
            return Err(s);
        }
        i = i + 1;
    }
    Ok(())
}

/// Checks that the slots and roots of a state fit together.
fn verify_consistency(state: &State) -> (r: Result<(), String>)
    ensures
        crate::ssz::plain_outcome(r) == consistency_verdict(state@),
{
    let latest_slot: u64 = state.slot.0.0;
    let header = state.latest_block_header;
    let header_slot: u64 = header.slot.0.0;
    if header_slot > latest_slot {
        let mut s: String = "checkpoint header slot ".to_string();
        s.append(text::decimal_string(header_slot).as_str());
        s.append(" is ahead of state slot ");
        s.append(text::decimal_string(latest_slot).as_str());
        return Err(s);
    }
    let justified = state.latest_justified;
    let finalized = state.latest_finalized;
    if finalized.slot.0.0 > latest_slot {
        return Err("checkpoint finalized slot is in the future".to_string());
    }
    if justified.slot.0.0 < finalized.slot.0.0 {
        return Err("checkpoint justified slot is before finalized slot".to_string());
    }
    if justified.slot.0.0 == finalized.slot.0.0 && justified.root != finalized.root {
        return Err("checkpoint justified/finalized roots mismatch at same slot".to_string());
    }
    let header_root = Bytes32(header.hash_tree_root());
    if finalized.slot.0.0 == header_slot && finalized.root != header_root {
        return Err("checkpoint finalized root does not match header root".to_string());
    }
    if justified.slot.0.0 == header_slot && justified.root != header_root {
        return Err("checkpoint justified root does not match header root".to_string());
    }
    let mut tmp = state.duplicate();
    tmp.latest_block_header.state_root = Bytes32::zero();
    let computed_root = Bytes32(tmp.hash_tree_root());
    proof {
        Bytes32::lemma_ext(tmp.latest_block_header.state_root, Bytes32::zero_value());
        assert(computed_root == unrooted_state_root(state@));
    }
    if header.state_root != Bytes32::zero() && header.state_root != computed_root {
        let mut s: String = "checkpoint state_root mismatch: expected ".to_string();
        s.append(root_string(&computed_root).as_str());
        s.append(", got ");
        s.append(root_string(&header.state_root).as_str());
        return Err(s);
    }
    Ok(())
}

/// Checks that a state may serve as the start of a chain with the given genesis.
pub fn verify_checkpoint_state(state: &State, expected_genesis: &State) -> (r: Result<(), String>)
    ensures
        crate::ssz::plain_outcome(r) == checkpoint_verdict(state@, expected_genesis@),
{
    let have: usize = state.validators.data.len();
    let want: usize = expected_genesis.validators.data.len();
    if have == 0 {
        return Err("checkpoint state has empty validator registry".to_string());
    }
    if have != want {
        let mut s: String = "checkpoint validator count ".to_string();
        s.append(text::decimal_string(have as u64).as_str());
        s.append(" does not match genesis ");
        s.append(text::decimal_string(want as u64).as_str());
        return Err(s);
    }
    let here: u64 = state.config.genesis_time.0;
    let there: u64 = expected_genesis.config.genesis_time.0;
    if here != there {
        let mut s: String = "checkpoint genesis_time ".to_string();
        s.append(text::decimal_string(here).as_str());
        s.append(" does not match config ");
        s.append(text::decimal_string(there).as_str());
        return Err(s);
    }
    match verify_registry(state, expected_genesis) {
        Err(e) => Err(e),
        Ok(()) => verify_consistency(state),
    }
}

/// The block that a state was left by, with an empty body.
pub open spec fn anchor_block(s: StateModel) -> BlockModel {
    let header = s.latest_block_header;
    BlockModel {
        slot: header.slot,
        proposer_index: header.proposer_index,
        parent_root: header.parent_root,
        state_root: if header.state_root == Bytes32::zero_value() {
            s.root_value()
        } else {
            header.state_root
        },
        attestations: Seq::empty(),
    }
}

/// Builds the block that a state was left by, with an empty body.
pub fn build_anchor_block(state: &State) -> (r: Block)
    ensures
        r@ == anchor_block(state@),
{
    let header = state.latest_block_header;
    let state_root = if header.state_root.is_zero() {
        Bytes32(state.hash_tree_root())
    } else {
        header.state_root
    };
    let r = Block {
        slot: header.slot,
        proposer_index: header.proposer_index,
        parent_root: header.parent_root,
        state_root,
        body: BlockBody { attestations: Attestations::empty() },
    };
    assert(r@ =~= anchor_block(state@));
    r
}

/// An anchor block in the envelope that the store takes: the proposer votes for
/// the block itself and nothing is signed.
pub open spec fn anchor_envelope(b: BlockModel) -> Result<SignedBlockModel, Seq<char>> {
    let index = b.proposer_index.0.0;
    let vote = Checkpoint { root: b.root_value(), slot: b.slot };
    if index >= VALIDATOR_REGISTRY_LIMIT {
        Err(
            "checkpoint proposer index "@ + text::decimal(index as nat)
                + " exceeds registry limit "@ + text::decimal(VALIDATOR_REGISTRY_LIMIT as nat),
        )
    } else {
        Ok(
            SignedBlockModel {
                message: ProposalModel {
                    block: b,
                    proposer_attestation: AttestationModel {
                        aggregation_bits: block::lone_voter(index as nat),
                        data: AttestationData {
                            slot: b.slot,
                            head: vote,
                            target: vote,
                            source: vote,
                        },
                    },
                },
                signature: SignaturesModel {
                    attestation_signatures: Seq::empty(),
                    proposer_signature: Bytes3112::of(Seq::new(3112, |i: int| 0u8)),
                },
            },
        )
    }
}

/// Puts an anchor block into the envelope that the store takes.
pub fn build_anchor_signed_block(_state: &State, anchor_block: &Block) -> (r: Result<
    SignedBlockWithAttestation,
    String,
>)
    ensures
        crate::ssz::view_outcome(r) == anchor_envelope(anchor_block@),
{
    let block_root = Bytes32(anchor_block.hash_tree_root());
    let proposer_index: u64 = anchor_block.proposer_index.0.0;
    if proposer_index >= VALIDATOR_REGISTRY_LIMIT as u64 {
        let mut s: String = "checkpoint proposer index ".to_string();
        s.append(text::decimal_string(proposer_index).as_str());
        s.append(" exceeds registry limit ");
        s.append(text::decimal_string(VALIDATOR_REGISTRY_LIMIT as u64).as_str());
        return Err(s);
    }
    let bits = block::lone_voter_bits(proposer_index as usize);
    let aggregation_bits = match BitList::new(bits) {
        Ok(b) => b,
        Err(e) => {
            return Err(e);
        },
    };
    let checkpoint = Checkpoint { root: block_root, slot: anchor_block.slot };
    let signed = SignedBlockWithAttestation {
        message: BlockWithAttestation {
            block: anchor_block.duplicate(),
            proposer_attestation: Attestation {
                aggregation_bits,
                data: AttestationData {
                    slot: anchor_block.slot,
                    head: checkpoint,
                    target: checkpoint,
                    source: checkpoint,
                },
            },
        },
        signature: BlockSignatures {
            attestation_signatures: AttestationSignatures::empty(),
            proposer_signature: Bytes3112::zero(),
        },
    };
    proof {
        Bytes3112::lemma_of(signed.signature.proposer_signature);
        assert(signed.signature.proposer_signature@ =~= Seq::new(3112, |i: int| 0u8));
        assert(signed@ =~= anchor_envelope(anchor_block@)->Ok_0);
    }
    Ok(signed)
}

/// A registry that passes holds the genesis keys, each at its index.
proof fn lemma_registry(have: Seq<Validator>, want: Seq<Validator>, i: nat)
    requires
        registry_verdict(have, want, i) is Ok,
        i <= have.len() == want.len(),
    ensures
        forall|k: int|
            i <= k < have.len() ==> (#[trigger] have[k]).pubkey == want[k].pubkey
                && have[k].index.0.0 == k,
    decreases have.len() - i,
{
    if i < have.len() {
        lemma_registry(have, want, i + 1);
    }
}

/// A state that passes belongs to the chain: its validators are those of
/// genesis, it names the same genesis time, and no checkpoint of it runs ahead.
pub proof fn law_verified_checkpoint_belongs(s: StateModel, genesis: StateModel)
    requires
        checkpoint_verdict(s, genesis) is Ok,
    ensures
        s.config.genesis_time == genesis.config.genesis_time,
        s.validators.len() == genesis.validators.len() > 0,
        forall|k: int|
            0 <= k < s.validators.len() ==> (#[trigger] s.validators[k]).pubkey
                == genesis.validators[k].pubkey && s.validators[k].index.0.0 == k,
        s.latest_finalized.slot.0.0 <= s.latest_justified.slot.0.0,
        s.latest_finalized.slot.0.0 <= s.slot.0.0,
        s.latest_block_header.slot.0.0 <= s.slot.0.0,
{
    lemma_registry(s.validators, genesis.validators, 0);
}

/// The anchor block of a state that was left by an empty block is that block:
/// its header is the state's, with the state root filled in.
pub proof fn law_anchor_block_has_the_states_header(s: StateModel)
    requires
        s.latest_block_header.body_root == block::body_root(Seq::empty()),
    ensures
        anchor_block(s).header().slot == s.latest_block_header.slot,
        anchor_block(s).header().proposer_index == s.latest_block_header.proposer_index,
        anchor_block(s).header().parent_root == s.latest_block_header.parent_root,
        anchor_block(s).header().body_root == s.latest_block_header.body_root,
        s.latest_block_header.state_root != Bytes32::zero_value() ==> anchor_block(s).header()
            == s.latest_block_header,
{
}

/// The envelope of an anchor block is a well-formed proposal: the vote in it is
/// the proposer's own, for the block itself.
pub proof fn law_anchor_envelope_votes_for_itself(b: BlockModel)
    requires
        b.proposer_index.0.0 < VALIDATOR_REGISTRY_LIMIT,
    ensures
        anchor_envelope(b) matches Ok(e) && e.message.block == b && block::only_bit(
            e.message.proposer_attestation.aggregation_bits,
        ) == Some(b.proposer_index.0.0 as int) && e.message.proposer_attestation.data.head.root
            == b.root_value(),
{
    block::lemma_only_bit(
        block::lone_voter(b.proposer_index.0.0 as nat),
        b.proposer_index.0.0 as int,
    );
}

} // verus!
