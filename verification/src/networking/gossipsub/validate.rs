//! Validation of decoded gossip messages.
//!
//! Basic validation looks at the message alone; context validation holds it
//! against what the node knows of the chain.

use vstd::prelude::*;

use crate::containers::attestation::{
    AttestationData, AttestationModel, SignedAttestation, ATTESTATION_COMMITTEE_COUNT,
};
use crate::containers::block::{SignedBlockModel, SignedBlockWithAttestation};
use crate::networking::gossipsub::context::GossipContext;
use crate::networking::gossipsub::lean::message::{LeanGossipsubMessage, MessageModel};
use crate::slot::Slot;

verus! {

/// The outcome of a validation.
#[derive(Clone, Debug, PartialEq, Eq)]
pub enum ValidationResult {
    /// The message is valid and is forwarded.
    Accept,
    /// The message is dropped, for the given reason.
    Ignore(String),
    /// The message is invalid and its sender is to blame, for the given reason.
    Reject(String),
}

/// The value of a [`ValidationResult`].
#[verifier::ext_equal]
pub enum Verdict {
    Accept,
    Ignore(Seq<char>),
    Reject(Seq<char>),
}

impl View for ValidationResult {
    type V = Verdict;

    open spec fn view(&self) -> Verdict {
        match *self {
            ValidationResult::Accept => Verdict::Accept,
            ValidationResult::Ignore(s) => Verdict::Ignore(s@),
            ValidationResult::Reject(s) => Verdict::Reject(s@),
        }
    }
}

/// The subnet on which a validator publishes.
pub open spec fn subnet_of(validator: u64) -> u64 {
    if ATTESTATION_COMMITTEE_COUNT <= 1 {
        0
    } else {
        validator % ATTESTATION_COMMITTEE_COUNT
    }
}

/// The verdict on the slots of a vote. With a limit, a vote for a later slot is
/// ignored.
pub open spec fn fields_verdict(data: AttestationData, max_slot: Option<u64>) -> Verdict {
    if data.target.slot.0.0 <= data.source.slot.0.0 {
        Verdict::Reject("attestation target not above source"@)
    } else if data.head.slot.0.0 < data.target.slot.0.0 {
        Verdict::Reject("attestation head below target"@)
    } else if data.slot.0.0 < data.head.slot.0.0 {
        Verdict::Reject("attestation slot below head slot"@)
    } else if max_slot matches Some(m) && data.slot.0.0 > m {
        Verdict::Ignore("attestation from future slot"@)
    } else {
        Verdict::Accept
    }
}

/// The verdict on the slots of the attestations from `i` on.
pub open spec fn all_fields_verdict(
    attestations: Seq<AttestationModel>,
    max_slot: u64,
    i: nat,
) -> Verdict
    decreases attestations.len() - i,
{
    if i >= attestations.len() {
        Verdict::Accept
    } else {
        match fields_verdict(attestations[i as int].data, Some(max_slot)) {
            Verdict::Accept => all_fields_verdict(attestations, max_slot, i + 1),
            other => other,
        }
    }
}

/// The basic verdict on a block.
pub open spec fn block_basic_verdict(s: SignedBlockModel) -> Verdict {
    let b = s.message.block;
    if s.message.proposer_attestation.data.slot != b.slot {
        Verdict::Reject("proposer attestation slot mismatch"@)
    } else {
        all_fields_verdict(b.attestations, b.slot.0.0, 0)
    }
}

/// The basic verdict on an attestation of a subnet.
pub open spec fn subnet_basic_verdict(subnet_id: u64, a: SignedAttestation) -> Verdict {
    if subnet_of(a.validator_id.0) != subnet_id {
        Verdict::Reject("attestation published on wrong subnet"@)
    } else {
        fields_verdict(a.message, None)
    }
}

/// The basic verdict on a message.
pub open spec fn basic_verdict(m: MessageModel) -> Verdict {
    match m {
        MessageModel::Block(s) => block_basic_verdict(s),
        MessageModel::Attestation(a) => fields_verdict(a.message, None),
        MessageModel::AttestationSubnet { subnet_id, attestation } => subnet_basic_verdict(
            subnet_id,
            attestation,
        ),
        MessageModel::AggregatedAttestation(a) => fields_verdict(a.data, None),
    }
}

/// A slot lies more than one slot ahead of the slot in progress.
pub open spec fn is_ahead(slot: Slot, current: Option<Slot>) -> bool {
    match current {
        Some(c) => slot.0.0 > c.0.0 + 1,
        None => false,
    }
}

/// The context knows all roots that a vote names.
pub open spec fn knows_vote<C: GossipContext>(c: C, data: AttestationData) -> bool {
    c.knows(data.head.root) && c.knows(data.source.root) && c.knows(data.target.root)
}

/// The verdict of the context on a vote.
pub open spec fn vote_context_verdict<C: GossipContext>(c: C, data: AttestationData) -> Verdict {
    if data.target.slot.0.0 <= data.source.slot.0.0 {
        Verdict::Reject("attestation target not above source"@)
    } else if data.head.slot.0.0 < data.target.slot.0.0 {
        Verdict::Reject("attestation head below target"@)
    } else if !knows_vote(c, data) {
        Verdict::Ignore("attestation references unknown chain roots"@)
    } else if is_ahead(data.slot, c.current()) {
        Verdict::Ignore("attestation from future slot"@)
    } else if c.finalized() matches Some(f) && data.source.slot.0.0 < f.0.0 {
        Verdict::Ignore("attestation source before finalized slot"@)
    } else {
        Verdict::Accept
    }
}

/// The verdict of the context on the attestations from `i` on.
pub open spec fn attestations_context_verdict<C: GossipContext>(
    c: C,
    attestations: Seq<AttestationModel>,
    max_slot: u64,
    i: nat,
) -> Verdict
    decreases attestations.len() - i,
{
    if i >= attestations.len() {
        Verdict::Accept
    } else {
        match fields_verdict(attestations[i as int].data, Some(max_slot)) {
            Verdict::Accept => if !knows_vote(c, attestations[i as int].data) {
                Verdict::Ignore("attestation references unknown chain roots"@)
            } else {
                attestations_context_verdict(c, attestations, max_slot, i + 1)
            },
            other => other,
        }
    }
}

/// The verdict of the context on a block: one at or before the finalized slot is
/// rejected, one of a future slot is ignored.
pub open spec fn block_context_verdict<C: GossipContext>(c: C, s: SignedBlockModel) -> Verdict {
    let b = s.message.block;
    if !c.knows(b.parent_root) {
        Verdict::Ignore("block parent root unknown locally"@)
    } else if c.finalized() matches Some(f) && b.slot.0.0 <= f.0.0 {
        Verdict::Reject("block at or before finalized slot"@)
    } else if is_ahead(b.slot, c.current()) {
        Verdict::Ignore("block from future slot"@)
    } else {
        match vote_context_verdict(c, s.message.proposer_attestation.data) {
            Verdict::Accept => attestations_context_verdict(c, b.attestations, b.slot.0.0, 0),
            other => other,
        }
    }
}

/// The verdict of the context on a message.
pub open spec fn context_verdict<C: GossipContext>(c: C, m: MessageModel) -> Verdict {
    match m {
        MessageModel::Block(s) => block_context_verdict(c, s),
        MessageModel::Attestation(a) => vote_context_verdict(c, a.message),
        MessageModel::AttestationSubnet { subnet_id, attestation } => match subnet_basic_verdict(
            subnet_id,
            attestation,
        ) {
            Verdict::Accept => vote_context_verdict(c, attestation.message),
            other => other,
        },
        MessageModel::AggregatedAttestation(a) => vote_context_verdict(c, a.data),
    }
}

fn validate_attestation_fields(data: &AttestationData, max_slot: Option<u64>) -> (r:
    ValidationResult)
    ensures
        r@ == fields_verdict(*data, max_slot),
{
    if data.target.slot.0.0 <= data.source.slot.0.0 {
        return ValidationResult::Reject("attestation target not above source".to_string());
    }
    if data.head.slot.0.0 < data.target.slot.0.0 {
        return ValidationResult::Reject("attestation head below target".to_string());
    }
    if data.slot.0.0 < data.head.slot.0.0 {
        return ValidationResult::Reject("attestation slot below head slot".to_string());
    }
    if let Some(m) = max_slot {
        if data.slot.0.0 > m {
            return ValidationResult::Ignore("attestation from future slot".to_string());
        }
    }
    ValidationResult::Accept
}

fn validate_block_basic(block: &SignedBlockWithAttestation) -> (r: ValidationResult)
    ensures
        r@ == block_basic_verdict(block@),
{
    let message = &block.message;
    let slot: u64 = message.block.slot.0.0;
    if message.proposer_attestation.data.slot.0.0 != slot {
        return ValidationResult::Reject("proposer attestation slot mismatch".to_string());
    }
    let attestations = &message.block.body.attestations.data;
    let ghost all = block@.message.block.attestations;
    let mut i: usize = 0;
    while i < attestations.len()
        invariant
            i <= attestations@.len(),
            all.len() == attestations@.len(),
            forall|j: int| 0 <= j < all.len() ==> #[trigger] all[j] == attestations@[j]@,
            block_basic_verdict(block@) == all_fields_verdict(all, slot, i as nat),
        decreases attestations@.len() - i,
    {
        assert(all[i as int] == attestations@[i as int]@);
        match validate_attestation_fields(&attestations[i].data, Some(slot)) {
            ValidationResult::Accept => {},
            other => {
                return other;
            },
        }
        i = i + 1;
    }
    ValidationResult::Accept
}

/// Validates an attestation of a subnet by itself: the validator publishes on
/// its own subnet, and the vote's slots are in order.
pub fn validate_subnet_attestation_basic(subnet_id: u64, attestation: &SignedAttestation) -> (r:
    ValidationResult)
    ensures
        r@ == subnet_basic_verdict(subnet_id, *attestation),
{
    let expected: u64 = if ATTESTATION_COMMITTEE_COUNT <= 1 {
        0
    } else {
        attestation.validator_id.0 % ATTESTATION_COMMITTEE_COUNT
    };
    if expected != subnet_id {
        return ValidationResult::Reject("attestation published on wrong subnet".to_string());
    }
    validate_attestation_fields(&attestation.message, None)
}

/// Validates a message by itself.
pub fn validate_basic_message(message: &LeanGossipsubMessage) -> (r: ValidationResult)
    ensures
        r@ == basic_verdict(message@),
{
    match message {
        LeanGossipsubMessage::Block(b) => validate_block_basic(&b.block),
        LeanGossipsubMessage::Attestation(a) => {
            validate_attestation_fields(&a.attestation.message, None)
        },
        LeanGossipsubMessage::AttestationSubnet { subnet_id, attestation } => {
            validate_subnet_attestation_basic(*subnet_id, &attestation.attestation)
        },
        LeanGossipsubMessage::AggregatedAttestation(a) => {
            validate_attestation_fields(&a.attestation.data, None)
        },
    }
}

fn ahead(slot: Slot, current: Option<Slot>) -> (r: bool)
    ensures
        r == is_ahead(slot, current),
{
    match current {
        Some(c) => slot.0.0 > c.0.0 && slot.0.0 - c.0.0 > 1,
        None => false,
    }
}

fn roots_known<C: GossipContext>(data: &AttestationData, context: &C) -> (r: bool)
    ensures
        r == knows_vote(*context, *data),
{
    context.knows_block_root(&data.head.root) && context.knows_block_root(&data.source.root)
        && context.knows_block_root(&data.target.root)
}

fn validate_vote_with_context<C: GossipContext>(msg: &AttestationData, context: &C) -> (r:
    ValidationResult)
    ensures
        r@ == vote_context_verdict(*context, *msg),
{
    if msg.target.slot.0.0 <= msg.source.slot.0.0 {
        return ValidationResult::Reject("attestation target not above source".to_string());
    }
    if msg.head.slot.0.0 < msg.target.slot.0.0 {
        return ValidationResult::Reject("attestation head below target".to_string());
    }
    if !roots_known(msg, context) {
        return ValidationResult::Ignore("attestation references unknown chain roots".to_string());
    }
    if ahead(msg.slot, context.current_slot()) {
        return ValidationResult::Ignore("attestation from future slot".to_string());
    }
    if let Some(f) = context.finalized_slot() {
        if msg.source.slot.0.0 < f.0.0 {
            return ValidationResult::Ignore("attestation source before finalized slot".to_string());
        }
    }
    ValidationResult::Accept
}

/// Holds an attestation against the context.
pub fn validate_attestation_with_context<C: GossipContext>(
    attestation: &SignedAttestation,
    context: &C,
) -> (r: ValidationResult)
    ensures
        r@ == vote_context_verdict(*context, attestation.message),
{
    validate_vote_with_context(&attestation.message, context)
}

fn validate_block_with_context<C: GossipContext>(
    block: &SignedBlockWithAttestation,
    context: &C,
) -> (r: ValidationResult)
    ensures
        r@ == block_context_verdict(*context, block@),
{
    let b = &block.message.block;
    if !context.knows_block_root(&b.parent_root) {
        return ValidationResult::Ignore("block parent root unknown locally".to_string());
    }
    if let Some(f) = context.finalized_slot() {
        if b.slot.0.0 <= f.0.0 {
            return ValidationResult::Reject("block at or before finalized slot".to_string());
        }
    }
    if ahead(b.slot, context.current_slot()) {
        return ValidationResult::Ignore("block from future slot".to_string());
    }
    match validate_vote_with_context(&block.message.proposer_attestation.data, context) {
        ValidationResult::Accept => {},
        other => {
            return other;
        },
    }
    let slot: u64 = b.slot.0.0;
    let attestations = &b.body.attestations.data;
    let ghost all = block@.message.block.attestations;
    let mut i: usize = 0;
    while i < attestations.len()
        invariant
            i <= attestations@.len(),
            all.len() == attestations@.len(),
            forall|j: int| 0 <= j < all.len() ==> #[trigger] all[j] == attestations@[j]@,
            block_context_verdict(*context, block@) == attestations_context_verdict(
                *context,
                all,
                slot,
                i as nat,
            ),
        decreases attestations@.len() - i,
    {
        assert(all[i as int] == attestations@[i as int]@);
        let data = &attestations[i].data;
        match validate_attestation_fields(data, Some(slot)) {
            ValidationResult::Accept => {},
            other => {
                return other;
            },
        }
        if !roots_known(data, context) {
            return ValidationResult::Ignore(
                "attestation references unknown chain roots".to_string(),
            );
        }
        i = i + 1;
    }
    ValidationResult::Accept
}

/// Holds a message against the context.
pub fn validate_with_context<C: GossipContext>(message: &LeanGossipsubMessage, context: &C) -> (r:
    ValidationResult)
    ensures
        r@ == context_verdict(*context, message@),
{
    match message {
        LeanGossipsubMessage::Block(b) => validate_block_with_context(&b.block, context),
        LeanGossipsubMessage::Attestation(a) => {
            validate_attestation_with_context(&a.attestation, context)
        },
        LeanGossipsubMessage::AttestationSubnet { subnet_id, attestation } => {
            match validate_subnet_attestation_basic(*subnet_id, &attestation.attestation) {
                ValidationResult::Accept => {
                    validate_attestation_with_context(&attestation.attestation, context)
                },
                other => other,
            }
        },
        LeanGossipsubMessage::AggregatedAttestation(a) => {
            validate_vote_with_context(&a.attestation.data, context)
        },
    }
}

/// Whether a message was ignored for roots that may become known later.
pub fn is_retryable_unknown_roots_ignore(reason: &str) -> (r: bool)
    ensures
        r == (reason@ == "attestation references unknown chain roots"@),
{
    let chars = crate::text::to_chars(reason);
    crate::text::spells(chars.as_slice(), "attestation references unknown chain roots")
}

/// An accepted vote is in order: its target lies above its source and its head
/// not below its target, all three roots are known, and it neither runs ahead of
/// the clock nor falls behind finality.
pub proof fn law_accepted_vote_is_in_order<C: GossipContext>(c: C, data: AttestationData)
    requires
        vote_context_verdict(c, data) == Verdict::Accept,
    ensures
        data.source.slot.0.0 < data.target.slot.0.0 <= data.head.slot.0.0,
        c.knows(data.head.root) && c.knows(data.source.root) && c.knows(data.target.root),
        c.current() matches Some(now) ==> data.slot.0.0 <= now.0.0 + 1,
        c.finalized() matches Some(f) ==> f.0.0 <= data.source.slot.0.0,
{
}

/// An accepted block extends a known parent, lies above finality and does not
/// run ahead of the clock.
pub proof fn law_accepted_block_is_in_order<C: GossipContext>(c: C, s: SignedBlockModel)
    requires
        block_context_verdict(c, s) == Verdict::Accept,
    ensures
        c.knows(s.message.block.parent_root),
        c.finalized() matches Some(f) ==> f.0.0 < s.message.block.slot.0.0,
        c.current() matches Some(now) ==> s.message.block.slot.0.0 <= now.0.0 + 1,
{
}

} // verus!
