//! The consensus state.

use crate::containers::block::{
    Block, BlockBody, BlockHeader, BlockModel, SignedBlockModel,
    SignedBlockWithAttestation,
};
use crate::containers::block;
use crate::containers::checkpoint::Checkpoint;
use crate::containers::config::Config;
use crate::containers::justification;
use crate::containers::validator;
use crate::containers::validator::{Validator, ValidatorIndex};
use crate::metrics::histogram::nanos_since;
use crate::slot::Slot;
use crate::ssz::hash;
use crate::types::bitlist;
use crate::types::bitlist::BitList;
use crate::types::bytes::Bytes32;
use crate::types::collections::SszList;
use crate::types::uint::Uint64;
use std::time::Instant;
use vstd::prelude::*;

verus! {

/// Most roots in the history.
pub const HISTORICAL_ROOTS_LIMIT: usize = 262_144;

/// Most validators in the registry.
pub const VALIDATOR_REGISTRY_LIMIT: usize = 4_096;

/// Most bits of pending votes.
pub const JUSTIFICATION_VALIDATORS_LIMIT: usize = 1_073_741_824;

/// Roots of past blocks, one for each slot; zero for a slot without a block.
pub type HistoricalBlockHashes = SszList<Bytes32, HISTORICAL_ROOTS_LIMIT>;

/// Roots of the targets with pending votes.
pub type JustificationRoots = SszList<Bytes32, HISTORICAL_ROOTS_LIMIT>;

/// The validator registry.
pub type Validators = SszList<Validator, VALIDATOR_REGISTRY_LIMIT>;

/// Balances of the validators, in Gwei.
pub type Balances = SszList<Uint64, VALIDATOR_REGISTRY_LIMIT>;

/// Which slots behind the finalized one are justified: bit `i` stands for slot
/// `finalized + 1 + i`.
pub type JustifiedSlots = BitList<HISTORICAL_ROOTS_LIMIT>;

/// Voters of the pending targets, row by row.
pub type JustificationValidators = BitList<JUSTIFICATION_VALIDATORS_LIMIT>;

/// The consensus state.
#[derive(Clone, Debug, PartialEq, Eq)]
pub struct State {
    /// Chain configuration.
    pub config: Config,
    /// Current slot.
    pub slot: Slot,
    /// Header of the latest block; its `state_root` is zero while the block is applied.
    pub latest_block_header: BlockHeader,
    /// Latest justified checkpoint.
    pub latest_justified: Checkpoint,
    /// Latest finalized checkpoint.
    pub latest_finalized: Checkpoint,
    /// Roots of past blocks. Behind a header of slot `n` it has `n` entries.
    pub historical_block_hashes: HistoricalBlockHashes,
    /// Justified slots behind the finalized one.
    pub justified_slots: JustifiedSlots,
    /// The validator registry.
    pub validators: Validators,
    /// Balances of the validators.
    pub balances: Balances,
    /// Roots of the targets with pending votes.
    pub justifications_roots: JustificationRoots,
    /// Voters of the pending targets.
    pub justifications_validators: JustificationValidators,
}

/// The value of a [`State`].
#[verifier::ext_equal]
pub struct StateModel {
    pub config: Config,
    pub slot: Slot,
    pub latest_block_header: BlockHeader,
    pub latest_justified: Checkpoint,
    pub latest_finalized: Checkpoint,
    pub historical_block_hashes: Seq<Bytes32>,
    pub justified_slots: Seq<bool>,
    pub validators: Seq<Validator>,
    pub balances: Seq<Uint64>,
    pub justifications_roots: Seq<Bytes32>,
    pub justifications_validators: Seq<bool>,
}

impl View for State {
    type V = StateModel;

    open spec fn view(&self) -> StateModel {
        StateModel {
            config: self.config,
            slot: self.slot,
            latest_block_header: self.latest_block_header,
            latest_justified: self.latest_justified,
            latest_finalized: self.latest_finalized,
            historical_block_hashes: self.historical_block_hashes@,
            justified_slots: self.justified_slots@,
            validators: self.validators@,
            balances: self.balances@,
            justifications_roots: self.justifications_roots@,
            justifications_validators: self.justifications_validators@,
        }
    }
}

/// A checkpoint at slot 0 without a root.
pub open spec fn genesis_checkpoint() -> Checkpoint {
    Checkpoint { root: Bytes32::zero_value(), slot: Slot(Uint64(0)) }
}

/// The genesis header; its body is empty.
pub open spec fn genesis_header(state_root: Bytes32) -> BlockHeader {
    BlockHeader {
        slot: Slot(Uint64(0)),
        proposer_index: ValidatorIndex(Uint64(0)),
        parent_root: Bytes32::zero_value(),
        state_root,
        body_root: block::body_root(Seq::empty()),
    }
}

/// The genesis state with the given state root in its header.
pub open spec fn genesis_with(
    genesis_time: Uint64,
    validators: Seq<Validator>,
    state_root: Bytes32,
) -> StateModel {
    StateModel {
        config: Config { genesis_time },
        slot: Slot(Uint64(0)),
        latest_block_header: genesis_header(state_root),
        latest_justified: genesis_checkpoint(),
        latest_finalized: genesis_checkpoint(),
        historical_block_hashes: Seq::empty(),
        justified_slots: Seq::empty(),
        validators,
        balances: Seq::new(validators.len(), |i: int| Uint64(0)),
        justifications_roots: Seq::empty(),
        justifications_validators: Seq::empty(),
    }
}

/// The genesis state: its header carries the root of the state without it.
pub open spec fn genesis(genesis_time: Uint64, validators: Seq<Validator>) -> StateModel {
    genesis_with(
        genesis_time,
        validators,
        genesis_with(genesis_time, validators, Bytes32::zero_value()).root_value(),
    )
}

impl StateModel {
    /// The tree root over the ten consensus fields; balances are local and stay out.
    pub open spec fn root_value(self) -> Bytes32 {
        hash::container_root(
            seq![
                self.config.root_value(),
                hash::number_chunk(self.slot.0.0),
                self.latest_block_header.root_value(),
                self.latest_justified.root_value(),
                self.latest_finalized.root_value(),
                crate::ssz::list_root::<Bytes32>(
                    self.historical_block_hashes,
                    HISTORICAL_ROOTS_LIMIT as nat,
                ),
                bitlist::bitlist_root(self.justified_slots, HISTORICAL_ROOTS_LIMIT as nat),
                crate::ssz::list_root::<Validator>(
                    self.validators,
                    VALIDATOR_REGISTRY_LIMIT as nat,
                ),
                crate::ssz::list_root::<Bytes32>(
                    self.justifications_roots,
                    HISTORICAL_ROOTS_LIMIT as nat,
                ),
                bitlist::bitlist_root(
                    self.justifications_validators,
                    JUSTIFICATION_VALIDATORS_LIMIT as nat,
                ),
            ],
        )
    }

    /// One slot later. A header whose state root is still open gets the root of this state.
    pub open spec fn next_slot(self) -> StateModel {
        let header = if self.latest_block_header.state_root == Bytes32::zero_value() {
            BlockHeader { state_root: self.root_value(), ..self.latest_block_header }
        } else {
            self.latest_block_header
        };
        StateModel {
            slot: Slot(Uint64((self.slot.0.0 + 1) as u64)),
            latest_block_header: header,
            ..self
        }
    }

    /// Advanced to `target`.
    pub open spec fn advanced(self, target: Slot) -> StateModel
        decreases target.num() - self.slot.num(),
    {
        if self.slot.num() >= target.num() {
            self
        } else {
            self.next_slot().advanced(target)
        }
    }

    /// What the checks of a header answer.
    pub open spec fn header_verdict(self, header: BlockHeader) -> Result<(), Seq<char>> {
        if header.slot.num() <= self.latest_block_header.slot.num() {
            Err("block slot not greater than latest header slot"@)
        } else if !validator::proposes_at(
            header.proposer_index,
            self.slot,
            self.validators.len() as u64,
        ) {
            Err("block proposer index does not match expected proposer"@)
        } else if header.parent_root != self.latest_block_header.root_value() {
            Err("block parent root does not match latest header root"@)
        } else {
            Ok(())
        }
    }

    /// The state with an accepted header: the parent's root and a zero root for each skipped
    /// slot join the history, and the window covers the slots before the block. The first
    /// header behind genesis gives the checkpoints their root.
    pub open spec fn with_header(self, header: BlockHeader) -> StateModel {
        let skipped = header.slot.num() - self.latest_block_header.slot.num() - 1;
        let first = self.latest_block_header.slot.num() == 0;
        StateModel {
            latest_justified: if first {
                Checkpoint { root: header.parent_root, ..self.latest_justified }
            } else {
                self.latest_justified
            },
            latest_finalized: if first {
                Checkpoint { root: header.parent_root, ..self.latest_finalized }
            } else {
                self.latest_finalized
            },
            historical_block_hashes: self.historical_block_hashes.push(header.parent_root)
                + Seq::new(skipped as nat, |i: int| Bytes32::zero_value()),
            justified_slots: justification::extended(
                self.justified_slots,
                header.slot.num() - 1 - self.latest_finalized.slot.num(),
            ),
            latest_block_header: BlockHeader { state_root: Bytes32::zero_value(), ..header },
            ..self
        }
    }

    /// What applying a block gives.
    pub open spec fn transition(self, b: BlockModel) -> Result<StateModel, Seq<char>> {
        if self.slot.num() >= b.slot.num() {
            Err("target slot must be in the future"@)
        } else {
            let ready = self.advanced(b.slot);
            match ready.header_verdict(b.header()) {
                Err(e) => Err(e),
                Ok(()) => {
                    let (voted, answer) = justification::attested(
                        ready.with_header(b.header()),
                        b.attestations,
                    );
                    match answer {
                        Err(e) => Err(e),
                        Ok(()) => if voted.root_value() != b.state_root {
                            Err("block state root does not match computed state root"@)
                        } else {
                            Ok(
                                StateModel {
                                    latest_block_header: BlockHeader {
                                        state_root: b.state_root,
                                        ..voted.latest_block_header
                                    },
                                    ..voted
                                },
                            )
                        },
                    }
                },
            }
        }
    }

    /// Whether a block's slots, header and attestations can be applied, whatever
    /// state root the block claims.
    pub open spec fn body_applies(self, b: BlockModel) -> bool {
        let ready = self.advanced(b.slot);
        self.slot.num() < b.slot.num() && ready.header_verdict(b.header()) is Ok
            && justification::attested(ready.with_header(b.header()), b.attestations).1 is Ok
    }

    /// The steps that applying a block completes.
    pub open spec fn steps_done(self, b: BlockModel) -> StepsDone {
        StepsDone {
            slots: self.slot.num() < b.slot.num(),
            attestations: self.body_applies(b),
            block: self.body_applies(b),
            total: self.transition(b) is Ok,
        }
    }

    /// What applying a block counts.
    pub open spec fn transition_report(self, b: BlockModel) -> TransitionReport {
        let counted = self.body_applies(b);
        TransitionReport {
            slots_processed: if self.slot.num() < b.slot.num() {
                (b.slot.0.0 - self.slot.0.0) as u64
            } else {
                0
            },
            attestations_processed: if counted { b.attestations.len() as u64 } else { 0 },
            finalizations: match self.transition(b) {
                Ok(s) => if s.latest_finalized.slot.num() > self.latest_finalized.slot.num() {
                    1u64
                } else {
                    0u64
                },
                Err(_) => 0u64,
            },
        }
    }
}

/// How long each step of one block transition took, in nanoseconds. A step that
/// was not completed has no time.
#[derive(Clone, Copy, Debug, PartialEq, Eq, Structural)]
pub struct StepTimes {
    /// Advancing the slots.
    pub slots: Option<u64>,
    /// Processing the attestations.
    pub attestations: Option<u64>,
    /// Processing the header and the body.
    pub block: Option<u64>,
    /// The whole transition.
    pub total: Option<u64>,
}

/// Which steps of a block transition were completed.
#[derive(Clone, Copy, Debug, PartialEq, Eq, Structural)]
pub struct StepsDone {
    /// Advancing the slots.
    pub slots: bool,
    /// Processing the attestations.
    pub attestations: bool,
    /// Processing the header and the body.
    pub block: bool,
    /// The whole transition.
    pub total: bool,
}

impl StepTimes {
    /// The steps that have a time.
    pub open spec fn done(self) -> StepsDone {
        StepsDone {
            slots: self.slots is Some,
            attestations: self.attestations is Some,
            block: self.block is Some,
            total: self.total is Some,
        }
    }
}

/// What one block transition counts.
#[derive(Clone, Copy, Debug, PartialEq, Eq, Structural)]
pub struct TransitionReport {
    /// Slots that were advanced.
    pub slots_processed: u64,
    /// Attestations that were processed.
    pub attestations_processed: u64,
    /// 1 when finality advanced.
    pub finalizations: u64,
}

proof fn lemma_advanced_keeps(s: StateModel, target: Slot)
    ensures
        ({
            let a = s.advanced(target);
            &&& s.slot.num() < target.num() ==> a.slot == target
            &&& s.slot.num() >= target.num() ==> a == s
            &&& a.config == s.config
            &&& a.latest_justified == s.latest_justified
            &&& a.latest_finalized == s.latest_finalized
            &&& a.historical_block_hashes == s.historical_block_hashes
            &&& a.justified_slots == s.justified_slots
            &&& a.validators == s.validators
            &&& a.balances == s.balances
            &&& a.justifications_roots == s.justifications_roots
            &&& a.justifications_validators == s.justifications_validators
            &&& a.latest_block_header.slot == s.latest_block_header.slot
        }),
    decreases target.num() - s.slot.num(),
{
    if s.slot.num() < target.num() {
        lemma_advanced_keeps(s.next_slot(), target);
    }
}

/// Advancing slots reaches the target slot and touches nothing else but an open state root
/// in the latest header.
pub proof fn law_advancing_keeps_the_rest(s: StateModel, target: Slot)
    requires
        s.slot.num() < target.num(),
    ensures
        s.advanced(target).slot == target,
        s.advanced(target).latest_block_header.slot == s.latest_block_header.slot,
        s.advanced(target).latest_justified == s.latest_justified,
        s.advanced(target).latest_finalized == s.latest_finalized,
        s.advanced(target).historical_block_hashes == s.historical_block_hashes,
        s.advanced(target).justified_slots == s.justified_slots,
        s.advanced(target).validators == s.validators,
        s.advanced(target).justifications_roots == s.justifications_roots,
        s.advanced(target).justifications_validators == s.justifications_validators,
{
    lemma_advanced_keeps(s, target);
}

/// When the header's state root is already known, advancing slots changes the slot alone.
pub proof fn law_advancing_with_known_root(s: StateModel, target: Slot)
    requires
        s.slot.num() <= target.num(),
        s.latest_block_header.state_root != Bytes32::zero_value(),
    ensures
        s.advanced(target) == (StateModel { slot: target, ..s }),
    decreases target.num() - s.slot.num(),
{
    if s.slot.num() < target.num() {
        law_advancing_with_known_root(s.next_slot(), target);
    } else {
        assert(s.slot.0 == target.0);
    }
}

/// The history has one entry for each slot before the latest header.
pub open spec fn history_covers_slots(s: StateModel) -> bool {
    s.historical_block_hashes.len() == s.latest_block_header.slot.num()
}

/// Behind an accepted header of slot `n` the history has `n` entries.
pub proof fn law_header_keeps_history_length(s: StateModel, header: BlockHeader)
    requires
        history_covers_slots(s),
        s.header_verdict(header) is Ok,
    ensures
        history_covers_slots(s.with_header(header)),
        s.with_header(header).historical_block_hashes.len() == header.slot.num(),
{
}

/// Every block that is applied keeps one history entry for each slot.
pub proof fn law_transition_keeps_history_length(s: StateModel, b: BlockModel)
    requires
        history_covers_slots(s),
        s.transition(b) is Ok,
    ensures
        history_covers_slots(s.transition(b)->Ok_0),
        s.transition(b)->Ok_0.slot == b.slot,
        s.transition(b)->Ok_0.latest_block_header == b.header(),
{
    lemma_advanced_keeps(s, b.slot);
    let ready = s.advanced(b.slot);
    law_header_keeps_history_length(ready, b.header());
    justification::lemma_attested_keeps(ready.with_header(b.header()), b.attestations);
}

/// Finality never goes back, and the justified checkpoint stays at or ahead of it.
pub proof fn law_transition_keeps_checkpoint_order(s: StateModel, b: BlockModel)
    requires
        s.latest_finalized.slot.num() <= s.latest_justified.slot.num(),
        s.transition(b) is Ok,
    ensures
        s.latest_finalized.slot.num() <= s.transition(b)->Ok_0.latest_finalized.slot.num(),
        s.transition(b)->Ok_0.latest_finalized.slot.num()
            <= s.transition(b)->Ok_0.latest_justified.slot.num(),
{
    lemma_advanced_keeps(s, b.slot);
    justification::law_votes_keep_checkpoint_order(
        s.advanced(b.slot).with_header(b.header()),
        b.attestations,
    );
}

/// An applied block is the latest block: its root is the parent root that the next block
/// has to name.
pub proof fn law_applied_block_is_next_parent(s: StateModel, b: BlockModel)
    requires
        s.transition(b) is Ok,
    ensures
        s.transition(b)->Ok_0.latest_block_header.root_value() == b.root_value(),
{
    lemma_advanced_keeps(s, b.slot);
    let ready = s.advanced(b.slot);
    justification::lemma_attested_keeps(ready.with_header(b.header()), b.attestations);
    b.law_header_identifies_block();
}

impl State {
    /// A copy of the state.
    pub fn duplicate(&self) -> (r: Self)
        ensures
            r@ == self@,
    {
        State {
            config: self.config,
            slot: self.slot,
            latest_block_header: self.latest_block_header,
            latest_justified: self.latest_justified,
            latest_finalized: self.latest_finalized,
            historical_block_hashes: self.historical_block_hashes.duplicate(),
            justified_slots: self.justified_slots.duplicate(),
            validators: self.validators.duplicate(),
            balances: self.balances.duplicate(),
            justifications_roots: self.justifications_roots.duplicate(),
            justifications_validators: self.justifications_validators.duplicate(),
        }
    }

    /// Hashes the state.
    pub fn hash_tree_root(&self) -> (r: [u8; 32])
        ensures
            Bytes32(r) == self@.root_value(),
    {
        let fields: [Bytes32; 10] = [
            Bytes32(self.config.hash_tree_root()),
            Bytes32(self.slot.hash_tree_root()),
            Bytes32(self.latest_block_header.hash_tree_root()),
            Bytes32(self.latest_justified.hash_tree_root()),
            Bytes32(self.latest_finalized.hash_tree_root()),
            Bytes32(self.historical_block_hashes.hash_tree_root()),
            Bytes32(self.justified_slots.hash_tree_root()),
            Bytes32(self.validators.hash_tree_root()),
            Bytes32(self.justifications_roots.hash_tree_root()),
            Bytes32(self.justifications_validators.hash_tree_root()),
        ];
        assert(hash::container_root(fields@) == self@.root_value()) by {
            let s = self@;
            assert(fields@ =~= seq![
                s.config.root_value(),
                hash::number_chunk(s.slot.0.0),
                s.latest_block_header.root_value(),
                s.latest_justified.root_value(),
                s.latest_finalized.root_value(),
                crate::ssz::list_root::<Bytes32>(
                    s.historical_block_hashes,
                    HISTORICAL_ROOTS_LIMIT as nat,
                ),
                bitlist::bitlist_root(s.justified_slots, HISTORICAL_ROOTS_LIMIT as nat),
                crate::ssz::list_root::<Validator>(s.validators, VALIDATOR_REGISTRY_LIMIT as nat),
                crate::ssz::list_root::<Bytes32>(
                    s.justifications_roots,
                    HISTORICAL_ROOTS_LIMIT as nat,
                ),
                bitlist::bitlist_root(
                    s.justifications_validators,
                    JUSTIFICATION_VALIDATORS_LIMIT as nat,
                ),
            ]);
        }
        hash::merkleize(fields.as_slice()).0
    }

    /// The genesis state without validators.
    pub fn generate_genesis_empty(genesis_time: Uint64) -> (r: State)
        ensures
            r@ == genesis(genesis_time, Seq::empty()),
    {
        Self::generate_genesis(genesis_time, SszList::empty())
    }

    /// The genesis state with the given validators, each with a balance of 0.
    pub fn generate_genesis(genesis_time: Uint64, validators: Validators) -> (r: State)
        requires
            validators@.len() <= VALIDATOR_REGISTRY_LIMIT,
        ensures
            r@ == genesis(genesis_time, validators@),
    {
        let ghost registry = validators@;
        let n: usize = validators.data.len();
        let mut balances: Vec<Uint64> = Vec::new();
        let mut i: usize = 0;
        while i < n
            invariant
                i <= n,
                balances@ == Seq::new(i as nat, |k: int| Uint64(0)),
            decreases n - i,
        {
            balances.push(Uint64(0));
            assert(balances@ =~= Seq::new((i + 1) as nat, |k: int| Uint64(0)));
            i = i + 1;
        }
        let empty_body = BlockBody { attestations: SszList::empty() };
        let body_root = Bytes32(empty_body.hash_tree_root());
        let zero_checkpoint = Checkpoint { root: Bytes32::zero(), slot: Slot(Uint64(0)) };
        let mut state = State {
            config: Config { genesis_time },
            slot: Slot(Uint64(0)),
            latest_block_header: BlockHeader {
                slot: Slot(Uint64(0)),
                proposer_index: ValidatorIndex(Uint64(0)),
                parent_root: Bytes32::zero(),
                state_root: Bytes32::zero(),
                body_root,
            },
            latest_justified: zero_checkpoint,
            latest_finalized: zero_checkpoint,
            historical_block_hashes: SszList::empty(),
            justified_slots: BitList::empty(),
            validators,
            balances: SszList { data: balances },
            justifications_roots: SszList::empty(),
            justifications_validators: BitList::empty(),
        };
        assert(state.balances@ =~= Seq::new(registry.len(), |k: int| Uint64(0)));
        assert(state@ =~= genesis_with(genesis_time, registry, Bytes32::zero_value()));
        let state_root = Bytes32(state.hash_tree_root());
        state.latest_block_header.state_root = state_root;
        assert(state@ =~= genesis(genesis_time, registry));
        state
    }

    /// Advances the state to a later slot.
    pub fn process_slots(&mut self, target_slot: Slot) -> (r: Result<(), String>)
        ensures
            final(self)@ == old(self)@.advanced(target_slot),
            crate::ssz::plain_outcome(r) == (if old(self).slot.num() >= target_slot.num() {
                Err::<(), Seq<char>>("target slot must be in the future"@)
            } else {
                Ok(())
            }),
    {
        if self.slot.0.0 >= target_slot.0.0 {
            return Err("target slot must be in the future".to_string());
        }
        let ghost start = self@;
        while self.slot.0.0 < target_slot.0.0
            invariant
                self.slot.num() <= target_slot.num(),
                self@.advanced(target_slot) == start.advanced(target_slot),
            decreases target_slot.0.0 - self.slot.0.0,
        {
            let ghost before = self@;
            if self.latest_block_header.state_root.is_zero() {
                self.latest_block_header.state_root = Bytes32(self.hash_tree_root());
            }
            self.slot = Slot(Uint64(self.slot.0.0 + 1));
            assert(self@ =~= before.next_slot());
        }
        Ok(())
    }

    /// Checks a header of the current slot and makes it the latest header.
    pub fn process_block_header(&mut self, block: BlockHeader) -> (r: Result<(), String>)
        ensures
            ({
                let verdict = if block.slot != old(self).slot {
                    Err::<(), Seq<char>>("block slot does not match state slot"@)
                } else {
                    old(self)@.header_verdict(block)
                };
                &&& crate::ssz::plain_outcome(r) == verdict
                &&& final(self)@ == (if verdict is Ok {
                    old(self)@.with_header(block)
                } else {
                    old(self)@
                })
            }),
    {
        if block.slot.0.0 != self.slot.0.0 {
            return Err("block slot does not match state slot".to_string());
        }
        self.process_block_header_assuming_slot(block)
    }

    fn process_block_header_assuming_slot(&mut self, block: BlockHeader) -> (r: Result<
        (),
        String,
    >)
        ensures
            crate::ssz::plain_outcome(r) == old(self)@.header_verdict(block),
            final(self)@ == (if old(self)@.header_verdict(block) is Ok {
                old(self)@.with_header(block)
            } else {
                old(self)@
            }),
    {
        let ghost s = self@;
        if block.slot.0.0 <= self.latest_block_header.slot.0.0 {
            return Err("block slot not greater than latest header slot".to_string());
        }
        let num_validators: u64 = self.validators.data.len() as u64;
        if !block.proposer_index.is_proposer_for(self.slot, num_validators) {
            return Err("block proposer index does not match expected proposer".to_string());
        }
        let expected_parent = Bytes32(self.latest_block_header.hash_tree_root());
        if block.parent_root != expected_parent {
            return Err("block parent root does not match latest header root".to_string());
        }
        if self.latest_block_header.slot.0.0 == 0 {
            self.latest_justified = Checkpoint {
                root: block.parent_root,
                slot: self.latest_justified.slot,
            };
            self.latest_finalized = Checkpoint {
                root: block.parent_root,
                slot: self.latest_finalized.slot,
            };
        }
        let skipped: u64 = block.slot.0.0 - self.latest_block_header.slot.0.0 - 1;
        assert(self.historical_block_hashes@ =~= self.historical_block_hashes.data@);
        let ghost history = self.historical_block_hashes.data@;
        self.historical_block_hashes.data.push(block.parent_root);
        let mut i: u64 = 0;
        let ghost fixed = *self;
        while i < skipped
            invariant
                i <= skipped,
                self.historical_block_hashes.data@ == history.push(block.parent_root) + Seq::new(
                    i as nat,
                    |k: int| Bytes32::zero_value(),
                ),
                *self == (State {
                    historical_block_hashes: self.historical_block_hashes,
                    ..fixed
                }),
            decreases skipped - i,
        {
            self.historical_block_hashes.data.push(Bytes32::zero());
            assert(self.historical_block_hashes.data@ =~= history.push(block.parent_root)
                + Seq::new((i + 1) as nat, |k: int| Bytes32::zero_value()));
            i = i + 1;
        }
        assert(self.historical_block_hashes.data@ =~= history.push(block.parent_root) + Seq::new(
            skipped as nat,
            |k: int| Bytes32::zero_value(),
        ));
        let last: u64 = block.slot.0.0 - 1;
        if last > self.latest_finalized.slot.0.0 {
            justification::extend_window(
                &mut self.justified_slots.bits,
                last - self.latest_finalized.slot.0.0,
            );
        }
        self.latest_block_header = BlockHeader {
            slot: block.slot,
            proposer_index: block.proposer_index,
            parent_root: block.parent_root,
            state_root: Bytes32::zero(),
            body_root: block.body_root,
        };
        assert(self.historical_block_hashes@ =~= self.historical_block_hashes.data@);
        assert(self@ =~= s.with_header(block));
        Ok(())
    }

    /// Applies a block of the current slot: the header, then the body.
    pub fn process_block(&mut self, block: &Block) -> (r: Result<(), String>)
        ensures
            ({
                let header = block@.header();
                let verdict = if block.slot != old(self).slot {
                    Err::<(), Seq<char>>("block slot does not match state slot"@)
                } else {
                    old(self)@.header_verdict(header)
                };
                if verdict is Err {
                    &&& crate::ssz::plain_outcome(r) == verdict
                    &&& final(self)@ == old(self)@
                } else {
                    let (voted, answer) = justification::attested(
                        old(self)@.with_header(header),
                        block@.attestations,
                    );
                    &&& crate::ssz::plain_outcome(r) == answer
                    &&& final(self)@ == voted
                }
            }),
    {
        let header = block.header();
        match self.process_block_header(header) {
            Err(e) => {
                return Err(e);
            },
            Ok(()) => {},
        }
        self.process_block_body(&block.body, header.body_root)
    }

    /// Checks the root of a block body and processes its attestations.
    pub fn process_block_body(&mut self, body: &BlockBody, expected_root: Bytes32) -> (r: Result<
        (),
        String,
    >)
        ensures
            expected_root != block::body_root(body@) ==> crate::ssz::plain_outcome(r) == Err::<
                (),
                Seq<char>,
            >("block body root does not match header"@) && final(self)@ == old(self)@,
            expected_root == block::body_root(body@) ==> crate::ssz::plain_outcome(r)
                == justification::attested(old(self)@, body@).1 && final(self)@
                == justification::attested(old(self)@, body@).0,
    {
        let body_root = Bytes32(body.hash_tree_root());
        if expected_root != body_root {
            return Err("block body root does not match header".to_string());
        }
        self.process_attestations(&body.attestations)
    }

    /// Applies a block and checks the state root that it claims. On a refusal the state is
    /// left half-way.
    fn state_transition_inner(&mut self, block: &Block) -> (r: (
        Result<(), String>,
        TransitionReport,
        StepTimes,
    ))
        ensures
            match r.0 {
                Ok(()) => old(self)@.transition(block@) == Ok::<StateModel, Seq<char>>(final(self)@),
                Err(e) => old(self)@.transition(block@) == Err::<StateModel, Seq<char>>(e@),
            },
            r.1 == old(self)@.transition_report(block@),
            r.2.done() == old(self)@.steps_done(block@),
    {
        let ghost s = self@;
        let total_start = Instant::now();
        let mut times = StepTimes { slots: None, attestations: None, block: None, total: None };
        let old_finalized: u64 = self.latest_finalized.slot.0.0;
        let slots_before: u64 = self.slot.0.0;
        let mut report = TransitionReport {
            slots_processed: 0,
            attestations_processed: 0,
            finalizations: 0,
        };
        let slots_start = Instant::now();
        match self.process_slots(block.slot) {
            Err(e) => {
                return (Err(e), report, times);
            },
            Ok(()) => {},
        }
        times.slots = Some(nanos_since(&slots_start));
        report.slots_processed = block.slot.0.0 - slots_before;
        let block_start = Instant::now();
        let header = block.header();
        match self.process_block_header_assuming_slot(header) {
            Err(e) => {
                return (Err(e), report, times);
            },
            Ok(()) => {},
        }
        let attestations_start = Instant::now();
        match self.process_attestations(&block.body.attestations) {
            Err(e) => {
                return (Err(e), report, times);
            },
            Ok(()) => {},
        }
        times.attestations = Some(nanos_since(&attestations_start));
        times.block = Some(nanos_since(&block_start));
        report.attestations_processed = block.body.attestations.data.len() as u64;
        let computed_root = Bytes32(self.hash_tree_root());
        if computed_root != block.state_root {
            return (
                Err("block state root does not match computed state root".to_string()),
                report,
                times,
            );
        }
        self.latest_block_header.state_root = computed_root;
        if self.latest_finalized.slot.0.0 > old_finalized {
            report.finalizations = 1;
        }
        times.total = Some(nanos_since(&total_start));
        (Ok(()), report, times)
    }

    /// Imports a signed block: the basic checks, the signatures, then the transition. On a
    /// refusal the state stays as it was.
    pub(crate) fn import_reported<V: SignatureVerifier>(
        &mut self,
        signed: &SignedBlockWithAttestation,
        verifier: &V,
    ) -> (r: (Result<(), String>, TransitionReport, StepTimes))
        ensures
            match import_verdict(*verifier, old(self)@, signed@) {
                Ok(next) => r.0 is Ok && final(self)@ == next,
                Err(e) => crate::ssz::plain_outcome(r.0) == Err::<(), Seq<char>>(e)
                    && final(self)@ == old(self)@,
            },
            r.1 == import_report(*verifier, old(self)@, signed@),
            r.2.done() == import_steps(*verifier, old(self)@, signed@),
    {
        let none = TransitionReport {
            slots_processed: 0,
            attestations_processed: 0,
            finalizations: 0,
        };
        let untimed = StepTimes { slots: None, attestations: None, block: None, total: None };
        match signed.validate_basic() {
            Err(e) => {
                return (Err(e), none, untimed);
            },
            Ok(()) => {},
        }
        match verifier.verify_signed_block(signed, self) {
            Err(e) => {
                return (Err(e), none, untimed);
            },
            Ok(()) => {},
        }
        let mut working = self.duplicate();
        let (answer, report, times) = working.state_transition_inner(&signed.message.block);
        match answer {
            Ok(()) => {
                *self = working;
                (Ok(()), report, times)
            },
            Err(e) => (Err(e), report, times),
        }
    }

    /// Imports a signed block with the given verifier. On a refusal the state stays as it was.
    pub fn process_signed_block_with_verifier<V: SignatureVerifier>(
        &mut self,
        signed: &SignedBlockWithAttestation,
        verifier: &V,
    ) -> (r: Result<(), String>)
        ensures
            match import_verdict(*verifier, old(self)@, signed@) {
                Ok(next) => r is Ok && final(self)@ == next,
                Err(e) => crate::ssz::plain_outcome(r) == Err::<(), Seq<char>>(e) && final(self)@
                    == old(self)@,
            },
    {
        let (answer, _report, _times) = self.import_reported(signed, verifier);
        answer
    }
}

/// Checks the signatures of a signed block against a state.
pub trait SignatureVerifier: Sized {
    /// What the verifier answers.
    spec fn verdict(&self, signed: SignedBlockModel, state: StateModel) -> Result<(), Seq<char>>;

    /// Checks all signatures.
    fn verify_signed_block(&self, signed: &SignedBlockWithAttestation, state: &State) -> (r: Result<
        (),
        String,
    >)
        ensures
            crate::ssz::plain_outcome(r) == self.verdict(signed@, state@),
    ;
}

/// Accepts every block.
pub struct NoopSignatureVerifier;

impl SignatureVerifier for NoopSignatureVerifier {
    open spec fn verdict(&self, signed: SignedBlockModel, state: StateModel) -> Result<
        (),
        Seq<char>,
    > {
        Ok(())
    }

    fn verify_signed_block(&self, signed: &SignedBlockWithAttestation, state: &State) -> (r: Result<
        (),
        String,
    >) {
        Ok(())
    }
}

/// What importing a signed block gives.
pub open spec fn import_verdict<V: SignatureVerifier>(
    verifier: V,
    s: StateModel,
    signed: SignedBlockModel,
) -> Result<StateModel, Seq<char>> {
    match block::basic_verdict(signed) {
        Err(e) => Err(e),
        Ok(()) => match verifier.verdict(signed, s) {
            Err(e) => Err(e),
            Ok(()) => s.transition(signed.message.block),
        },
    }
}

/// What importing a signed block counts.
pub open spec fn import_report<V: SignatureVerifier>(
    verifier: V,
    s: StateModel,
    signed: SignedBlockModel,
) -> TransitionReport {
    if block::basic_verdict(signed) is Ok && verifier.verdict(signed, s) is Ok {
        s.transition_report(signed.message.block)
    } else {
        TransitionReport { slots_processed: 0, attestations_processed: 0, finalizations: 0 }
    }
}

/// The steps that importing a signed block completes.
pub open spec fn import_steps<V: SignatureVerifier>(
    verifier: V,
    s: StateModel,
    signed: SignedBlockModel,
) -> StepsDone {
    if block::basic_verdict(signed) is Ok && verifier.verdict(signed, s) is Ok {
        s.steps_done(signed.message.block)
    } else {
        StepsDone { slots: false, attestations: false, block: false, total: false }
    }
}

/// A verifier that accepts everything leaves the basic checks and the transition.
pub proof fn law_noop_import_is_the_transition(s: StateModel, signed: SignedBlockModel)
    requires
        block::basic_verdict(signed) is Ok,
    ensures
        import_verdict(NoopSignatureVerifier, s, signed) == s.transition(signed.message.block),
{
}

} // verus!
