//! Validation of gossip payloads: their form and their signatures.

use vstd::prelude::*;

use crate::containers::attestation::{
    AggregatedSignatureProof, Attestation, AttestationModel, ProofModel, SignedAggregateModel,
    SignedAttestation, VALIDATOR_REGISTRY_LIMIT,
};
use crate::containers::block::{
    Block, BlockHeader, BlockModel, SignedBlockModel, SignedBlockWithAttestation,
};
use crate::containers::gossip::{
    GossipAggregatedAttestation, GossipAttestation, GossipBlock, GossipBlockHeader, VoluntaryExit,
};
use crate::containers::pq_verifier::{CheckModel, SignatureCheck};
use crate::containers::validator::{Validator, ValidatorIndex};
use crate::types::bitlist::BitList;
use crate::types::bytes::{Bytes3112, Bytes52};

verus! {

/// How a topic's payloads are validated.
#[derive(Clone, Copy, Debug, PartialEq, Eq, Hash, Structural)]
pub enum GossipValidatorKind {
    /// Everything is accepted.
    Unchecked,
    /// A signed block with its signatures.
    Block,
    /// A block header, by its form alone.
    BlockHeader,
    /// A signed attestation.
    Attestation,
    /// An aggregated attestation.
    AggregatedAttestation,
    /// A voluntary exit, by its form alone.
    VoluntaryExit,
}

/// Checks the signatures of gossip messages.
pub trait GossipSignatureVerifier {
    /// Whether the proposer's signature over a block is accepted.
    spec fn accepts_block(
        &self,
        proposer_index: ValidatorIndex,
        message: BlockModel,
        signature: Bytes3112,
    ) -> bool;

    /// Whether a validator's signature over its vote is accepted.
    spec fn accepts_vote(&self, attestation: SignedAttestation) -> bool;

    /// Whether the aggregated signature over an attestation is accepted.
    spec fn accepts_aggregate(&self, attestation: AttestationModel, evidence: ProofModel) -> bool;

    /// Checks the proposer's signature over a block.
    fn verify_block_signature(
        &self,
        proposer_index: ValidatorIndex,
        message: &Block,
        signature: &Bytes3112,
    ) -> (r: bool)
        ensures
            r == self.accepts_block(proposer_index, message@, *signature),
    ;

    /// Checks a validator's signature over its vote.
    fn verify_signed_attestation_signature(&self, attestation: &SignedAttestation) -> (r: bool)
        ensures
            r == self.accepts_vote(*attestation),
    ;

    /// Checks the aggregated signature over an attestation.
    fn verify_attestation_signature(
        &self,
        attestation: &Attestation,
        evidence: &AggregatedSignatureProof,
    ) -> (r: bool)
        ensures
            r == self.accepts_aggregate(attestation@, evidence@),
    ;
}

/// Accepts every signature.
#[derive(Clone, Copy, Debug)]
pub struct NoopGossipVerifier;

impl GossipSignatureVerifier for NoopGossipVerifier {
    open spec fn accepts_block(
        &self,
        proposer_index: ValidatorIndex,
        message: BlockModel,
        signature: Bytes3112,
    ) -> bool {
        true
    }

    open spec fn accepts_vote(&self, attestation: SignedAttestation) -> bool {
        true
    }

    open spec fn accepts_aggregate(
        &self,
        attestation: AttestationModel,
        evidence: ProofModel,
    ) -> bool {
        true
    }

    fn verify_block_signature(
        &self,
        _proposer_index: ValidatorIndex,
        _message: &Block,
        _signature: &Bytes3112,
    ) -> (r: bool) {
        true
    }

    fn verify_signed_attestation_signature(&self, _attestation: &SignedAttestation) -> (r: bool) {
        true
    }

    fn verify_attestation_signature(
        &self,
        _attestation: &Attestation,
        _evidence: &AggregatedSignatureProof,
    ) -> (r: bool) {
        true
    }
}

/// Whether two byte strings are the same.
fn equal_bytes(a: &[u8], b: &[u8]) -> (r: bool)
    ensures
        r == (a@ == b@),
{
    if a.len() != b.len() {
        return false;
    }
    let mut i: usize = 0;
    while i < a.len()
        invariant
            i <= a@.len(),
            a@.len() == b@.len(),
            forall|j: int| 0 <= j < i ==> a@[j] == b@[j],
        decreases a@.len() - i,
    {
        if a[i] != b[i] {
            return false;
        }
        i = i + 1;
    }
    assert(a@ =~= b@);
    true
}

/// Whether two lists of keys are the same.
fn equal_keys(a: &[Bytes52], b: &[Bytes52]) -> (r: bool)
    ensures
        r == (a@ == b@),
{
    if a.len() != b.len() {
        return false;
    }
    let mut i: usize = 0;
    while i < a.len()
        invariant
            i <= a@.len(),
            a@.len() == b@.len(),
            forall|j: int| 0 <= j < i ==> a@[j] == b@[j],
        decreases a@.len() - i,
    {
        if !a[i].same_bytes(&b[i]) {
            return false;
        }
        i = i + 1;
    }
    assert(a@ =~= b@);
    true
}

/// Whether two participant lists are the same.
fn equal_bits(
    a: &BitList<VALIDATOR_REGISTRY_LIMIT>,
    b: &BitList<VALIDATOR_REGISTRY_LIMIT>,
) -> (r: bool)
    ensures
        r == (a@ == b@),
{
    let n: usize = a.len();
    if n != b.len() {
        return false;
    }
    let mut i: usize = 0;
    while i < n
        invariant
            i <= n,
            n == a@.len(),
            n == b@.len(),
            forall|j: int| 0 <= j < i ==> a@[j] == b@[j],
        decreases n - i,
    {
        if a.is_set(i) != b.is_set(i) {
            return false;
        }
        i = i + 1;
    }
    assert(a@ =~= b@);
    true
}

/// Whether two signature checks are the same.
pub fn same_check(a: &SignatureCheck, b: &SignatureCheck) -> (r: bool)
    ensures
        r == (a@ == b@),
{
    match (a, b) {
        (
            SignatureCheck::Aggregate { public_keys: k1, message: m1, proof: p1, epoch: e1 },
            SignatureCheck::Aggregate { public_keys: k2, message: m2, proof: p2, epoch: e2 },
        ) => {
            let same_message = equal_bytes(m1.as_slice(), m2.as_slice());
            proof {
                crate::types::bytes::Bytes32::lemma_of(crate::types::bytes::Bytes32(*m1));
                crate::types::bytes::Bytes32::lemma_of(crate::types::bytes::Bytes32(*m2));
            }
            *e1 == *e2 && same_message && equal_keys(k1.as_slice(), k2.as_slice()) && equal_bytes(
                p1.as_slice(),
                p2.as_slice(),
            )
        },
        (
            SignatureCheck::Single { public_key: k1, message: m1, signature: s1, epoch: e1 },
            SignatureCheck::Single { public_key: k2, message: m2, signature: s2, epoch: e2 },
        ) => {
            let same_message = equal_bytes(m1.as_slice(), m2.as_slice());
            let same_signature = equal_bytes(s1.as_slice(), s2.as_slice());
            proof {
                crate::types::bytes::Bytes32::lemma_of(crate::types::bytes::Bytes32(*m1));
                crate::types::bytes::Bytes32::lemma_of(crate::types::bytes::Bytes32(*m2));
                Bytes3112::lemma_of(*s1);
                Bytes3112::lemma_of(*s2);
            }
            *e1 == *e2 && same_message && k1.same_bytes(k2) && same_signature
        },
        _ => false,
    }
}

/// The keys of the participants, in order, if all of them are registered.
pub open spec fn gathered(registry: Seq<Bytes52>, bits: Seq<bool>) -> Option<Seq<Bytes52>>
    decreases bits.len(),
{
    if bits.len() == 0 {
        Some(Seq::empty())
    } else {
        match gathered(registry, bits.drop_last()) {
            None => None,
            Some(keys) => if !bits.last() {
                Some(keys)
            } else if bits.len() > registry.len() {
                None
            } else {
                Some(keys.push(registry[bits.len() - 1]))
            },
        }
    }
}

proof fn lemma_gathered_refused(registry: Seq<Bytes52>, bits: Seq<bool>, k: nat)
    requires
        k <= bits.len(),
        gathered(registry, bits.take(k as int)) is None,
    ensures
        gathered(registry, bits) is None,
    decreases bits.len() - k,
{
    if k < bits.len() {
        assert(bits.take(k as int + 1).drop_last() =~= bits.take(k as int));
        lemma_gathered_refused(registry, bits, k + 1);
    } else {
        assert(bits.take(k as int) =~= bits);
    }
}

/// Collects the keys of the participants.
fn gather_pubkeys(
    registry: &Vec<Bytes52>,
    participants: &BitList<VALIDATOR_REGISTRY_LIMIT>,
) -> (r: Option<Vec<Bytes52>>)
    ensures
        match r {
            Some(keys) => gathered(registry@, participants@) == Some(keys@),
            None => gathered(registry@, participants@) is None,
        },
{
    let mut keys: Vec<Bytes52> = Vec::new();
    let n: usize = participants.len();
    let mut i: usize = 0;
    assert(participants@.take(0) =~= Seq::empty());
    assert(keys@ =~= Seq::empty());
    while i < n
        invariant
            i <= n,
            n == participants@.len(),
            gathered(registry@, participants@.take(i as int)) == Some(keys@),
        decreases n - i,
    {
        assert(participants@.take(i + 1).drop_last() =~= participants@.take(i as int));
        if participants.is_set(i) {
            if i >= registry.len() {
                proof {
                    lemma_gathered_refused(registry@, participants@, (i + 1) as nat);
                }
                return None;
            }
            keys.push(registry[i]);
        }
        i = i + 1;
    }
    assert(participants@.take(n as int) =~= participants@);
    Some(keys)
}

/// Checks signatures against a registry of keys, ordered by validator index. The
/// signature scheme says beforehand which checks it accepts.
#[derive(Clone, Debug)]
pub struct SimpleGossipVerifier {
    attestation_pubkeys: Vec<Bytes52>,
    proposal_pubkeys: Vec<Bytes52>,
    accepted: Vec<SignatureCheck>,
}

/// The value of a [`SimpleGossipVerifier`].
#[verifier::ext_equal]
pub struct VerifierModel {
    pub attestation_pubkeys: Seq<Bytes52>,
    pub proposal_pubkeys: Seq<Bytes52>,
    pub accepted: Seq<CheckModel>,
}

impl View for SimpleGossipVerifier {
    type V = VerifierModel;

    closed spec fn view(&self) -> VerifierModel {
        VerifierModel {
            attestation_pubkeys: self.attestation_pubkeys@,
            proposal_pubkeys: self.proposal_pubkeys@,
            accepted: check_models(self.accepted@),
        }
    }
}

/// The values of a list of checks.
pub open spec fn check_models(v: Seq<SignatureCheck>) -> Seq<CheckModel> {
    v.map_values(|c: SignatureCheck| c@)
}

impl VerifierModel {
    /// The check of the proposer's signature over a block.
    pub open spec fn block_check(
        self,
        proposer_index: ValidatorIndex,
        message: BlockModel,
        signature: Bytes3112,
    ) -> Option<CheckModel> {
        if proposer_index.0.0 >= self.proposal_pubkeys.len() {
            None
        } else {
            Some(
                CheckModel::Single {
                    public_key: self.proposal_pubkeys[proposer_index.0.0 as int],
                    message: message.root_value(),
                    signature,
                    epoch: message.slot.0.0 as u32,
                },
            )
        }
    }

    /// The check of a validator's signature over its vote.
    pub open spec fn vote_check(self, a: SignedAttestation) -> Option<CheckModel> {
        if a.validator_id.0 >= self.attestation_pubkeys.len() {
            None
        } else {
            Some(
                CheckModel::Single {
                    public_key: self.attestation_pubkeys[a.validator_id.0 as int],
                    message: a.message.root_value(),
                    signature: a.signature,
                    epoch: a.message.slot.0.0 as u32,
                },
            )
        }
    }

    /// The check of the aggregated signature over an attestation.
    pub open spec fn aggregate_check(self, a: AttestationModel, p: ProofModel) -> Option<
        CheckModel,
    > {
        match gathered(self.attestation_pubkeys, a.aggregation_bits) {
            None => None,
            Some(keys) => if keys.len() == 0 {
                None
            } else {
                Some(
                    CheckModel::Aggregate {
                        public_keys: keys,
                        message: a.data.root_value(),
                        proof: p.proof_data,
                        epoch: a.data.slot.0.0 as u32,
                    },
                )
            },
        }
    }

    /// Whether a check can be made and the scheme accepts it.
    pub open spec fn accepts(self, check: Option<CheckModel>) -> bool {
        match check {
            Some(c) => self.accepted.contains(c),
            None => false,
        }
    }
}

impl SimpleGossipVerifier {
    /// A verifier for two registries of the same length. It accepts nothing yet.
    pub fn new(attestation_pubkeys: Vec<Bytes52>, proposal_pubkeys: Vec<Bytes52>) -> (r: Self)
        requires
            attestation_pubkeys@.len() == proposal_pubkeys@.len(),
        ensures
            r@ == (VerifierModel {
                attestation_pubkeys: attestation_pubkeys@,
                proposal_pubkeys: proposal_pubkeys@,
                accepted: Seq::empty(),
            }),
    {
        let r = SimpleGossipVerifier {
            attestation_pubkeys,
            proposal_pubkeys,
            accepted: Vec::new(),
        };
        assert(check_models(r.accepted@) =~= Seq::empty());
        r
    }

    /// Takes over the checks that the signature scheme accepts.
    pub fn set_accepted(&mut self, accepted: Vec<SignatureCheck>)
        ensures
            final(self)@ == (VerifierModel {
                accepted: check_models(accepted@),
                ..old(self)@
            }),
    {
        self.accepted = accepted;
    }

    /// Whether a check is among the accepted ones.
    fn accepts_check(&self, check: &SignatureCheck) -> (r: bool)
        ensures
            r == self@.accepted.contains(check@),
    {
        let mut i: usize = 0;
        while i < self.accepted.len()
            invariant
                i <= self.accepted@.len(),
                forall|j: int| 0 <= j < i ==> (#[trigger] self.accepted@[j])@ != check@,
            decreases self.accepted@.len() - i,
        {
            if same_check(&self.accepted[i], check) {
                assert(self@.accepted[i as int] == check@);
                return true;
            }
            i = i + 1;
        }
        assert forall|j: int| 0 <= j < self@.accepted.len() implies self@.accepted[j] != check@ by {
            assert(self@.accepted[j] == self.accepted@[j]@);
        }
        false
    }

    /// The check of the proposer's signature over a block.
    pub fn block_check(
        &self,
        proposer_index: ValidatorIndex,
        message: &Block,
        signature: &Bytes3112,
    ) -> (r: Option<SignatureCheck>)
        ensures
            option_model(r) == self@.block_check(proposer_index, message@, *signature),
    {
        let index: u64 = proposer_index.0.0;
        if index >= self.proposal_pubkeys.len() as u64 {
            return None;
        }
        Some(
            SignatureCheck::Single {
                public_key: self.proposal_pubkeys[index as usize],
                message: message.hash_tree_root(),
                signature: *signature,
                epoch: message.slot.0.0 as u32,
            },
        )
    }

    /// The check of a validator's signature over its vote.
    pub fn vote_check(&self, attestation: &SignedAttestation) -> (r: Option<SignatureCheck>)
        ensures
            option_model(r) == self@.vote_check(*attestation),
    {
        let index: u64 = attestation.validator_id.0;
        if index >= self.attestation_pubkeys.len() as u64 {
            return None;
        }
        Some(
            SignatureCheck::Single {
                public_key: self.attestation_pubkeys[index as usize],
                message: attestation.message.hash_tree_root(),
                signature: attestation.signature,
                epoch: attestation.message.slot.0.0 as u32,
            },
        )
    }

    /// The check of the aggregated signature over an attestation.
    pub fn aggregate_check(
        &self,
        attestation: &Attestation,
        evidence: &AggregatedSignatureProof,
    ) -> (r: Option<SignatureCheck>)
        ensures
            option_model(r) == self@.aggregate_check(attestation@, evidence@),
    {
        match gather_pubkeys(&self.attestation_pubkeys, &attestation.aggregation_bits) {
            None => None,
            Some(keys) => {
                if keys.len() == 0 {
                    return None;
                }
                Some(
                    SignatureCheck::Aggregate {
                        public_keys: keys,
                        message: attestation.data.hash_tree_root(),
                        proof: evidence.proof_data.encode_ssz(),
                        epoch: attestation.data.slot.0.0 as u32,
                    },
                )
            },
        }
    }
}

/// The value of a check that there may be.
pub open spec fn option_model(c: Option<SignatureCheck>) -> Option<CheckModel> {
    match c {
        Some(c) => Some(c@),
        None => None,
    }
}

impl GossipSignatureVerifier for SimpleGossipVerifier {
    open spec fn accepts_block(
        &self,
        proposer_index: ValidatorIndex,
        message: BlockModel,
        signature: Bytes3112,
    ) -> bool {
        self@.accepts(self@.block_check(proposer_index, message, signature))
    }

    open spec fn accepts_vote(&self, attestation: SignedAttestation) -> bool {
        self@.accepts(self@.vote_check(attestation))
    }

    open spec fn accepts_aggregate(
        &self,
        attestation: AttestationModel,
        evidence: ProofModel,
    ) -> bool {
        self@.accepts(self@.aggregate_check(attestation, evidence))
    }

    fn verify_block_signature(
        &self,
        proposer_index: ValidatorIndex,
        message: &Block,
        signature: &Bytes3112,
    ) -> (r: bool) {
        match self.block_check(proposer_index, message, signature) {
            Some(c) => self.accepts_check(&c),
            None => false,
        }
    }

    fn verify_signed_attestation_signature(&self, attestation: &SignedAttestation) -> (r: bool) {
        match self.vote_check(attestation) {
            Some(c) => self.accepts_check(&c),
            None => false,
        }
    }

    fn verify_attestation_signature(
        &self,
        attestation: &Attestation,
        evidence: &AggregatedSignatureProof,
    ) -> (r: bool) {
        match self.aggregate_check(attestation, evidence) {
            Some(c) => self.accepts_check(&c),
            None => false,
        }
    }
}

/// Whether a proposer's vote has a voter.
pub open spec fn vote_present(bits: Seq<bool>) -> bool {
    exists|i: int| 0 <= i < bits.len() && #[trigger] bits[i]
}

/// Whether the attestations from `i` on name the signers that their proofs do
/// and are accepted.
pub open spec fn attestations_valid<V: GossipSignatureVerifier>(
    v: V,
    attestations: Seq<AttestationModel>,
    proofs: Seq<ProofModel>,
    i: nat,
) -> bool
    decreases attestations.len() - i,
{
    if i >= attestations.len() {
        true
    } else {
        proofs[i as int].participants == attestations[i as int].aggregation_bits
            && v.accepts_aggregate(attestations[i as int], proofs[i as int]) && attestations_valid(
            v,
            attestations,
            proofs,
            i + 1,
        )
    }
}

/// Whether a proposer's vote, if there is one, is the proposer's own vote for
/// the block's slot.
pub open spec fn proposer_vote_fits(b: BlockModel, vote: AttestationModel) -> bool {
    vote_present(vote.aggregation_bits) ==> vote.data.slot == b.slot
        && crate::containers::block::only_bit(vote.aggregation_bits) == Some(
        b.proposer_index.0.0 as int,
    )
}

/// Whether a signed block is well formed and all of its signatures are accepted.
pub open spec fn block_valid<V: GossipSignatureVerifier>(v: V, s: SignedBlockModel) -> bool {
    let b = s.message.block;
    &&& proposer_vote_fits(b, s.message.proposer_attestation)
    &&& v.accepts_block(b.proposer_index, b, s.signature.proposer_signature)
    &&& b.attestations.len() == s.signature.attestation_signatures.len()
    &&& attestations_valid(v, b.attestations, s.signature.attestation_signatures, 0)
}

/// Whether an aggregated attestation has a signer and is accepted.
pub open spec fn aggregate_valid<V: GossipSignatureVerifier>(
    v: V,
    s: SignedAggregateModel,
) -> bool {
    vote_present(s.proof.participants) && v.accepts_aggregate(
        AttestationModel { aggregation_bits: s.proof.participants, data: s.data },
        s.proof,
    )
}

/// Whether a payload is valid.
pub open spec fn payload_valid<V: GossipSignatureVerifier>(
    v: V,
    kind: GossipValidatorKind,
    payload: Seq<u8>,
) -> bool {
    match kind {
        GossipValidatorKind::Unchecked => true,
        GossipValidatorKind::Block => match SignedBlockModel::decoded(payload, true) {
            Ok(s) => block_valid(v, s),
            Err(_) => false,
        },
        GossipValidatorKind::BlockHeader => BlockHeader::decoded(payload) is Ok,
        GossipValidatorKind::Attestation => match SignedAttestation::decoded(payload) {
            Ok(a) => v.accepts_vote(a),
            Err(_) => false,
        },
        GossipValidatorKind::AggregatedAttestation => match SignedAggregateModel::decoded(
            payload,
            true,
        ) {
            Ok(s) => aggregate_valid(v, s),
            Err(_) => false,
        },
        GossipValidatorKind::VoluntaryExit => VoluntaryExit::decoded(payload) is Ok,
    }
}

/// Whether a bit is set.
fn any_bit_set(bits: &BitList<VALIDATOR_REGISTRY_LIMIT>) -> (r: bool)
    ensures
        r == vote_present(bits@),
{
    let n: usize = bits.len();
    let mut i: usize = 0;
    while i < n
        invariant
            i <= n,
            n == bits@.len(),
            forall|j: int| 0 <= j < i ==> !bits@[j],
        decreases n - i,
    {
        if bits.is_set(i) {
            assert(bits@[i as int]);
            return true;
        }
        i = i + 1;
    }
    false
}

fn validate_block<V: GossipSignatureVerifier>(
    block: &SignedBlockWithAttestation,
    verifier: &V,
) -> (r: bool)
    ensures
        r == block_valid(*verifier, block@),
{
    let message = &block.message;
    let vote = &message.proposer_attestation;
    if any_bit_set(&vote.aggregation_bits) {
        if vote.data.slot.0.0 != message.block.slot.0.0 {
            return false;
        }
        match crate::containers::block::single_set_bit(&vote.aggregation_bits) {
            None => {
                return false;
            },
            Some(i) => {
                if i as u64 != message.block.proposer_index.0.0 {
                    return false;
                }
            },
        }
    }
    if !verifier.verify_block_signature(
        message.block.proposer_index,
        &message.block,
        &block.signature.proposer_signature,
    ) {
        return false;
    }
    let attestations = &message.block.body.attestations.data;
    let proofs = &block.signature.attestation_signatures.data;
    if attestations.len() != proofs.len() {
        return false;
    }
    let ghost all = block@.message.block.attestations;
    let ghost evidence = block@.signature.attestation_signatures;
    let mut i: usize = 0;
    while i < attestations.len()
        invariant
            i <= attestations@.len(),
            attestations@.len() == proofs@.len(),
            all.len() == attestations@.len(),
            evidence.len() == proofs@.len(),
            forall|j: int| 0 <= j < all.len() ==> #[trigger] all[j] == attestations@[j]@,
            forall|j: int| 0 <= j < evidence.len() ==> #[trigger] evidence[j] == proofs@[j]@,
            block_valid(*verifier, block@) == attestations_valid(*verifier, all, evidence, i as nat),
        decreases attestations@.len() - i,
    {
        assert(all[i as int] == attestations@[i as int]@);
        assert(evidence[i as int] == proofs@[i as int]@);
        if !equal_bits(&proofs[i].participants, &attestations[i].aggregation_bits) {
            return false;
        }
        if !verifier.verify_attestation_signature(&attestations[i], &proofs[i]) {
            return false;
        }
        i = i + 1;
    }
    true
}

/// Validates a gossip payload.
pub fn validate_gossip<V: GossipSignatureVerifier>(
    kind: GossipValidatorKind,
    payload: &[u8],
    verifier: &V,
) -> (r: bool)
    ensures
        r == payload_valid(*verifier, kind, payload@),
{
    match kind {
        GossipValidatorKind::Unchecked => true,
        GossipValidatorKind::Block => match GossipBlock::decode_ssz_checked(payload) {
            Ok(block) => validate_block(&block.block, verifier),
            Err(_) => false,
        },
        GossipValidatorKind::BlockHeader => GossipBlockHeader::decode_ssz_checked(payload).is_ok(),
        GossipValidatorKind::Attestation => match GossipAttestation::decode_ssz_checked(payload) {
            Ok(a) => verifier.verify_signed_attestation_signature(&a.attestation),
            Err(_) => false,
        },
        GossipValidatorKind::AggregatedAttestation => {
            match GossipAggregatedAttestation::decode_ssz_checked(payload) {
                Ok(a) => {
                    let signed = &a.attestation;
                    if !any_bit_set(&signed.proof.participants) {
                        return false;
                    }
                    let aggregated = Attestation {
                        aggregation_bits: signed.proof.participants.duplicate(),
                        data: signed.data,
                    };
                    verifier.verify_attestation_signature(&aggregated, &signed.proof)
                },
                Err(_) => false,
            }
        },
        GossipValidatorKind::VoluntaryExit => VoluntaryExit::decode_ssz_checked(payload).is_ok(),
    }
}

/// The checks of the first `k` attestations.
pub open spec fn aggregate_checks(
    v: VerifierModel,
    attestations: Seq<AttestationModel>,
    proofs: Seq<ProofModel>,
    k: nat,
) -> Seq<CheckModel>
    decreases k,
{
    if k == 0 {
        Seq::empty()
    } else {
        let before = aggregate_checks(v, attestations, proofs, (k - 1) as nat);
        match v.aggregate_check(attestations[k - 1], proofs[k - 1]) {
            Some(c) => before.push(c),
            None => before,
        }
    }
}

/// A check that there may be, as a list.
pub open spec fn as_list(c: Option<CheckModel>) -> Seq<CheckModel> {
    match c {
        Some(c) => seq![c],
        None => Seq::empty(),
    }
}

/// The checks that validating a payload can ask of the signature scheme.
pub open spec fn asked_checks(
    v: VerifierModel,
    kind: GossipValidatorKind,
    payload: Seq<u8>,
) -> Seq<CheckModel> {
    match kind {
        GossipValidatorKind::Block => match SignedBlockModel::decoded(payload, true) {
            Ok(s) => {
                let b = s.message.block;
                let proofs = s.signature.attestation_signatures;
                if b.attestations.len() != proofs.len() {
                    Seq::empty()
                } else {
                    aggregate_checks(v, b.attestations, proofs, proofs.len()) + as_list(
                        v.block_check(b.proposer_index, b, s.signature.proposer_signature),
                    )
                }
            },
            Err(_) => Seq::empty(),
        },
        GossipValidatorKind::Attestation => match SignedAttestation::decoded(payload) {
            Ok(a) => as_list(v.vote_check(a)),
            Err(_) => Seq::empty(),
        },
        GossipValidatorKind::AggregatedAttestation => match SignedAggregateModel::decoded(
            payload,
            true,
        ) {
            Ok(s) => as_list(
                v.aggregate_check(
                    AttestationModel { aggregation_bits: s.proof.participants, data: s.data },
                    s.proof,
                ),
            ),
            Err(_) => Seq::empty(),
        },
        _ => Seq::empty(),
    }
}

fn put_check(out: &mut Vec<SignatureCheck>, c: Option<SignatureCheck>)
    ensures
        check_models(final(out)@) == check_models(old(out)@) + as_list(option_model(c)),
{
    match c {
        Some(c) => {
            out.push(c);
            assert(check_models(out@) =~= check_models(old(out)@) + seq![c@]);
        },
        None => {
            assert(check_models(out@) =~= check_models(old(out)@) + Seq::empty());
        },
    }
}

impl SimpleGossipVerifier {
    /// The checks that validating a payload can ask of the signature scheme.
    pub fn asked_checks(&self, kind: GossipValidatorKind, payload: &[u8]) -> (r: Vec<
        SignatureCheck,
    >)
        ensures
            check_models(r@) == asked_checks(self@, kind, payload@),
    {
        let mut out: Vec<SignatureCheck> = Vec::new();
        assert(check_models(out@) =~= Seq::empty());
        match kind {
            GossipValidatorKind::Block => {
                if let Ok(block) = GossipBlock::decode_ssz_checked(payload) {
                    let attestations = &block.block.message.block.body.attestations.data;
                    let proofs = &block.block.signature.attestation_signatures.data;
                    if attestations.len() != proofs.len() {
                        return out;
                    }
                    let ghost all = block.block@.message.block.attestations;
                    let ghost evidence = block.block@.signature.attestation_signatures;
                    let mut i: usize = 0;
                    while i < proofs.len()
                        invariant
                            i <= proofs@.len(),
                            attestations@.len() == proofs@.len(),
                            all.len() == attestations@.len(),
                            evidence.len() == proofs@.len(),
                            forall|j: int|
                                0 <= j < all.len() ==> #[trigger] all[j] == attestations@[j]@,
                            forall|j: int|
                                0 <= j < evidence.len() ==> #[trigger] evidence[j] == proofs@[j]@,
                            check_models(out@) == aggregate_checks(self@, all, evidence, i as nat),
                        decreases proofs@.len() - i,
                    {
                        assert(all[i as int] == attestations@[i as int]@);
                        assert(evidence[i as int] == proofs@[i as int]@);
                        let c = self.aggregate_check(&attestations[i], &proofs[i]);
                        let ghost before = check_models(out@);
                        put_check(&mut out, c);
                        assert(check_models(out@) =~= aggregate_checks(
                            self@,
                            all,
                            evidence,
                            (i + 1) as nat,
                        ));
                        i = i + 1;
                    }
                    let c = self.block_check(
                        block.block.message.block.proposer_index,
                        &block.block.message.block,
                        &block.block.signature.proposer_signature,
                    );
                    put_check(&mut out, c);
                }
            },
            GossipValidatorKind::Attestation => {
                if let Ok(a) = GossipAttestation::decode_ssz_checked(payload) {
                    let c = self.vote_check(&a.attestation);
                    put_check(&mut out, c);
                    assert(check_models(out@) =~= as_list(option_model(c)));
                }
            },
            GossipValidatorKind::AggregatedAttestation => {
                if let Ok(a) = GossipAggregatedAttestation::decode_ssz_checked(payload) {
                    let signed = &a.attestation;
                    let aggregated = Attestation {
                        aggregation_bits: signed.proof.participants.duplicate(),
                        data: signed.data,
                    };
                    let c = self.aggregate_check(&aggregated, &signed.proof);
                    put_check(&mut out, c);
                    assert(check_models(out@) =~= as_list(option_model(c)));
                }
            },
            _ => {},
        }
        out
    }
}

/// Two verifiers agree on a list of checks.
pub open spec fn agree_on(v: VerifierModel, w: VerifierModel, checks: Seq<CheckModel>) -> bool {
    forall|i: int|
        0 <= i < checks.len() ==> v.accepted.contains(#[trigger] checks[i]) == w.accepted.contains(
            checks[i],
        )
}

proof fn lemma_attestations_agree(
    v: SimpleGossipVerifier,
    w: SimpleGossipVerifier,
    attestations: Seq<AttestationModel>,
    proofs: Seq<ProofModel>,
    i: nat,
)
    requires
        attestations.len() == proofs.len(),
        i <= proofs.len(),
        v@.attestation_pubkeys == w@.attestation_pubkeys,
        forall|k: nat|
            i <= k < proofs.len() ==> v.accepts_aggregate(
                attestations[k as int],
                #[trigger] proofs[k as int],
            ) == w.accepts_aggregate(attestations[k as int], proofs[k as int]),
    ensures
        attestations_valid(v, attestations, proofs, i) == attestations_valid(
            w,
            attestations,
            proofs,
            i,
        ),
    decreases attestations.len() - i,
{
    if i < attestations.len() {
        assert(v.accepts_aggregate(attestations[i as int], proofs[i as int])
            == w.accepts_aggregate(attestations[i as int], proofs[i as int]));
        lemma_attestations_agree(v, w, attestations, proofs, i + 1);
    }
}

/// Each attestation's check is among the checks of the attestations.
proof fn lemma_aggregate_asked(
    v: VerifierModel,
    attestations: Seq<AttestationModel>,
    proofs: Seq<ProofModel>,
    i: nat,
    k: nat,
)
    requires
        i < k,
    ensures
        match v.aggregate_check(attestations[i as int], proofs[i as int]) {
            Some(c) => aggregate_checks(v, attestations, proofs, k).contains(c),
            None => true,
        },
    decreases k,
{
    let all = aggregate_checks(v, attestations, proofs, k);
    let before = aggregate_checks(v, attestations, proofs, (k - 1) as nat);
    match v.aggregate_check(attestations[i as int], proofs[i as int]) {
        Some(c) => {
            if i == k - 1 {
                assert(all.last() == c);
            } else {
                lemma_aggregate_asked(v, attestations, proofs, i, (k - 1) as nat);
                let j = choose|j: int| 0 <= j < before.len() && before[j] == c;
                assert(all[j] == c);
            }
        },
        None => {},
    }
}

/// Only the asked checks matter: two verifiers with the same keys that agree on
/// them find the same payloads valid.
pub proof fn law_asked_checks_decide(
    v: SimpleGossipVerifier,
    w: SimpleGossipVerifier,
    kind: GossipValidatorKind,
    payload: Seq<u8>,
)
    requires
        v@.attestation_pubkeys == w@.attestation_pubkeys,
        v@.proposal_pubkeys == w@.proposal_pubkeys,
        agree_on(v@, w@, asked_checks(v@, kind, payload)),
    ensures
        payload_valid(v, kind, payload) == payload_valid(w, kind, payload),
{
    let asked = asked_checks(v@, kind, payload);
    match kind {
        GossipValidatorKind::Block => {
            match SignedBlockModel::decoded(payload, true) {
                Ok(s) => {
                    let b = s.message.block;
                    let proofs = s.signature.attestation_signatures;
                    if b.attestations.len() == proofs.len() {
                        let first = aggregate_checks(v@, b.attestations, proofs, proofs.len());
                        let own = v@.block_check(
                            b.proposer_index,
                            b,
                            s.signature.proposer_signature,
                        );
                        if own is Some {
                            assert(asked[first.len() as int] == own->0);
                        }
                        assert(v.accepts_block(
                            b.proposer_index,
                            b,
                            s.signature.proposer_signature,
                        ) == w.accepts_block(b.proposer_index, b, s.signature.proposer_signature));
                        assert forall|k: nat| 0 <= k < proofs.len() implies v.accepts_aggregate(
                            b.attestations[k as int],
                            #[trigger] proofs[k as int],
                        ) == w.accepts_aggregate(b.attestations[k as int], proofs[k as int]) by {
                            lemma_aggregate_asked(v@, b.attestations, proofs, k, proofs.len());
                            let c = v@.aggregate_check(b.attestations[k as int], proofs[k as int]);
                            if c is Some {
                                let j = choose|j: int| 0 <= j < first.len() && first[j] == c->0;
                                assert(asked[j] == c->0);
                            }
                        }
                        lemma_attestations_agree(v, w, b.attestations, proofs, 0);
                    }
                },
                Err(_) => {},
            }
        },
        GossipValidatorKind::Attestation => {
            match SignedAttestation::decoded(payload) {
                Ok(a) => {
                    if v@.vote_check(a) is Some {
                        assert(asked[0] == v@.vote_check(a)->0);
                    }
                },
                Err(_) => {},
            }
        },
        GossipValidatorKind::AggregatedAttestation => {
            match SignedAggregateModel::decoded(payload, true) {
                Ok(s) => {
                    let a = AttestationModel {
                        aggregation_bits: s.proof.participants,
                        data: s.data,
                    };
                    if v@.aggregate_check(a, s.proof) is Some {
                        assert(asked[0] == v@.aggregate_check(a, s.proof)->0);
                    }
                },
                Err(_) => {},
            }
        },
        _ => {},
    }
}

/// The verifier for a set of validators: without validators everything is
/// accepted.
#[derive(Clone, Debug)]
pub enum ValidatorsVerifier {
    /// There are no validators.
    Noop(NoopGossipVerifier),
    /// There are validators.
    Simple(SimpleGossipVerifier),
}

impl GossipSignatureVerifier for ValidatorsVerifier {
    open spec fn accepts_block(
        &self,
        proposer_index: ValidatorIndex,
        message: BlockModel,
        signature: Bytes3112,
    ) -> bool {
        match *self {
            ValidatorsVerifier::Noop(v) => v.accepts_block(proposer_index, message, signature),
            ValidatorsVerifier::Simple(v) => v.accepts_block(proposer_index, message, signature),
        }
    }

    open spec fn accepts_vote(&self, attestation: SignedAttestation) -> bool {
        match *self {
            ValidatorsVerifier::Noop(v) => v.accepts_vote(attestation),
            ValidatorsVerifier::Simple(v) => v.accepts_vote(attestation),
        }
    }

    open spec fn accepts_aggregate(
        &self,
        attestation: AttestationModel,
        evidence: ProofModel,
    ) -> bool {
        match *self {
            ValidatorsVerifier::Noop(v) => v.accepts_aggregate(attestation, evidence),
            ValidatorsVerifier::Simple(v) => v.accepts_aggregate(attestation, evidence),
        }
    }

    fn verify_block_signature(
        &self,
        proposer_index: ValidatorIndex,
        message: &Block,
        signature: &Bytes3112,
    ) -> (r: bool) {
        match self {
            ValidatorsVerifier::Noop(v) => {
                v.verify_block_signature(proposer_index, message, signature)
            },
            ValidatorsVerifier::Simple(v) => {
                v.verify_block_signature(proposer_index, message, signature)
            },
        }
    }

    fn verify_signed_attestation_signature(&self, attestation: &SignedAttestation) -> (r: bool) {
        match self {
            ValidatorsVerifier::Noop(v) => v.verify_signed_attestation_signature(attestation),
            ValidatorsVerifier::Simple(v) => v.verify_signed_attestation_signature(attestation),
        }
    }

    fn verify_attestation_signature(
        &self,
        attestation: &Attestation,
        evidence: &AggregatedSignatureProof,
    ) -> (r: bool) {
        match self {
            ValidatorsVerifier::Noop(v) => v.verify_attestation_signature(attestation, evidence),
            ValidatorsVerifier::Simple(v) => v.verify_attestation_signature(attestation, evidence),
        }
    }
}

/// The keys of the validators, in order.
pub open spec fn registry_of(validators: Seq<Validator>) -> Seq<Bytes52> {
    validators.map_values(|v: Validator| v.pubkey)
}

/// The verifier for a set of validators. Every validator signs its proposals and
/// its attestations with its one key.
pub fn verifier_from_validators(validators: &[Validator]) -> (r: ValidatorsVerifier)
    ensures
        match r {
            ValidatorsVerifier::Noop(_) => validators@.len() == 0,
            ValidatorsVerifier::Simple(v) => validators@.len() > 0 && v@ == (VerifierModel {
                attestation_pubkeys: registry_of(validators@),
                proposal_pubkeys: registry_of(validators@),
                accepted: Seq::empty(),
            }),
        },
{
    if validators.len() == 0 {
        return ValidatorsVerifier::Noop(NoopGossipVerifier);
    }
    let mut attestation_pubkeys: Vec<Bytes52> = Vec::new();
    let mut proposal_pubkeys: Vec<Bytes52> = Vec::new();
    let mut i: usize = 0;
    while i < validators.len()
        invariant
            i <= validators@.len(),
            attestation_pubkeys@ == registry_of(validators@).take(i as int),
            proposal_pubkeys@ == registry_of(validators@).take(i as int),
        decreases validators@.len() - i,
    {
        attestation_pubkeys.push(validators[i].pubkey);
        proposal_pubkeys.push(validators[i].pubkey);
        assert(attestation_pubkeys@ =~= registry_of(validators@).take(i + 1));
        assert(proposal_pubkeys@ =~= registry_of(validators@).take(i + 1));
        i = i + 1;
    }
    assert(attestation_pubkeys@ =~= registry_of(validators@));
    assert(proposal_pubkeys@ =~= registry_of(validators@));
    ValidatorsVerifier::Simple(SimpleGossipVerifier::new(attestation_pubkeys, proposal_pubkeys))
}

} // verus!
