//! Attestations: votes of validators, single and aggregated.

use crate::containers::checkpoint::Checkpoint;
use crate::slot::Slot;
use crate::ssz::hash;
use crate::ssz::SszElement;
use crate::text;
use crate::types::bitlist;
use crate::types::bitlist::BitList;
use crate::types::bytes::{ByteList, Bytes3112, Bytes32};
use crate::types::uint::Uint64;
use vstd::prelude::*;
use vstd::string::StringExecFns;

verus! {

/// Most validators that one attestation can cover.
pub const VALIDATOR_REGISTRY_LIMIT: usize = 4_096;

/// Number of attestation committees.
pub const ATTESTATION_COMMITTEE_COUNT: u64 = 1;

/// Length of one signature.
pub const SIGNATURE_BYTES: usize = 3_112;

/// Longest aggregated proof.
pub const PROOF_MAX_BYTES: usize = 1_048_576;

/// What a validator votes for.
///
/// The encoding has 128 bytes: `slot` (8), `head` (40), `target` (40), `source` (40).
#[derive(Clone, Copy, Debug, PartialEq, Eq)]
pub struct AttestationData {
    /// Slot of the vote.
    pub slot: Slot,
    /// Head of the chain as the voter sees it.
    pub head: Checkpoint,
    /// Checkpoint to be justified.
    pub target: Checkpoint,
    /// Justified checkpoint that the vote starts from.
    pub source: Checkpoint,
}

/// A vote with the set of its voters.
#[derive(Clone, Debug, PartialEq, Eq)]
pub struct Attestation {
    /// Bit `i` is set when validator `i` voted.
    pub aggregation_bits: BitList<VALIDATOR_REGISTRY_LIMIT>,
    /// The vote.
    pub data: AttestationData,
}

/// A vote with the set of its voters.
pub type AggregatedAttestation = Attestation;

/// A vote of one validator with its signature.
///
/// The encoding has 3248 bytes: `validator_id` (8), `message` (128), `signature` (3112).
#[derive(Clone, Debug, PartialEq, Eq)]
pub struct SignedAttestation {
    /// The voter.
    pub validator_id: Uint64,
    /// The vote.
    pub message: AttestationData,
    /// The voter's signature.
    pub signature: Bytes3112,
}

/// An aggregated signature with the set of its signers.
#[derive(Clone, Debug, PartialEq, Eq)]
pub struct AggregatedSignatureProof {
    /// Bit `i` is set when validator `i` signed.
    pub participants: BitList<VALIDATOR_REGISTRY_LIMIT>,
    /// The proof.
    pub proof_data: ByteList<PROOF_MAX_BYTES>,
}

/// A vote with an aggregated signature.
#[derive(Clone, Debug, PartialEq, Eq)]
pub struct SignedAggregatedAttestation {
    /// The vote.
    pub data: AttestationData,
    /// The aggregated signature.
    pub proof: AggregatedSignatureProof,
}

/// The value of an [`Attestation`].
#[verifier::ext_equal]
pub struct AttestationModel {
    pub aggregation_bits: Seq<bool>,
    pub data: AttestationData,
}

/// The value of an [`AggregatedSignatureProof`].
#[verifier::ext_equal]
pub struct ProofModel {
    pub participants: Seq<bool>,
    pub proof_data: Seq<u8>,
}

/// The value of a [`SignedAggregatedAttestation`].
#[verifier::ext_equal]
pub struct SignedAggregateModel {
    pub data: AttestationData,
    pub proof: ProofModel,
}

impl View for Attestation {
    type V = AttestationModel;

    open spec fn view(&self) -> AttestationModel {
        AttestationModel { aggregation_bits: self.aggregation_bits@, data: self.data }
    }
}

impl View for AggregatedSignatureProof {
    type V = ProofModel;

    open spec fn view(&self) -> ProofModel {
        ProofModel { participants: self.participants@, proof_data: self.proof_data@ }
    }
}

impl View for SignedAggregatedAttestation {
    type V = SignedAggregateModel;

    open spec fn view(&self) -> SignedAggregateModel {
        SignedAggregateModel { data: self.data, proof: self.proof@ }
    }
}

impl AttestationData {
    /// The encoding.
    pub open spec fn bytes(self) -> Seq<u8> {
        crate::ssz::u64_bytes(self.slot.0.0) + self.head.bytes() + self.target.bytes()
            + self.source.bytes()
    }

    /// The value in the first 128 bytes.
    pub open spec fn read(b: Seq<u8>) -> AttestationData {
        AttestationData {
            slot: Slot(Uint64(crate::ssz::u64_at(b, 0))),
            head: Checkpoint::read(b.subrange(8, 48)),
            target: Checkpoint::read(b.subrange(48, 88)),
            source: Checkpoint::read(b.subrange(88, 128)),
        }
    }

    /// The tree root.
    pub open spec fn root_value(self) -> Bytes32 {
        hash::parent(
            hash::parent(hash::number_chunk(self.slot.0.0), self.head.root_value()),
            hash::parent(self.target.root_value(), self.source.root_value()),
        )
    }

    /// The encoded length.
    pub fn fixed_len() -> (r: usize)
        ensures
            r == 128,
    {
        128
    }

    /// Encodes the vote.
    pub fn encode_ssz(&self) -> (r: Vec<u8>)
        ensures
            r@ == self.bytes(),
            r@.len() == 128,
    {
        let mut out: Vec<u8> = Vec::with_capacity(128);
        crate::ssz::put_u64(&mut out, self.slot.0.0);
        crate::ssz::put_bytes(&mut out, self.head.encode_ssz().as_slice());
        crate::ssz::put_bytes(&mut out, self.target.encode_ssz().as_slice());
        crate::ssz::put_bytes(&mut out, self.source.encode_ssz().as_slice());
        assert(out@ =~= self.bytes());
        out
    }

    /// Reads the first 128 bytes.
    pub fn take_from(bytes: &[u8]) -> (r: Self)
        requires
            bytes@.len() >= 128,
        ensures
            r == Self::read(bytes@),
    {
        AttestationData {
            slot: Slot(Uint64(crate::ssz::get_u64(bytes, 0))),
            head: Checkpoint::take_from(vstd::slice::slice_subrange(bytes, 8, 48)),
            target: Checkpoint::take_from(vstd::slice::slice_subrange(bytes, 48, 88)),
            source: Checkpoint::take_from(vstd::slice::slice_subrange(bytes, 88, 128)),
        }
    }

    /// Decodes the first 128 bytes.
    pub fn decode_ssz(bytes: &[u8]) -> (r: Result<Self, String>)
        requires
            bytes@.len() >= 128,
        ensures
            r matches Ok(v) && v == Self::read(bytes@),
    {
        Ok(Self::take_from(bytes))
    }

    /// What checked decoding gives.
    pub open spec fn decoded(b: Seq<u8>) -> Result<AttestationData, Seq<char>> {
        if b.len() == 128 {
            Ok(AttestationData::read(b))
        } else {
            Err(text::length_mismatch("AttestationData"@, 128, b.len()))
        }
    }

    /// Decodes exactly 128 bytes.
    pub fn decode_ssz_checked(bytes: &[u8]) -> (r: Result<Self, String>)
        ensures
            crate::ssz::plain_outcome(r) == Self::decoded(bytes@),
    {
        if bytes.len() != 128 {
            return Err(text::length_mismatch_text("AttestationData", 128, bytes.len()));
        }
        Self::decode_ssz(bytes)
    }

    /// Hashes the vote.
    pub fn hash_tree_root(&self) -> (r: [u8; 32])
        ensures
            Bytes32(r) == self.root_value(),
    {
        let slot_root = Bytes32(self.slot.hash_tree_root());
        let head_root = Bytes32(self.head.hash_tree_root());
        let target_root = Bytes32(self.target.hash_tree_root());
        let source_root = Bytes32(self.source.hash_tree_root());
        let left = hash::hash_nodes(&slot_root, &head_root);
        let right = hash::hash_nodes(&target_root, &source_root);
        hash::hash_nodes(&left, &right).0
    }

    /// Decoding gives back what was encoded.
    pub proof fn law_roundtrip(self)
        ensures
            self.bytes().len() == 128,
            AttestationData::read(self.bytes()) == self,
    {
        let b = self.bytes();
        crate::ssz::lemma_u64_len(self.slot.0.0);
        self.head.law_roundtrip();
        self.target.law_roundtrip();
        self.source.law_roundtrip();
        assert(b.subrange(0, 8) =~= crate::ssz::u64_bytes(self.slot.0.0));
        assert(b.subrange(8, 48) =~= self.head.bytes());
        assert(b.subrange(48, 88) =~= self.target.bytes());
        assert(b.subrange(88, 128) =~= self.source.bytes());
        crate::ssz::lemma_u64_read(b, 0, self.slot.0.0);
    }
}

impl AttestationModel {
    /// The encoding: an offset, the vote, then the voters.
    pub open spec fn bytes(self) -> Seq<u8> {
        crate::ssz::offset_bytes(132) + self.data.bytes() + bitlist::bitlist_bytes(
            self.aggregation_bits,
        )
    }

    /// What decoding gives.
    pub open spec fn decoded(b: Seq<u8>) -> Result<AttestationModel, Seq<char>> {
        if b.len() < 132 {
            Err("Attestation missing offset table"@)
        } else {
            let offset = crate::ssz::offset_at(b, 0);
            if offset < 132 || offset > b.len() {
                Err("Attestation offset is invalid"@)
            } else {
                match bitlist::bitlist_from_bytes(
                    b.subrange(offset as int, b.len() as int),
                    VALIDATOR_REGISTRY_LIMIT as nat,
                ) {
                    Err(e) => Err(e),
                    Ok(bits) => Ok(
                        AttestationModel {
                            aggregation_bits: bits,
                            data: AttestationData::read(b.subrange(4, offset as int)),
                        },
                    ),
                }
            }
        }
    }

    /// The tree root.
    pub open spec fn root_value(self) -> Bytes32 {
        hash::parent(
            bitlist::bitlist_root(self.aggregation_bits, VALIDATOR_REGISTRY_LIMIT as nat),
            self.data.root_value(),
        )
    }

    /// Decoding gives back what was encoded.
    pub proof fn law_roundtrip(self)
        requires
            self.aggregation_bits.len() <= VALIDATOR_REGISTRY_LIMIT,
        ensures
            AttestationModel::decoded(self.bytes()) == Ok::<AttestationModel, Seq<char>>(self),
    {
        let b = self.bytes();
        let bits = bitlist::bitlist_bytes(self.aggregation_bits);
        self.data.law_roundtrip();
        crate::ssz::lemma_offset_bytes_mod(132);
        bitlist::lemma_bitlist_roundtrip(self.aggregation_bits, VALIDATOR_REGISTRY_LIMIT as nat);
        assert(b.subrange(0, 4) =~= crate::ssz::offset_bytes(132));
        crate::ssz::lemma_offset_read(b, 0, 132);
        assert(b.subrange(4, 132) =~= self.data.bytes());
        assert(b.subrange(132, b.len() as int) =~= bits);
    }
}

impl Attestation {
    /// A copy of the attestation.
    pub fn duplicate(&self) -> (r: Self)
        ensures
            r@ == self@,
    {
        Attestation { aggregation_bits: self.aggregation_bits.duplicate(), data: self.data }
    }

    /// Encodes the attestation.
    pub fn encode_ssz(&self) -> (r: Vec<u8>)
        ensures
            r@ == self@.bytes(),
    {
        let mut out: Vec<u8> = Vec::new();
        crate::ssz::put_offset(&mut out, 132);
        crate::ssz::put_bytes(&mut out, self.data.encode_ssz().as_slice());
        crate::ssz::put_bytes(&mut out, self.aggregation_bits.encode_ssz().as_slice());
        assert(out@ =~= self@.bytes());
        out
    }

    /// Decodes an attestation. Input whose offset does not delimit its fields is refused.
    pub fn decode_ssz(bytes: &[u8]) -> (r: Result<Self, String>)
        ensures
            crate::ssz::view_outcome(r) == AttestationModel::decoded(bytes@),
    {
        if bytes.len() < 132 {
            return Err("Attestation missing offset table".to_string());
        }
        let offset: usize = crate::ssz::get_offset(bytes, 0);
        if offset < 132 || offset > bytes.len() {
            return Err("Attestation offset is invalid".to_string());
        }
        let data = AttestationData::take_from(vstd::slice::slice_subrange(bytes, 4, offset));
        match BitList::decode_ssz(vstd::slice::slice_subrange(bytes, offset, bytes.len())) {
            Ok(aggregation_bits) => Ok(Attestation { aggregation_bits, data }),
            Err(e) => Err(e),
        }
    }

    /// Decodes an attestation from untrusted bytes.
    pub fn decode_ssz_checked(bytes: &[u8]) -> (r: Result<Self, String>)
        ensures
            crate::ssz::view_outcome(r) == AttestationModel::decoded(bytes@),
    {
        Self::decode_ssz(bytes)
    }

    /// Hashes the attestation.
    pub fn hash_tree_root(&self) -> (r: [u8; 32])
        ensures
            Bytes32(r) == self@.root_value(),
    {
        let bits_root = Bytes32(self.aggregation_bits.hash_tree_root());
        let data_root = Bytes32(self.data.hash_tree_root());
        hash::hash_nodes(&bits_root, &data_root).0
    }
}

impl SszElement for Attestation {
    type Model = AttestationModel;

    open spec fn model(&self) -> AttestationModel {
        self@
    }

    open spec fn static_len() -> nat {
        0
    }

    open spec fn packed() -> bool {
        false
    }

    open spec fn encodable(m: AttestationModel) -> bool {
        true
    }

    open spec fn to_bytes(m: AttestationModel) -> Seq<u8> {
        m.bytes()
    }

    open spec fn from_bytes(b: Seq<u8>, checked: bool) -> Result<AttestationModel, Seq<char>> {
        AttestationModel::decoded(b)
    }

    open spec fn root_of(m: AttestationModel) -> Bytes32 {
        m.root_value()
    }

    fn element_len() -> (r: usize) {
        0
    }

    fn is_packed() -> (r: bool) {
        false
    }

    fn encode_element(&self) -> (r: Vec<u8>) {
        self.encode_ssz()
    }

    fn decode_element(bytes: &[u8], checked: bool) -> (r: Result<Self, String>) {
        Attestation::decode_ssz(bytes)
    }

    fn element_root(&self) -> (r: Bytes32) {
        Bytes32(self.hash_tree_root())
    }

    proof fn lemma_static_len(m: AttestationModel) {
    }

    proof fn lemma_packed_len() {
    }
}

impl SignedAttestation {
    /// The encoding.
    pub open spec fn bytes(self) -> Seq<u8> {
        crate::ssz::u64_bytes(self.validator_id.0) + self.message.bytes() + self.signature@
    }

    /// The value in the first 3248 bytes.
    pub open spec fn read(b: Seq<u8>) -> SignedAttestation {
        SignedAttestation {
            validator_id: Uint64(crate::ssz::u64_at(b, 0)),
            message: AttestationData::read(b.subrange(8, 136)),
            signature: Bytes3112::of(b.subrange(136, 3248)),
        }
    }

    /// The tree root.
    pub open spec fn root_value(self) -> Bytes32 {
        hash::container_root(
            seq![
                hash::number_chunk(self.validator_id.0),
                self.message.root_value(),
                hash::vector_root(self.signature@),
            ],
        )
    }

    /// The encoded length.
    pub fn fixed_len() -> (r: usize)
        ensures
            r == 3248,
    {
        8 + 128 + SIGNATURE_BYTES
    }

    /// A copy of the attestation.
    pub fn duplicate(&self) -> (r: Self)
        ensures
            r == *self,
    {
        SignedAttestation {
            validator_id: self.validator_id,
            message: self.message,
            signature: self.signature,
        }
    }

    /// Encodes the attestation.
    pub fn encode_ssz(&self) -> (r: Vec<u8>)
        ensures
            r@ == self.bytes(),
            r@.len() == 3248,
    {
        let mut out: Vec<u8> = Vec::new();
        crate::ssz::put_u64(&mut out, self.validator_id.0);
        crate::ssz::put_bytes(&mut out, self.message.encode_ssz().as_slice());
        crate::ssz::put_bytes(&mut out, self.signature.as_slice());
        assert(out@ =~= self.bytes());
        out
    }

    /// Decodes the first 3248 bytes.
    pub fn decode_ssz(bytes: &[u8]) -> (r: Result<Self, String>)
        requires
            bytes@.len() >= 3248,
        ensures
            r matches Ok(v) && v == Self::read(bytes@),
    {
        Ok(
            SignedAttestation {
                validator_id: Uint64(crate::ssz::get_u64(bytes, 0)),
                message: AttestationData::take_from(vstd::slice::slice_subrange(bytes, 8, 136)),
                signature: Bytes3112::from_slice(vstd::slice::slice_subrange(bytes, 136, 3248)),
            },
        )
    }

    /// What checked decoding gives.
    pub open spec fn decoded(b: Seq<u8>) -> Result<SignedAttestation, Seq<char>> {
        if b.len() == 3248 {
            Ok(SignedAttestation::read(b))
        } else {
            Err(text::length_mismatch("SignedAttestation"@, 3248, b.len()))
        }
    }

    /// Decodes exactly 3248 bytes.
    pub fn decode_ssz_checked(bytes: &[u8]) -> (r: Result<Self, String>)
        ensures
            crate::ssz::plain_outcome(r) == Self::decoded(bytes@),
    {
        if bytes.len() != 3248 {
            return Err(text::length_mismatch_text("SignedAttestation", 3248, bytes.len()));
        }
        Self::decode_ssz(bytes)
    }

    /// Hashes the attestation.
    pub fn hash_tree_root(&self) -> (r: [u8; 32])
        ensures
            Bytes32(r) == self.root_value(),
    {
        let validator_root = Bytes32(self.validator_id.hash_tree_root());
        let message_root = Bytes32(self.message.hash_tree_root());
        let signature_root = hash::vector_root_of(self.signature.as_slice());
        hash::merkleize_three(&validator_root, &message_root, &signature_root).0
    }

    /// Decoding gives back what was encoded.
    pub proof fn law_roundtrip(self)
        ensures
            SignedAttestation::decoded(self.bytes()) == Ok::<SignedAttestation, Seq<char>>(self),
    {
        let b = self.bytes();
        crate::ssz::lemma_u64_len(self.validator_id.0);
        self.message.law_roundtrip();
        Bytes3112::lemma_of(self.signature);
        assert(b.subrange(0, 8) =~= crate::ssz::u64_bytes(self.validator_id.0));
        assert(b.subrange(8, 136) =~= self.message.bytes());
        assert(b.subrange(136, 3248) =~= self.signature@);
        crate::ssz::lemma_u64_read(b, 0, self.validator_id.0);
    }
}

impl ProofModel {
    /// The encoding: two offsets, the signers, then the proof.
    pub open spec fn bytes(self) -> Seq<u8> {
        crate::ssz::two_fields(bitlist::bitlist_bytes(self.participants), self.proof_data)
    }

    /// What decoding gives.
    pub open spec fn decoded(b: Seq<u8>) -> Result<ProofModel, Seq<char>> {
        if b.len() < 8 {
            Err("AggregatedSignatureProof missing offset table"@)
        } else {
            let off_bits = crate::ssz::offset_at(b, 0);
            let off_proof = crate::ssz::offset_at(b, 4);
            if off_bits > off_proof || off_proof > b.len() {
                Err("AggregatedSignatureProof offsets are invalid"@)
            } else {
                match bitlist::bitlist_from_bytes(
                    b.subrange(off_bits as int, off_proof as int),
                    VALIDATOR_REGISTRY_LIMIT as nat,
                ) {
                    Err(e) => Err(e),
                    Ok(bits) => match ByteList::<PROOF_MAX_BYTES>::decoded(
                        b.subrange(off_proof as int, b.len() as int),
                    ) {
                        Err(e) => Err(e),
                        Ok(proof) => Ok(ProofModel { participants: bits, proof_data: proof }),
                    },
                }
            }
        }
    }

    /// The tree root.
    pub open spec fn root_value(self) -> Bytes32 {
        hash::parent(
            bitlist::bitlist_root(self.participants, VALIDATOR_REGISTRY_LIMIT as nat),
            hash::byte_list_root(self.proof_data, PROOF_MAX_BYTES as nat),
        )
    }

    /// Both parts are within their limits.
    pub open spec fn within_limits(self) -> bool {
        self.participants.len() <= VALIDATOR_REGISTRY_LIMIT && self.proof_data.len()
            <= PROOF_MAX_BYTES
    }

    /// Decoding gives back what was encoded.
    pub proof fn law_roundtrip(self)
        requires
            self.within_limits(),
        ensures
            ProofModel::decoded(self.bytes()) == Ok::<ProofModel, Seq<char>>(self),
    {
        bitlist::lemma_bitlist_roundtrip(self.participants, VALIDATOR_REGISTRY_LIMIT as nat);
        crate::ssz::lemma_two_fields(bitlist::bitlist_bytes(self.participants), self.proof_data);
    }
}

impl AggregatedSignatureProof {
    /// A copy of the proof.
    pub fn duplicate(&self) -> (r: Self)
        ensures
            r@ == self@,
    {
        AggregatedSignatureProof {
            participants: self.participants.duplicate(),
            proof_data: self.proof_data.duplicate(),
        }
    }

    /// Encodes the proof.
    pub fn encode_ssz(&self) -> (r: Vec<u8>)
        ensures
            r@ == self@.bytes(),
    {
        let bits = self.participants.encode_ssz();
        crate::ssz::put_two_fields(bits.as_slice(), self.proof_data.data.as_slice())
    }

    /// Decodes a proof. Input whose offsets do not delimit its fields is refused.
    pub fn decode_ssz(bytes: &[u8]) -> (r: Result<Self, String>)
        ensures
            crate::ssz::view_outcome(r) == ProofModel::decoded(bytes@),
    {
        if bytes.len() < 8 {
            return Err("AggregatedSignatureProof missing offset table".to_string());
        }
        let off_bits: usize = crate::ssz::get_offset(bytes, 0);
        let off_proof: usize = crate::ssz::get_offset(bytes, 4);
        if off_bits > off_proof || off_proof > bytes.len() {
            return Err("AggregatedSignatureProof offsets are invalid".to_string());
        }
        match BitList::decode_ssz(vstd::slice::slice_subrange(bytes, off_bits, off_proof)) {
            Err(e) => Err(e),
            Ok(participants) => match ByteList::decode_ssz(
                vstd::slice::slice_subrange(bytes, off_proof, bytes.len()),
            ) {
                Err(e) => Err(e),
                Ok(proof_data) => Ok(AggregatedSignatureProof { participants, proof_data }),
            },
        }
    }

    /// Hashes the proof.
    pub fn hash_tree_root(&self) -> (r: [u8; 32])
        ensures
            Bytes32(r) == self@.root_value(),
    {
        let bits_root = Bytes32(self.participants.hash_tree_root());
        let proof_root = Bytes32(self.proof_data.hash_tree_root());
        hash::hash_nodes(&bits_root, &proof_root).0
    }
}

impl SszElement for AggregatedSignatureProof {
    type Model = ProofModel;

    open spec fn model(&self) -> ProofModel {
        self@
    }

    open spec fn static_len() -> nat {
        0
    }

    open spec fn packed() -> bool {
        false
    }

    open spec fn encodable(m: ProofModel) -> bool {
        true
    }

    open spec fn to_bytes(m: ProofModel) -> Seq<u8> {
        m.bytes()
    }

    open spec fn from_bytes(b: Seq<u8>, checked: bool) -> Result<ProofModel, Seq<char>> {
        ProofModel::decoded(b)
    }

    open spec fn root_of(m: ProofModel) -> Bytes32 {
        m.root_value()
    }

    fn element_len() -> (r: usize) {
        0
    }

    fn is_packed() -> (r: bool) {
        false
    }

    fn encode_element(&self) -> (r: Vec<u8>) {
        self.encode_ssz()
    }

    fn decode_element(bytes: &[u8], checked: bool) -> (r: Result<Self, String>) {
        AggregatedSignatureProof::decode_ssz(bytes)
    }

    fn element_root(&self) -> (r: Bytes32) {
        Bytes32(self.hash_tree_root())
    }

    proof fn lemma_static_len(m: ProofModel) {
    }

    proof fn lemma_packed_len() {
    }
}

/// The message for an aggregate that is too short.
pub open spec fn short_aggregate_text(len: nat) -> Seq<char> {
    "SignedAggregatedAttestation expects at least "@ + text::decimal(132) + " bytes, got "@
        + text::decimal(len)
}

/// The message for an aggregate whose proof offset is out of range.
pub open spec fn bad_proof_offset_text(off: nat, len: nat) -> Seq<char> {
    "SignedAggregatedAttestation invalid proof offset "@ + text::decimal(off) + " for length "@
        + text::decimal(len)
}

impl SignedAggregateModel {
    /// The encoding: the vote, an offset, then the proof.
    pub open spec fn bytes(self) -> Seq<u8> {
        self.data.bytes() + crate::ssz::offset_bytes(132) + self.proof.bytes()
    }

    /// What decoding gives; checked decoding also refuses a proof inside the fixed part.
    pub open spec fn decoded(b: Seq<u8>, checked: bool) -> Result<SignedAggregateModel, Seq<char>> {
        if b.len() < 132 {
            Err(short_aggregate_text(b.len()))
        } else {
            let off = crate::ssz::offset_at(b, 128);
            if (checked && off < 132) || off > b.len() {
                Err(bad_proof_offset_text(off, b.len()))
            } else {
                match ProofModel::decoded(b.subrange(off as int, b.len() as int)) {
                    Err(e) => Err(e),
                    Ok(proof) => Ok(
                        SignedAggregateModel { data: AttestationData::read(b), proof },
                    ),
                }
            }
        }
    }

    /// The tree root.
    pub open spec fn root_value(self) -> Bytes32 {
        hash::parent(self.data.root_value(), self.proof.root_value())
    }

    /// Decoding gives back what was encoded.
    pub proof fn law_roundtrip(self, checked: bool)
        requires
            self.proof.within_limits(),
        ensures
            SignedAggregateModel::decoded(self.bytes(), checked) == Ok::<
                SignedAggregateModel,
                Seq<char>,
            >(self),
    {
        let b = self.bytes();
        self.data.law_roundtrip();
        self.proof.law_roundtrip();
        crate::ssz::lemma_offset_bytes_mod(132);
        assert(b.subrange(128, 132) =~= crate::ssz::offset_bytes(132));
        crate::ssz::lemma_offset_read(b, 128, 132);
        assert(b.subrange(132, b.len() as int) =~= self.proof.bytes());
        let d = self.data.bytes();
        crate::ssz::lemma_u64_len(self.data.slot.0.0);
        assert(b.subrange(0, 8) =~= crate::ssz::u64_bytes(self.data.slot.0.0));
        crate::ssz::lemma_u64_read(b, 0, self.data.slot.0.0);
        assert(d.subrange(0, 8) =~= b.subrange(0, 8));
        crate::ssz::lemma_u64_read(d, 0, self.data.slot.0.0);
        assert(b.subrange(8, 48) =~= d.subrange(8, 48));
        assert(b.subrange(48, 88) =~= d.subrange(48, 88));
        assert(b.subrange(88, 128) =~= d.subrange(88, 128));
    }
}

impl SignedAggregatedAttestation {
    /// Encodes the aggregate.
    pub fn encode_ssz(&self) -> (r: Vec<u8>)
        ensures
            r@ == self@.bytes(),
    {
        let mut out: Vec<u8> = self.data.encode_ssz();
        crate::ssz::put_offset(&mut out, 132);
        crate::ssz::put_bytes(&mut out, self.proof.encode_ssz().as_slice());
        assert(out@ =~= self@.bytes());
        out
    }

    fn decode_with(bytes: &[u8], checked: bool) -> (r: Result<Self, String>)
        ensures
            crate::ssz::view_outcome(r) == SignedAggregateModel::decoded(bytes@, checked),
    {
        if bytes.len() < 132 {
            let mut s: String = "SignedAggregatedAttestation expects at least ".to_string();
            s.append(text::decimal_string(132).as_str());
            s.append(" bytes, got ");
            s.append(text::decimal_string(bytes.len() as u64).as_str());
            return Err(s);
        }
        let off: usize = crate::ssz::get_offset(bytes, 128);
        if (checked && off < 132) || off > bytes.len() {
            let mut s: String = "SignedAggregatedAttestation invalid proof offset ".to_string();
            s.append(text::decimal_string(off as u64).as_str());
            s.append(" for length ");
            s.append(text::decimal_string(bytes.len() as u64).as_str());
            return Err(s);
        }
        let data = AttestationData::take_from(bytes);
        match AggregatedSignatureProof::decode_ssz(
            vstd::slice::slice_subrange(bytes, off, bytes.len()),
        ) {
            Ok(proof) => Ok(SignedAggregatedAttestation { data, proof }),
            Err(e) => Err(e),
        }
    }

    /// Decodes an aggregate.
    pub fn decode_ssz(bytes: &[u8]) -> (r: Result<Self, String>)
        ensures
            crate::ssz::view_outcome(r) == SignedAggregateModel::decoded(bytes@, false),
    {
        Self::decode_with(bytes, false)
    }

    /// Decodes an aggregate from untrusted bytes.
    pub fn decode_ssz_checked(bytes: &[u8]) -> (r: Result<Self, String>)
        ensures
            crate::ssz::view_outcome(r) == SignedAggregateModel::decoded(bytes@, true),
    {
        Self::decode_with(bytes, true)
    }

    /// Hashes the aggregate.
    pub fn hash_tree_root(&self) -> (r: [u8; 32])
        ensures
            Bytes32(r) == self@.root_value(),
    {
        let data_root = Bytes32(self.data.hash_tree_root());
        let proof_root = Bytes32(self.proof.hash_tree_root());
        hash::hash_nodes(&data_root, &proof_root).0
    }
}

} // verus!
