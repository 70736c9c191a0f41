//! Blocks, their headers and their signatures.

use crate::containers::attestation::{
    AggregatedSignatureProof, Attestation, AttestationData, AttestationModel, ProofModel,
    VALIDATOR_REGISTRY_LIMIT,
};
use crate::containers::validator::ValidatorIndex;
use crate::slot::Slot;
use crate::ssz::hash;
use crate::ssz::SszElement;
use crate::text;
use crate::types::bitlist::BitList;
use crate::types::bytes::{Bytes3112, Bytes32};
use crate::types::collections::SszList;
use crate::types::uint::Uint64;
use vstd::prelude::*;
use vstd::string::StringExecFns;

verus! {

/// Most attestations in one block body.
pub const ATTESTATIONS_LIMIT: usize = 4_096;

/// The attestations of a block body.
pub type Attestations = SszList<Attestation, ATTESTATIONS_LIMIT>;

/// The aggregated signatures of a block, one for each attestation.
pub type AttestationSignatures = SszList<AggregatedSignatureProof, ATTESTATIONS_LIMIT>;

/// A block without its body: the body is represented by its root.
///
/// The encoding has 112 bytes: `slot` (8), `proposer_index` (8), `parent_root` (32),
/// `state_root` (32), `body_root` (32).
#[derive(Clone, Copy, Debug, PartialEq, Eq, Hash)]
pub struct BlockHeader {
    /// Slot of the block.
    pub slot: Slot,
    /// Proposer of the block.
    pub proposer_index: ValidatorIndex,
    /// Root of the parent block.
    pub parent_root: Bytes32,
    /// Root of the state behind the block; zero while the block is being applied.
    pub state_root: Bytes32,
    /// Root of the block body.
    pub body_root: Bytes32,
}

/// The contents of a block.
#[derive(Clone, Debug, PartialEq, Eq)]
pub struct BlockBody {
    /// Votes that the block carries.
    pub attestations: Attestations,
}

/// A block.
#[derive(Clone, Debug, PartialEq, Eq)]
pub struct Block {
    /// Slot of the block.
    pub slot: Slot,
    /// Proposer of the block.
    pub proposer_index: ValidatorIndex,
    /// Root of the parent block.
    pub parent_root: Bytes32,
    /// Root of the state behind the block.
    pub state_root: Bytes32,
    /// Contents of the block.
    pub body: BlockBody,
}

/// A block with the vote of its proposer.
#[derive(Clone, Debug, PartialEq, Eq)]
pub struct BlockWithAttestation {
    /// The block.
    pub block: Block,
    /// The proposer's vote; it has exactly one voter.
    pub proposer_attestation: Attestation,
}

/// The signatures of a block.
#[derive(Clone, Debug, PartialEq, Eq)]
pub struct BlockSignatures {
    /// One aggregated signature for each attestation of the body.
    pub attestation_signatures: AttestationSignatures,
    /// The proposer's signature.
    pub proposer_signature: Bytes3112,
}

/// A block, the proposer's vote, and the signatures.
#[derive(Clone, Debug, PartialEq, Eq)]
pub struct SignedBlockWithAttestation {
    /// The block with the proposer's vote.
    pub message: BlockWithAttestation,
    /// The signatures.
    pub signature: BlockSignatures,
}

/// A block with the aggregated signatures of its attestations.
#[derive(Clone, Debug, PartialEq, Eq)]
pub struct BlockWithSignatures {
    /// The block.
    pub block: Block,
    /// One aggregated signature for each attestation of the body.
    pub signatures: AttestationSignatures,
}

/// The value of a [`Block`].
#[verifier::ext_equal]
pub struct BlockModel {
    pub slot: Slot,
    pub proposer_index: ValidatorIndex,
    pub parent_root: Bytes32,
    pub state_root: Bytes32,
    pub attestations: Seq<AttestationModel>,
}

/// The value of a [`BlockWithAttestation`].
#[verifier::ext_equal]
pub struct ProposalModel {
    pub block: BlockModel,
    pub proposer_attestation: AttestationModel,
}

/// The value of [`BlockSignatures`].
#[verifier::ext_equal]
pub struct SignaturesModel {
    pub attestation_signatures: Seq<ProofModel>,
    pub proposer_signature: Bytes3112,
}

/// The value of a [`SignedBlockWithAttestation`].
#[verifier::ext_equal]
pub struct SignedBlockModel {
    pub message: ProposalModel,
    pub signature: SignaturesModel,
}

/// The value of a [`BlockWithSignatures`].
#[verifier::ext_equal]
pub struct BlockWithSignaturesModel {
    pub block: BlockModel,
    pub signatures: Seq<ProofModel>,
}

impl View for BlockBody {
    type V = Seq<AttestationModel>;

    open spec fn view(&self) -> Seq<AttestationModel> {
        self.attestations@
    }
}

impl View for Block {
    type V = BlockModel;

    open spec fn view(&self) -> BlockModel {
        BlockModel {
            slot: self.slot,
            proposer_index: self.proposer_index,
            parent_root: self.parent_root,
            state_root: self.state_root,
            attestations: self.body@,
        }
    }
}

impl View for BlockWithAttestation {
    type V = ProposalModel;

    open spec fn view(&self) -> ProposalModel {
        ProposalModel { block: self.block@, proposer_attestation: self.proposer_attestation@ }
    }
}

impl View for BlockSignatures {
    type V = SignaturesModel;

    open spec fn view(&self) -> SignaturesModel {
        SignaturesModel {
            attestation_signatures: self.attestation_signatures@,
            proposer_signature: self.proposer_signature,
        }
    }
}

impl View for SignedBlockWithAttestation {
    type V = SignedBlockModel;

    open spec fn view(&self) -> SignedBlockModel {
        SignedBlockModel { message: self.message@, signature: self.signature@ }
    }
}

impl View for BlockWithSignatures {
    type V = BlockWithSignaturesModel;

    open spec fn view(&self) -> BlockWithSignaturesModel {
        BlockWithSignaturesModel { block: self.block@, signatures: self.signatures@ }
    }
}

/// Bit `i` is set and no other bit is.
pub open spec fn is_only_bit(bits: Seq<bool>, i: int) -> bool {
    &&& 0 <= i < bits.len()
    &&& bits[i]
    &&& forall|j: int| 0 <= j < bits.len() && j != i ==> !bits[j]
}

/// The position of the only set bit, if exactly one is set.
pub open spec fn only_bit(bits: Seq<bool>) -> Option<int> {
    if exists|i: int| is_only_bit(bits, i) {
        Some(choose|i: int| is_only_bit(bits, i))
    } else {
        None
    }
}

/// The only set bit is unique.
pub proof fn lemma_only_bit(bits: Seq<bool>, i: int)
    requires
        is_only_bit(bits, i),
    ensures
        only_bit(bits) == Some(i),
{
    let k = choose|k: int| is_only_bit(bits, k);
    assert(is_only_bit(bits, k));
    assert(k == i);
}

/// Finds the only set bit.
pub fn single_set_bit(bits: &BitList<VALIDATOR_REGISTRY_LIMIT>) -> (r: Option<usize>)
    ensures
        match r {
            Some(i) => only_bit(bits@) == Some(i as int) && is_only_bit(bits@, i as int),
            None => only_bit(bits@) is None,
        },
{
    let mut found: Option<usize> = None;
    let len: usize = bits.len();
    let mut i: usize = 0;
    while i < len
        invariant
            i <= len,
            len == bits@.len(),
            match found {
                Some(k) => k < i && bits@[k as int] && forall|j: int|
                    0 <= j < i && j != k ==> !bits@[j],
                None => forall|j: int| 0 <= j < i ==> !bits@[j],
            },
        decreases len - i,
    {
        if bits.is_set(i) {
            if let Some(k) = found {
                proof {
                    assert forall|m: int| !is_only_bit(bits@, m) by {
                        if is_only_bit(bits@, m) {
                            assert(m == k as int || !bits@[k as int]);
                            assert(m == i as int || !bits@[i as int]);
                        }
                    }
                }
                return None;
            }
            found = Some(i);
        }
        i = i + 1;
    }
    proof {
        match found {
            Some(k) => {
                assert(is_only_bit(bits@, k as int));
                lemma_only_bit(bits@, k as int);
            },
            None => {
                assert forall|m: int| !is_only_bit(bits@, m) by {}
            },
        }
    }
    found
}

/// The message for a wrong number of signatures.
pub open spec fn signature_count_text(signatures: nat, attestations: nat) -> Seq<char> {
    "attestation signatures count "@ + text::decimal(signatures)
        + " does not match attestations "@ + text::decimal(attestations)
}

/// What the basic checks of a signed block answer.
pub open spec fn basic_verdict(m: SignedBlockModel) -> Result<(), Seq<char>> {
    let block = m.message.block;
    let vote = m.message.proposer_attestation;
    if m.signature.attestation_signatures.len() != block.attestations.len() {
        Err(
            signature_count_text(
                m.signature.attestation_signatures.len(),
                block.attestations.len(),
            ),
        )
    } else if vote.data.slot != block.slot {
        Err("proposer attestation slot does not match block slot"@)
    } else {
        match only_bit(vote.aggregation_bits) {
            None => Err("proposer attestation must have exactly one participant"@),
            Some(i) => if i != block.proposer_index.0.0 {
                Err("proposer attestation does not match proposer index"@)
            } else {
                Ok(())
            },
        }
    }
}

impl SignedBlockWithAttestation {
    /// Checks what can be checked without a state: one signature for each attestation, and
    /// a proposer vote of the block's slot cast by the proposer alone.
    pub fn validate_basic(&self) -> (r: Result<(), String>)
        ensures
            crate::ssz::plain_outcome(r) == basic_verdict(self@),
    {
        let sig_count: usize = self.signature.attestation_signatures.data.len();
        let att_count: usize = self.message.block.body.attestations.data.len();
        if sig_count != att_count {
            let mut s: String = "attestation signatures count ".to_string();
            s.append(text::decimal_string(sig_count as u64).as_str());
            s.append(" does not match attestations ");
            s.append(text::decimal_string(att_count as u64).as_str());
            return Err(s);
        }
        if self.message.proposer_attestation.data.slot.0.0 != self.message.block.slot.0.0 {
            return Err("proposer attestation slot does not match block slot".to_string());
        }
        match single_set_bit(&self.message.proposer_attestation.aggregation_bits) {
            None => Err("proposer attestation must have exactly one participant".to_string()),
            Some(i) => {
                if i as u64 != self.message.block.proposer_index.0.0 {
                    return Err("proposer attestation does not match proposer index".to_string());
                }
                Ok(())
            },
        }
    }
}

impl BlockHeader {
    /// The encoding.
    pub open spec fn bytes(self) -> Seq<u8> {
        crate::ssz::u64_bytes(self.slot.0.0) + crate::ssz::u64_bytes(self.proposer_index.0.0)
            + self.parent_root@ + self.state_root@ + self.body_root@
    }

    /// The value in the first 112 bytes.
    pub open spec fn read(b: Seq<u8>) -> BlockHeader {
        BlockHeader {
            slot: Slot(Uint64(crate::ssz::u64_at(b, 0))),
            proposer_index: ValidatorIndex(Uint64(crate::ssz::u64_at(b, 8))),
            parent_root: Bytes32::of(b.subrange(16, 48)),
            state_root: Bytes32::of(b.subrange(48, 80)),
            body_root: Bytes32::of(b.subrange(80, 112)),
        }
    }

    /// The tree root.
    pub open spec fn root_value(self) -> Bytes32 {
        hash::container_root(
            seq![
                hash::number_chunk(self.slot.0.0),
                hash::number_chunk(self.proposer_index.0.0),
                self.parent_root,
                self.state_root,
                self.body_root,
            ],
        )
    }

    /// The encoded length.
    pub fn fixed_len() -> (r: usize)
        ensures
            r == 112,
    {
        112
    }

    /// Encodes the header.
    pub fn encode_ssz(&self) -> (r: Vec<u8>)
        ensures
            r@ == self.bytes(),
            r@.len() == 112,
    {
        let mut out: Vec<u8> = Vec::with_capacity(112);
        crate::ssz::put_u64(&mut out, self.slot.0.0);
        crate::ssz::put_u64(&mut out, self.proposer_index.0.0);
        crate::ssz::put_bytes(&mut out, self.parent_root.as_slice());
        crate::ssz::put_bytes(&mut out, self.state_root.as_slice());
        crate::ssz::put_bytes(&mut out, self.body_root.as_slice());
        assert(out@ =~= self.bytes());
        out
    }

    /// Reads the first 112 bytes.
    pub fn take_from(bytes: &[u8]) -> (r: Self)
        requires
            bytes@.len() >= 112,
        ensures
            r == Self::read(bytes@),
    {
        BlockHeader {
            slot: Slot(Uint64(crate::ssz::get_u64(bytes, 0))),
            proposer_index: ValidatorIndex(Uint64(crate::ssz::get_u64(bytes, 8))),
            parent_root: Bytes32::from_slice(vstd::slice::slice_subrange(bytes, 16, 48)),
            state_root: Bytes32::from_slice(vstd::slice::slice_subrange(bytes, 48, 80)),
            body_root: Bytes32::from_slice(vstd::slice::slice_subrange(bytes, 80, 112)),
        }
    }

    /// Decodes the first 112 bytes.
    pub fn decode_ssz(bytes: &[u8]) -> (r: Result<Self, String>)
        requires
            bytes@.len() >= 112,
        ensures
            r matches Ok(v) && v == Self::read(bytes@),
    {
        Ok(Self::take_from(bytes))
    }

    /// What checked decoding gives.
    pub open spec fn decoded(b: Seq<u8>) -> Result<BlockHeader, Seq<char>> {
        if b.len() == 112 {
            Ok(BlockHeader::read(b))
        } else {
            Err(text::length_mismatch("BlockHeader"@, 112, b.len()))
        }
    }

    /// Decodes exactly 112 bytes.
    pub fn decode_ssz_checked(bytes: &[u8]) -> (r: Result<Self, String>)
        ensures
            crate::ssz::plain_outcome(r) == Self::decoded(bytes@),
    {
        if bytes.len() != 112 {
            return Err(text::length_mismatch_text("BlockHeader", 112, bytes.len()));
        }
        Self::decode_ssz(bytes)
    }

    /// Hashes the header.
    pub fn hash_tree_root(&self) -> (r: [u8; 32])
        ensures
            Bytes32(r) == self.root_value(),
    {
        let slot_root = Bytes32(self.slot.hash_tree_root());
        let proposer_root = Bytes32(self.proposer_index.hash_tree_root());
        hash::merkleize_five(
            &slot_root,
            &proposer_root,
            &self.parent_root,
            &self.state_root,
            &self.body_root,
        ).0
    }

    /// Decoding gives back what was encoded.
    pub proof fn law_roundtrip(self)
        ensures
            self.bytes().len() == 112,
            BlockHeader::read(self.bytes()) == self,
            BlockHeader::decoded(self.bytes()) == Ok::<BlockHeader, Seq<char>>(self),
    {
        let b = self.bytes();
        crate::ssz::lemma_u64_len(self.slot.0.0);
        crate::ssz::lemma_u64_len(self.proposer_index.0.0);
        Bytes32::lemma_of(self.parent_root);
        Bytes32::lemma_of(self.state_root);
        Bytes32::lemma_of(self.body_root);
        assert(b.subrange(0, 8) =~= crate::ssz::u64_bytes(self.slot.0.0));
        assert(b.subrange(8, 16) =~= crate::ssz::u64_bytes(self.proposer_index.0.0));
        assert(b.subrange(16, 48) =~= self.parent_root@);
        assert(b.subrange(48, 80) =~= self.state_root@);
        assert(b.subrange(80, 112) =~= self.body_root@);
        crate::ssz::lemma_u64_read(b, 0, self.slot.0.0);
        crate::ssz::lemma_u64_read(b, 8, self.proposer_index.0.0);
    }
}

/// The encoding of a block body: an offset, then the attestations.
pub open spec fn body_bytes(attestations: Seq<AttestationModel>) -> Seq<u8> {
    crate::ssz::offset_bytes(4) + crate::ssz::list_bytes::<Attestation>(attestations)
}

/// What decoding a block body gives; checked decoding wants the offset to be exact.
pub open spec fn body_decoded(b: Seq<u8>, checked: bool) -> Result<
    Seq<AttestationModel>,
    Seq<char>,
> {
    if b.len() < 4 {
        Err("BlockBody missing offset table"@)
    } else {
        let offset = crate::ssz::offset_at(b, 0);
        if (checked && offset != 4) || offset > b.len() {
            Err("BlockBody offset is invalid"@)
        } else {
            crate::ssz::list_from_bytes::<Attestation>(
                b.subrange(offset as int, b.len() as int),
                ATTESTATIONS_LIMIT as nat,
                checked,
            )
        }
    }
}

/// The tree root of a block body.
pub open spec fn body_root(attestations: Seq<AttestationModel>) -> Bytes32 {
    crate::ssz::list_root::<Attestation>(attestations, ATTESTATIONS_LIMIT as nat)
}

/// A body within the limits of its lists.
pub open spec fn body_within_limits(attestations: Seq<AttestationModel>) -> bool {
    &&& attestations.len() <= ATTESTATIONS_LIMIT
    &&& forall|i: int|
        0 <= i < attestations.len() ==> (#[trigger] attestations[i]).aggregation_bits.len()
            <= VALIDATOR_REGISTRY_LIMIT
}

/// A block body decodes from its encoding.
pub proof fn law_body_roundtrip(attestations: Seq<AttestationModel>, checked: bool)
    requires
        body_within_limits(attestations),
        body_bytes(attestations).len() < crate::ssz::offset_modulus(),
    ensures
        body_decoded(body_bytes(attestations), checked) == Ok::<Seq<AttestationModel>, Seq<char>>(
            attestations,
        ),
{
    let b = body_bytes(attestations);
    let list = crate::ssz::list_bytes::<Attestation>(attestations);
    crate::ssz::lemma_offset_bytes_mod(4);
    assert(b.subrange(0, 4) =~= crate::ssz::offset_bytes(4));
    crate::ssz::lemma_offset_read(b, 0, 4);
    assert(b.subrange(4, b.len() as int) =~= list);
    assert forall|i: int| 0 <= i < attestations.len() implies Attestation::from_bytes(
        Attestation::to_bytes(#[trigger] attestations[i]),
        checked,
    ) == Ok::<AttestationModel, Seq<char>>(attestations[i]) by {
        attestations[i].law_roundtrip();
    }
    crate::ssz::lemma_list_roundtrip::<Attestation>(
        attestations,
        ATTESTATIONS_LIMIT as nat,
        checked,
    );
}

impl BlockBody {
    /// A copy of the body.
    pub fn duplicate(&self) -> (r: Self)
        ensures
            r@ == self@,
    {
        let mut data: Vec<Attestation> = Vec::new();
        let n: usize = self.attestations.data.len();
        let mut i: usize = 0;
        while i < n
            invariant
                i <= n,
                n == self.attestations.data@.len(),
                data@.len() == i,
                forall|k: int| 0 <= k < i ==> data@[k]@ == self.attestations.data@[k]@,
            decreases n - i,
        {
            data.push(self.attestations.data[i].duplicate());
            i = i + 1;
        }
        let r = BlockBody { attestations: SszList { data } };
        assert(r@ =~= self@);
        r
    }

    /// Encodes the body.
    pub fn encode_ssz(&self) -> (r: Vec<u8>)
        ensures
            r@ == body_bytes(self@),
    {
        let mut out: Vec<u8> = Vec::new();
        crate::ssz::put_offset(&mut out, 4);
        crate::ssz::put_bytes(&mut out, self.attestations.encode_ssz().as_slice());
        assert(out@ =~= body_bytes(self@));
        out
    }

    fn decode_with(bytes: &[u8], checked: bool) -> (r: Result<Self, String>)
        ensures
            crate::ssz::view_outcome(r) == body_decoded(bytes@, checked),
    {
        if bytes.len() < 4 {
            return Err("BlockBody missing offset table".to_string());
        }
        let offset: usize = crate::ssz::get_offset(bytes, 0);
        if (checked && offset != 4) || offset > bytes.len() {
            return Err("BlockBody offset is invalid".to_string());
        }
        let rest = vstd::slice::slice_subrange(bytes, offset, bytes.len());
        let list = if checked {
            Attestations::decode_ssz_checked(rest)
        } else {
            Attestations::decode_ssz(rest)
        };
        match list {
            Ok(attestations) => Ok(BlockBody { attestations }),
            Err(e) => Err(e),
        }
    }

    /// Decodes a body.
    pub fn decode_ssz(bytes: &[u8]) -> (r: Result<Self, String>)
        ensures
            crate::ssz::view_outcome(r) == body_decoded(bytes@, false),
    {
        Self::decode_with(bytes, false)
    }

    /// Decodes a body from untrusted bytes.
    pub fn decode_ssz_checked(bytes: &[u8]) -> (r: Result<Self, String>)
        ensures
            crate::ssz::view_outcome(r) == body_decoded(bytes@, true),
    {
        Self::decode_with(bytes, true)
    }

    /// Hashes the body.
    pub fn hash_tree_root(&self) -> (r: [u8; 32])
        ensures
            Bytes32(r) == body_root(self@),
    {
        self.attestations.hash_tree_root()
    }
}

impl BlockModel {
    /// The fixed part of the encoding.
    pub open spec fn fixed_bytes(self) -> Seq<u8> {
        crate::ssz::u64_bytes(self.slot.0.0) + crate::ssz::u64_bytes(self.proposer_index.0.0)
            + self.parent_root@ + self.state_root@ + crate::ssz::offset_bytes(84)
    }

    /// The encoding.
    pub open spec fn bytes(self) -> Seq<u8> {
        self.fixed_bytes() + body_bytes(self.attestations)
    }

    /// What decoding gives; checked decoding wants the offsets to be exact.
    pub open spec fn decoded(b: Seq<u8>, checked: bool) -> Result<BlockModel, Seq<char>> {
        if b.len() < 84 {
            Err("Block missing offset table"@)
        } else {
            let offset = crate::ssz::offset_at(b, 80);
            if (checked && offset != 84) || offset > b.len() {
                Err("Block offset is invalid"@)
            } else {
                match body_decoded(b.subrange(offset as int, b.len() as int), checked) {
                    Err(e) => Err(e),
                    Ok(attestations) => Ok(
                        BlockModel {
                            slot: Slot(Uint64(crate::ssz::u64_at(b, 0))),
                            proposer_index: ValidatorIndex(Uint64(crate::ssz::u64_at(b, 8))),
                            parent_root: Bytes32::of(b.subrange(16, 48)),
                            state_root: Bytes32::of(b.subrange(48, 80)),
                            attestations,
                        },
                    ),
                }
            }
        }
    }

    /// The header of the block.
    pub open spec fn header(self) -> BlockHeader {
        BlockHeader {
            slot: self.slot,
            proposer_index: self.proposer_index,
            parent_root: self.parent_root,
            state_root: self.state_root,
            body_root: body_root(self.attestations),
        }
    }

    /// The tree root.
    pub open spec fn root_value(self) -> Bytes32 {
        hash::container_root(
            seq![
                hash::number_chunk(self.slot.0.0),
                hash::number_chunk(self.proposer_index.0.0),
                self.parent_root,
                self.state_root,
                body_root(self.attestations),
            ],
        )
    }

    /// A block and its header have the same root.
    pub proof fn law_header_identifies_block(self)
        ensures
            self.header().root_value() == self.root_value(),
    {
    }

    /// Decoding gives back what was encoded.
    pub proof fn law_roundtrip(self, checked: bool)
        requires
            body_within_limits(self.attestations),
            self.bytes().len() < crate::ssz::offset_modulus(),
        ensures
            BlockModel::decoded(self.bytes(), checked) == Ok::<BlockModel, Seq<char>>(self),
    {
        let b = self.bytes();
        crate::ssz::lemma_u64_len(self.slot.0.0);
        crate::ssz::lemma_u64_len(self.proposer_index.0.0);
        Bytes32::lemma_of(self.parent_root);
        Bytes32::lemma_of(self.state_root);
        crate::ssz::lemma_offset_bytes_mod(84);
        assert(b.subrange(0, 8) =~= crate::ssz::u64_bytes(self.slot.0.0));
        assert(b.subrange(8, 16) =~= crate::ssz::u64_bytes(self.proposer_index.0.0));
        assert(b.subrange(16, 48) =~= self.parent_root@);
        assert(b.subrange(48, 80) =~= self.state_root@);
        assert(b.subrange(80, 84) =~= crate::ssz::offset_bytes(84));
        assert(b.subrange(84, b.len() as int) =~= body_bytes(self.attestations));
        crate::ssz::lemma_u64_read(b, 0, self.slot.0.0);
        crate::ssz::lemma_u64_read(b, 8, self.proposer_index.0.0);
        crate::ssz::lemma_offset_read(b, 80, 84);
        law_body_roundtrip(self.attestations, checked);
    }
}

impl Block {
    /// A copy of the block.
    pub fn duplicate(&self) -> (r: Self)
        ensures
            r@ == self@,
    {
        Block {
            slot: self.slot,
            proposer_index: self.proposer_index,
            parent_root: self.parent_root,
            state_root: self.state_root,
            body: self.body.duplicate(),
        }
    }

    /// Encodes the block.
    pub fn encode_ssz(&self) -> (r: Vec<u8>)
        ensures
            r@ == self@.bytes(),
    {
        let mut out: Vec<u8> = Vec::new();
        crate::ssz::put_u64(&mut out, self.slot.0.0);
        crate::ssz::put_u64(&mut out, self.proposer_index.0.0);
        crate::ssz::put_bytes(&mut out, self.parent_root.as_slice());
        crate::ssz::put_bytes(&mut out, self.state_root.as_slice());
        crate::ssz::put_offset(&mut out, 84);
        crate::ssz::put_bytes(&mut out, self.body.encode_ssz().as_slice());
        assert(out@ =~= self@.bytes());
        out
    }

    fn decode_with(bytes: &[u8], checked: bool) -> (r: Result<Self, String>)
        ensures
            crate::ssz::view_outcome(r) == BlockModel::decoded(bytes@, checked),
    {
        if bytes.len() < 84 {
            return Err("Block missing offset table".to_string());
        }
        let slot = Slot(Uint64(crate::ssz::get_u64(bytes, 0)));
        let proposer_index = ValidatorIndex(Uint64(crate::ssz::get_u64(bytes, 8)));
        let parent_root = Bytes32::from_slice(vstd::slice::slice_subrange(bytes, 16, 48));
        let state_root = Bytes32::from_slice(vstd::slice::slice_subrange(bytes, 48, 80));
        let offset: usize = crate::ssz::get_offset(bytes, 80);
        if (checked && offset != 84) || offset > bytes.len() {
            return Err("Block offset is invalid".to_string());
        }
        match BlockBody::decode_with(
            vstd::slice::slice_subrange(bytes, offset, bytes.len()),
            checked,
        ) {
            Ok(body) => Ok(Block { slot, proposer_index, parent_root, state_root, body }),
            Err(e) => Err(e),
        }
    }

    /// Decodes a block.
    pub fn decode_ssz(bytes: &[u8]) -> (r: Result<Self, String>)
        ensures
            crate::ssz::view_outcome(r) == BlockModel::decoded(bytes@, false),
    {
        Self::decode_with(bytes, false)
    }

    /// Decodes a block from untrusted bytes.
    pub fn decode_ssz_checked(bytes: &[u8]) -> (r: Result<Self, String>)
        ensures
            crate::ssz::view_outcome(r) == BlockModel::decoded(bytes@, true),
    {
        Self::decode_with(bytes, true)
    }

    /// The header of the block.
    pub fn header(&self) -> (r: BlockHeader)
        ensures
            r == self@.header(),
    {
        BlockHeader {
            slot: self.slot,
            proposer_index: self.proposer_index,
            parent_root: self.parent_root,
            state_root: self.state_root,
            body_root: Bytes32(self.body.hash_tree_root()),
        }
    }

    /// Hashes the block.
    pub fn hash_tree_root(&self) -> (r: [u8; 32])
        ensures
            Bytes32(r) == self@.root_value(),
    {
        let slot_root = Bytes32(self.slot.hash_tree_root());
        let proposer_root = Bytes32(self.proposer_index.hash_tree_root());
        let body = Bytes32(self.body.hash_tree_root());
        hash::merkleize_five(
            &slot_root,
            &proposer_root,
            &self.parent_root,
            &self.state_root,
            &body,
        ).0
    }
}

/// The voters of an attestation that validator `index` cast alone.
pub open spec fn lone_voter(index: nat) -> Seq<bool> {
    Seq::new(index + 1, |i: int| i == index)
}

/// The message for a proposer outside the registry.
pub open spec fn proposer_limit_text(index: nat) -> Seq<char> {
    "proposer validator index "@ + text::decimal(index) + " exceeds registry limit "@
        + text::decimal(VALIDATOR_REGISTRY_LIMIT as nat)
}

/// What rebuilding the proposer's vote gives.
pub open spec fn lone_vote(index: u64, data: AttestationData) -> Result<
    AttestationModel,
    Seq<char>,
> {
    if index >= VALIDATOR_REGISTRY_LIMIT {
        Err(proposer_limit_text(index as nat))
    } else {
        Ok(AttestationModel { aggregation_bits: lone_voter(index as nat), data })
    }
}

/// Rebuilds the proposer's vote from the proposer's index.
pub fn proposer_attestation_from_ream_parts(validator_id: u64, data: AttestationData) -> (r: Result<
    Attestation,
    String,
>)
    ensures
        crate::ssz::view_outcome(r) == lone_vote(validator_id, data),
{
    if validator_id >= VALIDATOR_REGISTRY_LIMIT as u64 {
        let mut s: String = "proposer validator index ".to_string();
        s.append(text::decimal_string(validator_id).as_str());
        s.append(" exceeds registry limit ");
        s.append(text::decimal_string(VALIDATOR_REGISTRY_LIMIT as u64).as_str());
        return Err(s);
    }
    let index: usize = validator_id as usize;
    let bits = lone_voter_bits(index);
    Ok(Attestation { aggregation_bits: BitList { bits }, data })
}

/// `index` clear bits, then a set one.
pub fn lone_voter_bits(index: usize) -> (r: Vec<bool>)
    requires
        index < VALIDATOR_REGISTRY_LIMIT,
    ensures
        r@ == lone_voter(index as nat),
{
    let mut bits: Vec<bool> = Vec::new();
    let mut i: usize = 0;
    while i < index
        invariant
            i <= index,
            bits@ == Seq::new(i as nat, |k: int| false),
        decreases index - i,
    {
        bits.push(false);
        assert(bits@ =~= Seq::new((i + 1) as nat, |k: int| false));
        i = i + 1;
    }
    bits.push(true);
    assert(bits@ =~= lone_voter(index as nat));
    bits
}

/// A lone voter is the only voter.
pub proof fn lemma_lone_voter(index: nat)
    ensures
        is_only_bit(lone_voter(index), index as int),
        only_bit(lone_voter(index)) == Some(index as int),
{
    assert(is_only_bit(lone_voter(index), index as int));
    lemma_only_bit(lone_voter(index), index as int);
}

impl ProposalModel {
    /// The encoding: an offset, the proposer's index, the proposer's vote, then the block.
    pub open spec fn bytes(self) -> Seq<u8> {
        crate::ssz::offset_bytes(140) + crate::ssz::u64_bytes(
            only_bit(self.proposer_attestation.aggregation_bits).unwrap() as u64,
        ) + self.proposer_attestation.data.bytes() + self.block.bytes()
    }

    /// What decoding the layout with the proposer's index gives.
    pub open spec fn decoded_indexed(b: Seq<u8>, checked: bool) -> Result<
        ProposalModel,
        Seq<char>,
    > {
        if b.len() < 140 {
            Err("BlockWithAttestation (ream) missing fixed section"@)
        } else {
            let off = crate::ssz::offset_at(b, 0);
            if checked && off != 140 {
                Err("BlockWithAttestation (ream) offset is invalid"@)
            } else if off < 140 || off > b.len() {
                Err("BlockWithAttestation (ream) offset is out of bounds"@)
            } else {
                match lone_vote(crate::ssz::u64_at(b, 4), AttestationData::read(b.subrange(12, 140))) {
                    Err(e) => Err(e),
                    Ok(vote) => match BlockModel::decoded(
                        b.subrange(off as int, b.len() as int),
                        checked,
                    ) {
                        Err(e) => Err(e),
                        Ok(block) => Ok(ProposalModel { block, proposer_attestation: vote }),
                    },
                }
            }
        }
    }

    /// True when the two leading offsets announce the layout of two variable fields. Where
    /// the first is that of the layout with an index, the second is no offset.
    pub open spec fn has_two_offsets(b: Seq<u8>, checked: bool) -> bool {
        let first = crate::ssz::offset_at(b, 0);
        &&& if checked {
            first == 8
        } else {
            first != 140
        }
        &&& first <= crate::ssz::offset_at(b, 4) <= b.len()
    }

    /// What decoding gives. Two layouts are understood.
    pub open spec fn decoded(b: Seq<u8>, checked: bool) -> Result<ProposalModel, Seq<char>> {
        if b.len() < 8 {
            Err("BlockWithAttestation missing offset table"@)
        } else if Self::has_two_offsets(b, checked) {
            let off_block = crate::ssz::offset_at(b, 0) as int;
            let off_proposer = crate::ssz::offset_at(b, 4) as int;
            match BlockModel::decoded(b.subrange(off_block, off_proposer), checked) {
                Err(e) => Err(e),
                Ok(block) => match AttestationModel::decoded(
                    b.subrange(off_proposer, b.len() as int),
                ) {
                    Err(e) => Err(e),
                    Ok(vote) => Ok(ProposalModel { block, proposer_attestation: vote }),
                },
            }
        } else {
            Self::decoded_indexed(b, checked)
        }
    }

    /// The tree root.
    pub open spec fn root_value(self) -> Bytes32 {
        hash::parent(self.block.root_value(), self.proposer_attestation.root_value())
    }

    /// The proposer's vote lists its voters no further than the proposer.
    pub open spec fn canonical(self) -> bool {
        &&& body_within_limits(self.block.attestations)
        &&& 0 < self.proposer_attestation.aggregation_bits.len() <= VALIDATOR_REGISTRY_LIMIT
        &&& self.proposer_attestation.aggregation_bits == lone_voter(
            (self.proposer_attestation.aggregation_bits.len() - 1) as nat,
        )
    }

    /// Decoding gives back what was encoded.
    pub proof fn law_roundtrip(self, checked: bool)
        requires
            self.canonical(),
            self.bytes().len() < crate::ssz::offset_modulus(),
        ensures
            ProposalModel::decoded(self.bytes(), checked) == Ok::<ProposalModel, Seq<char>>(self),
    {
        let b = self.bytes();
        let index = (self.proposer_attestation.aggregation_bits.len() - 1) as nat;
        lemma_lone_voter(index);
        let data = self.proposer_attestation.data;
        crate::ssz::lemma_offset_bytes_mod(140);
        crate::ssz::lemma_u64_len(index as u64);
        data.law_roundtrip();
        assert(b.subrange(0, 4) =~= crate::ssz::offset_bytes(140));
        crate::ssz::lemma_offset_read(b, 0, 140);
        assert(b.subrange(4, 12) =~= crate::ssz::u64_bytes(index as u64));
        crate::ssz::lemma_u64_read(b, 4, index as u64);
        assert(b.subrange(12, 140) =~= data.bytes());
        assert(b.subrange(140, b.len() as int) =~= self.block.bytes());
        self.block.law_roundtrip(checked);
    }
}

impl BlockWithAttestation {
    /// A copy of the proposal.
    pub fn duplicate(&self) -> (r: Self)
        ensures
            r@ == self@,
    {
        BlockWithAttestation {
            block: self.block.duplicate(),
            proposer_attestation: self.proposer_attestation.duplicate(),
        }
    }

    /// Encodes the proposal.
    pub fn encode_ssz(&self) -> (r: Vec<u8>)
        requires
            only_bit(self@.proposer_attestation.aggregation_bits) is Some,
        ensures
            r@ == self@.bytes(),
    {
        let index: usize = match single_set_bit(&self.proposer_attestation.aggregation_bits) {
            Some(i) => i,
            None => 0,
        };
        let mut out: Vec<u8> = Vec::new();
        crate::ssz::put_offset(&mut out, 140);
        crate::ssz::put_u64(&mut out, index as u64);
        crate::ssz::put_bytes(&mut out, self.proposer_attestation.data.encode_ssz().as_slice());
        crate::ssz::put_bytes(&mut out, self.block.encode_ssz().as_slice());
        assert(out@ =~= self@.bytes());
        out
    }

    fn decode_with(bytes: &[u8], checked: bool) -> (r: Result<Self, String>)
        ensures
            crate::ssz::view_outcome(r) == ProposalModel::decoded(bytes@, checked),
    {
        if bytes.len() < 8 {
            return Err("BlockWithAttestation missing offset table".to_string());
        }
        let off_block: usize = crate::ssz::get_offset(bytes, 0);
        let off_proposer: usize = crate::ssz::get_offset(bytes, 4);
        let other_layout: bool = if checked {
            off_block != 8
        } else {
            off_block == 140
        };
        if other_layout || off_proposer < off_block || off_proposer > bytes.len() {
            return decode_ream_block_with_attestation(bytes, checked);
        }
        match Block::decode_with(
            vstd::slice::slice_subrange(bytes, off_block, off_proposer),
            checked,
        ) {
            Err(e) => Err(e),
            Ok(block) => match Attestation::decode_ssz(
                vstd::slice::slice_subrange(bytes, off_proposer, bytes.len()),
            ) {
                Err(e) => Err(e),
                Ok(proposer_attestation) => Ok(
                    BlockWithAttestation { block, proposer_attestation },
                ),
            },
        }
    }

    /// Decodes a proposal.
    pub fn decode_ssz(bytes: &[u8]) -> (r: Result<Self, String>)
        ensures
            crate::ssz::view_outcome(r) == ProposalModel::decoded(bytes@, false),
    {
        Self::decode_with(bytes, false)
    }

    /// Decodes a proposal from untrusted bytes.
    pub fn decode_ssz_checked(bytes: &[u8]) -> (r: Result<Self, String>)
        ensures
            crate::ssz::view_outcome(r) == ProposalModel::decoded(bytes@, true),
    {
        Self::decode_with(bytes, true)
    }

    /// Hashes the proposal.
    pub fn hash_tree_root(&self) -> (r: [u8; 32])
        ensures
            Bytes32(r) == self@.root_value(),
    {
        let block_root = Bytes32(self.block.hash_tree_root());
        let proposer_root = Bytes32(self.proposer_attestation.hash_tree_root());
        hash::hash_nodes(&block_root, &proposer_root).0
    }
}

/// Decodes the layout that names the proposer by index.
fn decode_ream_block_with_attestation(bytes: &[u8], checked: bool) -> (r: Result<
    BlockWithAttestation,
    String,
>)
    ensures
        crate::ssz::view_outcome(r) == ProposalModel::decoded_indexed(bytes@, checked),
{
    if bytes.len() < 140 {
        return Err("BlockWithAttestation (ream) missing fixed section".to_string());
    }
    let off_block: usize = crate::ssz::get_offset(bytes, 0);
    if checked && off_block != 140 {
        return Err("BlockWithAttestation (ream) offset is invalid".to_string());
    }
    if off_block < 140 || off_block > bytes.len() {
        return Err("BlockWithAttestation (ream) offset is out of bounds".to_string());
    }
    let validator_id: u64 = crate::ssz::get_u64(bytes, 4);
    let data = AttestationData::take_from(vstd::slice::slice_subrange(bytes, 12, 140));
    match proposer_attestation_from_ream_parts(validator_id, data) {
        Err(e) => Err(e),
        Ok(proposer_attestation) => match Block::decode_with(
            vstd::slice::slice_subrange(bytes, off_block, bytes.len()),
            checked,
        ) {
            Err(e) => Err(e),
            Ok(block) => Ok(BlockWithAttestation { block, proposer_attestation }),
        },
    }
}

/// A list of signatures within the limits.
pub open spec fn proofs_within_limits(proofs: Seq<ProofModel>) -> bool {
    &&& proofs.len() <= ATTESTATIONS_LIMIT
    &&& forall|i: int| 0 <= i < proofs.len() ==> (#[trigger] proofs[i]).within_limits()
}

/// A list of signatures decodes from its encoding.
pub proof fn lemma_proofs_roundtrip(proofs: Seq<ProofModel>, checked: bool)
    requires
        proofs_within_limits(proofs),
        crate::ssz::list_bytes::<AggregatedSignatureProof>(proofs).len()
            < crate::ssz::offset_modulus(),
    ensures
        crate::ssz::list_from_bytes::<AggregatedSignatureProof>(
            crate::ssz::list_bytes::<AggregatedSignatureProof>(proofs),
            ATTESTATIONS_LIMIT as nat,
            checked,
        ) == Ok::<Seq<ProofModel>, Seq<char>>(proofs),
{
    assert forall|i: int| 0 <= i < proofs.len() implies AggregatedSignatureProof::from_bytes(
        AggregatedSignatureProof::to_bytes(#[trigger] proofs[i]),
        checked,
    ) == Ok::<ProofModel, Seq<char>>(proofs[i]) by {
        proofs[i].law_roundtrip();
    }
    crate::ssz::lemma_list_roundtrip::<AggregatedSignatureProof>(
        proofs,
        ATTESTATIONS_LIMIT as nat,
        checked,
    );
}

/// A copy of a list of signatures.
pub fn duplicate_proofs(list: &AttestationSignatures) -> (r: AttestationSignatures)
    ensures
        r@ == list@,
{
    let mut data: Vec<AggregatedSignatureProof> = Vec::new();
    let n: usize = list.data.len();
    let mut i: usize = 0;
    while i < n
        invariant
            i <= n,
            n == list.data@.len(),
            data@.len() == i,
            forall|k: int| 0 <= k < i ==> data@[k]@ == list.data@[k]@,
        decreases n - i,
    {
        data.push(list.data[i].duplicate());
        i = i + 1;
    }
    let r = SszList { data };
    assert(r@ =~= list@);
    r
}

impl SignaturesModel {
    /// The encoding: an offset, the proposer's signature, then the aggregated ones.
    pub open spec fn bytes(self) -> Seq<u8> {
        crate::ssz::offset_bytes(3116) + self.proposer_signature@ + crate::ssz::list_bytes::<
            AggregatedSignatureProof,
        >(self.attestation_signatures)
    }

    /// What decoding gives; checked decoding wants the offset to be exact.
    pub open spec fn decoded(b: Seq<u8>, checked: bool) -> Result<SignaturesModel, Seq<char>> {
        if b.len() < 3116 {
            Err("BlockSignatures missing offset table"@)
        } else {
            let off = crate::ssz::offset_at(b, 0);
            if (checked && off != 3116) || off > b.len() {
                Err("BlockSignatures offsets are invalid"@)
            } else {
                match crate::ssz::list_from_bytes::<AggregatedSignatureProof>(
                    b.subrange(off as int, b.len() as int),
                    ATTESTATIONS_LIMIT as nat,
                    checked,
                ) {
                    Err(e) => Err(e),
                    Ok(proofs) => Ok(
                        SignaturesModel {
                            attestation_signatures: proofs,
                            proposer_signature: Bytes3112::of(b.subrange(4, 3116)),
                        },
                    ),
                }
            }
        }
    }

    /// The tree root.
    pub open spec fn root_value(self) -> Bytes32 {
        hash::parent(
            crate::ssz::list_root::<AggregatedSignatureProof>(
                self.attestation_signatures,
                ATTESTATIONS_LIMIT as nat,
            ),
            hash::vector_root(self.proposer_signature@),
        )
    }

    /// Decoding gives back what was encoded.
    pub proof fn law_roundtrip(self, checked: bool)
        requires
            proofs_within_limits(self.attestation_signatures),
            self.bytes().len() < crate::ssz::offset_modulus(),
        ensures
            SignaturesModel::decoded(self.bytes(), checked) == Ok::<SignaturesModel, Seq<char>>(self),
    {
        let b = self.bytes();
        crate::ssz::lemma_offset_bytes_mod(3116);
        Bytes3112::lemma_of(self.proposer_signature);
        assert(b.subrange(0, 4) =~= crate::ssz::offset_bytes(3116));
        crate::ssz::lemma_offset_read(b, 0, 3116);
        assert(b.subrange(4, 3116) =~= self.proposer_signature@);
        assert(b.subrange(3116, b.len() as int) =~= crate::ssz::list_bytes::<
            AggregatedSignatureProof,
        >(self.attestation_signatures));
        lemma_proofs_roundtrip(self.attestation_signatures, checked);
    }
}

impl BlockSignatures {
    /// A copy of the signatures.
    pub fn duplicate(&self) -> (r: Self)
        ensures
            r@ == self@,
    {
        BlockSignatures {
            attestation_signatures: duplicate_proofs(&self.attestation_signatures),
            proposer_signature: self.proposer_signature,
        }
    }

    /// Encodes the signatures.
    pub fn encode_ssz(&self) -> (r: Vec<u8>)
        ensures
            r@ == self@.bytes(),
    {
        let mut out: Vec<u8> = Vec::new();
        crate::ssz::put_offset(&mut out, 3116);
        crate::ssz::put_bytes(&mut out, self.proposer_signature.as_slice());
        crate::ssz::put_bytes(&mut out, self.attestation_signatures.encode_ssz().as_slice());
        assert(out@ =~= self@.bytes());
        out
    }

    fn decode_with(bytes: &[u8], checked: bool) -> (r: Result<Self, String>)
        ensures
            crate::ssz::view_outcome(r) == SignaturesModel::decoded(bytes@, checked),
    {
        if bytes.len() < 3116 {
            return Err("BlockSignatures missing offset table".to_string());
        }
        let off: usize = crate::ssz::get_offset(bytes, 0);
        if (checked && off != 3116) || off > bytes.len() {
            return Err("BlockSignatures offsets are invalid".to_string());
        }
        let proposer_signature = Bytes3112::from_slice(
            vstd::slice::slice_subrange(bytes, 4, 3116),
        );
        let rest = vstd::slice::slice_subrange(bytes, off, bytes.len());
        let list = if checked {
            AttestationSignatures::decode_ssz_checked(rest)
        } else {
            AttestationSignatures::decode_ssz(rest)
        };
        match list {
            Ok(attestation_signatures) => Ok(
                BlockSignatures { attestation_signatures, proposer_signature },
            ),
            Err(e) => Err(e),
        }
    }

    /// Decodes the signatures.
    pub fn decode_ssz(bytes: &[u8]) -> (r: Result<Self, String>)
        ensures
            crate::ssz::view_outcome(r) == SignaturesModel::decoded(bytes@, false),
    {
        Self::decode_with(bytes, false)
    }

    /// Decodes the signatures from untrusted bytes.
    pub fn decode_ssz_checked(bytes: &[u8]) -> (r: Result<Self, String>)
        ensures
            crate::ssz::view_outcome(r) == SignaturesModel::decoded(bytes@, true),
    {
        Self::decode_with(bytes, true)
    }

    /// Hashes the signatures.
    pub fn hash_tree_root(&self) -> (r: [u8; 32])
        ensures
            Bytes32(r) == self@.root_value(),
    {
        let sigs_root = Bytes32(self.attestation_signatures.hash_tree_root());
        let proposer_root = hash::vector_root_of(self.proposer_signature.as_slice());
        hash::hash_nodes(&sigs_root, &proposer_root).0
    }
}

impl SignedBlockModel {
    /// The encoding.
    pub open spec fn bytes(self) -> Seq<u8> {
        crate::ssz::two_fields(self.message.bytes(), self.signature.bytes())
    }

    /// What decoding gives; checked decoding wants the first offset to be exact.
    pub open spec fn decoded(b: Seq<u8>, checked: bool) -> Result<SignedBlockModel, Seq<char>> {
        if b.len() < 8 {
            Err("SignedBlockWithAttestation missing offset table"@)
        } else {
            let off_msg = crate::ssz::offset_at(b, 0);
            let off_sig = crate::ssz::offset_at(b, 4);
            if (checked && off_msg != 8) || off_sig < off_msg || off_sig > b.len() {
                Err("SignedBlockWithAttestation offsets are invalid"@)
            } else {
                match ProposalModel::decoded(b.subrange(off_msg as int, off_sig as int), checked) {
                    Err(e) => Err(e),
                    Ok(message) => match SignaturesModel::decoded(
                        b.subrange(off_sig as int, b.len() as int),
                        checked,
                    ) {
                        Err(e) => Err(e),
                        Ok(signature) => Ok(SignedBlockModel { message, signature }),
                    },
                }
            }
        }
    }

    /// The tree root.
    pub open spec fn root_value(self) -> Bytes32 {
        hash::parent(self.message.root_value(), self.signature.root_value())
    }

    /// The block can be encoded: the proposer's vote has exactly one voter.
    pub open spec fn encodable(self) -> bool {
        only_bit(self.message.proposer_attestation.aggregation_bits) is Some
    }

    /// Decoding gives back what was encoded.
    pub proof fn law_roundtrip(self, checked: bool)
        requires
            self.message.canonical(),
            proofs_within_limits(self.signature.attestation_signatures),
            self.bytes().len() < crate::ssz::offset_modulus(),
        ensures
            self.encodable(),
            SignedBlockModel::decoded(self.bytes(), checked) == Ok::<SignedBlockModel, Seq<char>>(
                self,
            ),
    {
        lemma_lone_voter(
            (self.message.proposer_attestation.aggregation_bits.len() - 1) as nat,
        );
        let a = self.message.bytes();
        let s = self.signature.bytes();
        crate::ssz::lemma_offset_bytes_mod(8);
        crate::ssz::lemma_offset_bytes_mod((8 + a.len()) as nat);
        crate::ssz::lemma_two_fields(a, s);
        self.message.law_roundtrip(checked);
        self.signature.law_roundtrip(checked);
    }
}

impl SignedBlockWithAttestation {
    /// A copy of the block.
    pub fn duplicate(&self) -> (r: Self)
        ensures
            r@ == self@,
    {
        SignedBlockWithAttestation {
            message: self.message.duplicate(),
            signature: self.signature.duplicate(),
        }
    }

    /// Encodes the block.
    pub fn encode_ssz(&self) -> (r: Vec<u8>)
        requires
            self@.encodable(),
        ensures
            r@ == self@.bytes(),
    {
        let msg = self.message.encode_ssz();
        let sig = self.signature.encode_ssz();
        crate::ssz::put_two_fields(msg.as_slice(), sig.as_slice())
    }

    fn decode_with(bytes: &[u8], checked: bool) -> (r: Result<Self, String>)
        ensures
            crate::ssz::view_outcome(r) == SignedBlockModel::decoded(bytes@, checked),
    {
        if bytes.len() < 8 {
            return Err("SignedBlockWithAttestation missing offset table".to_string());
        }
        let off_msg: usize = crate::ssz::get_offset(bytes, 0);
        let off_sig: usize = crate::ssz::get_offset(bytes, 4);
        if (checked && off_msg != 8) || off_sig < off_msg || off_sig > bytes.len() {
            return Err("SignedBlockWithAttestation offsets are invalid".to_string());
        }
        match BlockWithAttestation::decode_with(
            vstd::slice::slice_subrange(bytes, off_msg, off_sig),
            checked,
        ) {
            Err(e) => Err(e),
            Ok(message) => match BlockSignatures::decode_with(
                vstd::slice::slice_subrange(bytes, off_sig, bytes.len()),
                checked,
            ) {
                Err(e) => Err(e),
                Ok(signature) => Ok(SignedBlockWithAttestation { message, signature }),
            },
        }
    }

    /// Decodes a signed block.
    pub fn decode_ssz(bytes: &[u8]) -> (r: Result<Self, String>)
        ensures
            crate::ssz::view_outcome(r) == SignedBlockModel::decoded(bytes@, false),
    {
        Self::decode_with(bytes, false)
    }

    /// Decodes a signed block from untrusted bytes.
    pub fn decode_ssz_checked(bytes: &[u8]) -> (r: Result<Self, String>)
        ensures
            crate::ssz::view_outcome(r) == SignedBlockModel::decoded(bytes@, true),
    {
        Self::decode_with(bytes, true)
    }

    /// Hashes the signed block.
    pub fn hash_tree_root(&self) -> (r: [u8; 32])
        ensures
            Bytes32(r) == self@.root_value(),
    {
        let msg_root = Bytes32(self.message.hash_tree_root());
        let sig_root = Bytes32(self.signature.hash_tree_root());
        hash::hash_nodes(&msg_root, &sig_root).0
    }
}

impl SszElement for SignedBlockWithAttestation {
    type Model = SignedBlockModel;

    open spec fn model(&self) -> SignedBlockModel {
        self@
    }

    open spec fn static_len() -> nat {
        0
    }

    open spec fn packed() -> bool {
        false
    }

    open spec fn encodable(m: SignedBlockModel) -> bool {
        m.encodable()
    }

    open spec fn to_bytes(m: SignedBlockModel) -> Seq<u8> {
        m.bytes()
    }

    open spec fn from_bytes(b: Seq<u8>, checked: bool) -> Result<SignedBlockModel, Seq<char>> {
        SignedBlockModel::decoded(b, checked)
    }

    open spec fn root_of(m: SignedBlockModel) -> Bytes32 {
        m.root_value()
    }

    fn element_len() -> (r: usize) {
        0
    }

    fn is_packed() -> (r: bool) {
        false
    }

    fn encode_element(&self) -> (r: Vec<u8>) {
        self.encode_ssz()
    }

    fn decode_element(bytes: &[u8], checked: bool) -> (r: Result<Self, String>) {
        SignedBlockWithAttestation::decode_with(bytes, checked)
    }

    fn element_root(&self) -> (r: Bytes32) {
        Bytes32(self.hash_tree_root())
    }

    proof fn lemma_static_len(m: SignedBlockModel) {
    }

    proof fn lemma_packed_len() {
    }
}

impl BlockWithSignaturesModel {
    /// The encoding.
    pub open spec fn bytes(self) -> Seq<u8> {
        crate::ssz::two_fields(
            self.block.bytes(),
            crate::ssz::list_bytes::<AggregatedSignatureProof>(self.signatures),
        )
    }

    /// What decoding gives; checked decoding wants the first offset to be exact.
    pub open spec fn decoded(b: Seq<u8>, checked: bool) -> Result<
        BlockWithSignaturesModel,
        Seq<char>,
    > {
        if b.len() < 8 {
            Err("BlockWithSignatures missing offset table"@)
        } else {
            let off_block = crate::ssz::offset_at(b, 0);
            let off_sigs = crate::ssz::offset_at(b, 4);
            if (checked && off_block != 8) || off_sigs < off_block || off_sigs > b.len() {
                Err("BlockWithSignatures offsets are invalid"@)
            } else {
                match BlockModel::decoded(b.subrange(off_block as int, off_sigs as int), checked) {
                    Err(e) => Err(e),
                    Ok(block) => match crate::ssz::list_from_bytes::<AggregatedSignatureProof>(
                        b.subrange(off_sigs as int, b.len() as int),
                        ATTESTATIONS_LIMIT as nat,
                        checked,
                    ) {
                        Err(e) => Err(e),
                        Ok(signatures) => Ok(BlockWithSignaturesModel { block, signatures }),
                    },
                }
            }
        }
    }

    /// The tree root.
    pub open spec fn root_value(self) -> Bytes32 {
        hash::parent(
            self.block.root_value(),
            crate::ssz::list_root::<AggregatedSignatureProof>(
                self.signatures,
                ATTESTATIONS_LIMIT as nat,
            ),
        )
    }

    /// Decoding gives back what was encoded.
    pub proof fn law_roundtrip(self, checked: bool)
        requires
            body_within_limits(self.block.attestations),
            proofs_within_limits(self.signatures),
            self.bytes().len() < crate::ssz::offset_modulus(),
        ensures
            BlockWithSignaturesModel::decoded(self.bytes(), checked) == Ok::<
                BlockWithSignaturesModel,
                Seq<char>,
            >(self),
    {
        let a = self.block.bytes();
        let s = crate::ssz::list_bytes::<AggregatedSignatureProof>(self.signatures);
        crate::ssz::lemma_offset_bytes_mod(8);
        crate::ssz::lemma_offset_bytes_mod((8 + a.len()) as nat);
        crate::ssz::lemma_two_fields(a, s);
        self.block.law_roundtrip(checked);
        lemma_proofs_roundtrip(self.signatures, checked);
    }
}

impl BlockWithSignatures {
    /// Encodes the block with its signatures.
    pub fn encode_ssz(&self) -> (r: Vec<u8>)
        ensures
            r@ == self@.bytes(),
    {
        let block = self.block.encode_ssz();
        let sigs = self.signatures.encode_ssz();
        crate::ssz::put_two_fields(block.as_slice(), sigs.as_slice())
    }

    fn decode_with(bytes: &[u8], checked: bool) -> (r: Result<Self, String>)
        ensures
            crate::ssz::view_outcome(r) == BlockWithSignaturesModel::decoded(bytes@, checked),
    {
        if bytes.len() < 8 {
            return Err("BlockWithSignatures missing offset table".to_string());
        }
        let off_block: usize = crate::ssz::get_offset(bytes, 0);
        let off_sigs: usize = crate::ssz::get_offset(bytes, 4);
        if (checked && off_block != 8) || off_sigs < off_block || off_sigs > bytes.len() {
            return Err("BlockWithSignatures offsets are invalid".to_string());
        }
        match Block::decode_with(
            vstd::slice::slice_subrange(bytes, off_block, off_sigs),
            checked,
        ) {
            Err(e) => Err(e),
            Ok(block) => {
                let rest = vstd::slice::slice_subrange(bytes, off_sigs, bytes.len());
                let list = if checked {
                    AttestationSignatures::decode_ssz_checked(rest)
                } else {
                    AttestationSignatures::decode_ssz(rest)
                };
                match list {
                    Err(e) => Err(e),
                    Ok(signatures) => Ok(BlockWithSignatures { block, signatures }),
                }
            },
        }
    }

    /// Decodes a block with its signatures.
    pub fn decode_ssz(bytes: &[u8]) -> (r: Result<Self, String>)
        ensures
            crate::ssz::view_outcome(r) == BlockWithSignaturesModel::decoded(bytes@, false),
    {
        Self::decode_with(bytes, false)
    }

    /// Decodes a block with its signatures from untrusted bytes.
    pub fn decode_ssz_checked(bytes: &[u8]) -> (r: Result<Self, String>)
        ensures
            crate::ssz::view_outcome(r) == BlockWithSignaturesModel::decoded(bytes@, true),
    {
        Self::decode_with(bytes, true)
    }

    /// Hashes the block with its signatures.
    pub fn hash_tree_root(&self) -> (r: [u8; 32])
        ensures
            Bytes32(r) == self@.root_value(),
    {
        let block_root = Bytes32(self.block.hash_tree_root());
        let sigs_root = Bytes32(self.signatures.hash_tree_root());
        hash::hash_nodes(&block_root, &sigs_root).0
    }
}

} // verus!
