//! Gossip messages.

use crate::containers::attestation::{
    SignedAggregateModel, SignedAggregatedAttestation, SignedAttestation,
};
use crate::containers::block::{BlockHeader, SignedBlockModel, SignedBlockWithAttestation};
use crate::containers::validator::ValidatorIndex;
use crate::ssz::hash;
use crate::text;
use crate::types::bytes::Bytes32;
use crate::types::uint::Uint64;
use vstd::prelude::*;

verus! {

/// A gossiped block.
#[derive(Clone, Debug, PartialEq, Eq)]
pub struct GossipBlock {
    /// The block.
    pub block: SignedBlockWithAttestation,
}

impl View for GossipBlock {
    type V = SignedBlockModel;

    open spec fn view(&self) -> SignedBlockModel {
        self.block@
    }
}

impl GossipBlock {
    /// Encodes the message.
    pub fn encode_ssz(&self) -> (r: Vec<u8>)
        requires
            self@.encodable(),
        ensures
            r@ == self@.bytes(),
    {
        self.block.encode_ssz()
    }

    /// Decodes the message.
    pub fn decode_ssz(bytes: &[u8]) -> (r: Result<Self, String>)
        ensures
            crate::ssz::view_outcome(r) == SignedBlockModel::decoded(bytes@, false),
    {
        match SignedBlockWithAttestation::decode_ssz(bytes) {
            Ok(block) => Ok(GossipBlock { block }),
            Err(e) => Err(e),
        }
    }

    /// Decodes the message from untrusted bytes.
    pub fn decode_ssz_checked(bytes: &[u8]) -> (r: Result<Self, String>)
        ensures
            crate::ssz::view_outcome(r) == SignedBlockModel::decoded(bytes@, true),
    {
        match SignedBlockWithAttestation::decode_ssz_checked(bytes) {
            Ok(block) => Ok(GossipBlock { block }),
            Err(e) => Err(e),
        }
    }

    /// Hashes the message.
    pub fn hash_tree_root(&self) -> (r: [u8; 32])
        ensures
            Bytes32(r) == self@.root_value(),
    {
        self.block.hash_tree_root()
    }
}

/// A gossiped block header.
#[derive(Clone, Debug, PartialEq, Eq)]
pub struct GossipBlockHeader {
    /// The header.
    pub header: BlockHeader,
}

impl GossipBlockHeader {
    /// Encodes the message.
    pub fn encode_ssz(&self) -> (r: Vec<u8>)
        ensures
            r@ == self.header.bytes(),
    {
        self.header.encode_ssz()
    }

    /// Decodes the first 112 bytes.
    pub fn decode_ssz(bytes: &[u8]) -> (r: Result<Self, String>)
        requires
            bytes@.len() >= 112,
        ensures
            r matches Ok(v) && v.header == BlockHeader::read(bytes@),
    {
        match BlockHeader::decode_ssz(bytes) {
            Ok(header) => Ok(GossipBlockHeader { header }),
            Err(e) => Err(e),
        }
    }

    /// Decodes exactly 112 bytes.
    pub fn decode_ssz_checked(bytes: &[u8]) -> (r: Result<Self, String>)
        ensures
            match r {
                Ok(v) => BlockHeader::decoded(bytes@) == Ok::<BlockHeader, Seq<char>>(v.header),
                Err(e) => BlockHeader::decoded(bytes@) == Err::<BlockHeader, Seq<char>>(e@),
            },
    {
        match BlockHeader::decode_ssz_checked(bytes) {
            Ok(header) => Ok(GossipBlockHeader { header }),
            Err(e) => Err(e),
        }
    }

    /// Hashes the message.
    pub fn hash_tree_root(&self) -> (r: [u8; 32])
        ensures
            Bytes32(r) == self.header.root_value(),
    {
        self.header.hash_tree_root()
    }
}

/// A gossiped vote.
#[derive(Clone, Debug, PartialEq, Eq)]
pub struct GossipAttestation {
    /// The vote.
    pub attestation: SignedAttestation,
}

impl GossipAttestation {
    /// Encodes the message.
    pub fn encode_ssz(&self) -> (r: Vec<u8>)
        ensures
            r@ == self.attestation.bytes(),
    {
        self.attestation.encode_ssz()
    }

    /// Decodes the first 3248 bytes.
    pub fn decode_ssz(bytes: &[u8]) -> (r: Result<Self, String>)
        requires
            bytes@.len() >= 3248,
        ensures
            r matches Ok(v) && v.attestation == SignedAttestation::read(bytes@),
    {
        match SignedAttestation::decode_ssz(bytes) {
            Ok(attestation) => Ok(GossipAttestation { attestation }),
            Err(e) => Err(e),
        }
    }

    /// Decodes exactly 3248 bytes.
    pub fn decode_ssz_checked(bytes: &[u8]) -> (r: Result<Self, String>)
        ensures
            match r {
                Ok(v) => SignedAttestation::decoded(bytes@) == Ok::<SignedAttestation, Seq<char>>(v.attestation),
                Err(e) => SignedAttestation::decoded(bytes@) == Err::<SignedAttestation, Seq<char>>(e@),
            },
    {
        match SignedAttestation::decode_ssz_checked(bytes) {
            Ok(attestation) => Ok(GossipAttestation { attestation }),
            Err(e) => Err(e),
        }
    }

    /// Hashes the message.
    pub fn hash_tree_root(&self) -> (r: [u8; 32])
        ensures
            Bytes32(r) == self.attestation.root_value(),
    {
        self.attestation.hash_tree_root()
    }
}

/// A gossiped vote with an aggregated signature.
#[derive(Clone, Debug, PartialEq, Eq)]
pub struct GossipAggregatedAttestation {
    /// The vote.
    pub attestation: SignedAggregatedAttestation,
}

impl View for GossipAggregatedAttestation {
    type V = SignedAggregateModel;

    open spec fn view(&self) -> SignedAggregateModel {
        self.attestation@
    }
}

impl GossipAggregatedAttestation {
    /// Encodes the message.
    pub fn encode_ssz(&self) -> (r: Vec<u8>)
        ensures
            r@ == self@.bytes(),
    {
        self.attestation.encode_ssz()
    }

    /// Decodes the message.
    pub fn decode_ssz(bytes: &[u8]) -> (r: Result<Self, String>)
        ensures
            crate::ssz::view_outcome(r) == SignedAggregateModel::decoded(bytes@, false),
    {
        match SignedAggregatedAttestation::decode_ssz(bytes) {
            Ok(attestation) => Ok(GossipAggregatedAttestation { attestation }),
            Err(e) => Err(e),
        }
    }

    /// Decodes the message from untrusted bytes.
    pub fn decode_ssz_checked(bytes: &[u8]) -> (r: Result<Self, String>)
        ensures
            crate::ssz::view_outcome(r) == SignedAggregateModel::decoded(bytes@, true),
    {
        match SignedAggregatedAttestation::decode_ssz_checked(bytes) {
            Ok(attestation) => Ok(GossipAggregatedAttestation { attestation }),
            Err(e) => Err(e),
        }
    }

    /// Hashes the message.
    pub fn hash_tree_root(&self) -> (r: [u8; 32])
        ensures
            Bytes32(r) == self@.root_value(),
    {
        self.attestation.hash_tree_root()
    }
}

/// A validator's wish to leave, encoded in 16 bytes.
#[derive(Clone, Copy, Debug, PartialEq, Eq, Hash, Structural)]
pub struct VoluntaryExit {
    /// The validator.
    pub validator_index: ValidatorIndex,
    /// Epoch from which the exit holds.
    pub epoch: Uint64,
}

impl VoluntaryExit {
    /// The encoding.
    pub open spec fn bytes(self) -> Seq<u8> {
        crate::ssz::u64_bytes(self.validator_index.0.0) + crate::ssz::u64_bytes(self.epoch.0)
    }

    /// The value in the first 16 bytes.
    pub open spec fn read(b: Seq<u8>) -> VoluntaryExit {
        VoluntaryExit {
            validator_index: ValidatorIndex(Uint64(crate::ssz::u64_at(b, 0))),
            epoch: Uint64(crate::ssz::u64_at(b, 8)),
        }
    }

    /// The tree root.
    pub open spec fn root_value(self) -> Bytes32 {
        hash::parent(hash::number_chunk(self.validator_index.0.0), hash::number_chunk(self.epoch.0))
    }

    /// The encoded length.
    pub fn fixed_len() -> (r: usize)
        ensures
            r == 16,
    {
        16
    }

    /// Encodes the value.
    pub fn encode_ssz(&self) -> (r: Vec<u8>)
        ensures
            r@ == self.bytes(),
            r@.len() == 16,
    {
        let mut out: Vec<u8> = Vec::new();
        crate::ssz::put_u64(&mut out, self.validator_index.0.0);
        crate::ssz::put_u64(&mut out, self.epoch.0);
        assert(out@ =~= self.bytes());
        out
    }

    /// Decodes the first 16 bytes.
    pub fn decode_ssz(bytes: &[u8]) -> (r: Result<Self, String>)
        requires
            bytes@.len() >= 16,
        ensures
            r matches Ok(v) && v == Self::read(bytes@),
    {
        Ok(
            VoluntaryExit {
                validator_index: ValidatorIndex(Uint64(crate::ssz::get_u64(bytes, 0))),
                epoch: Uint64(crate::ssz::get_u64(bytes, 8)),
            },
        )
    }

    /// What checked decoding gives.
    pub open spec fn decoded(b: Seq<u8>) -> Result<VoluntaryExit, Seq<char>> {
        if b.len() == 16 {
            Ok(VoluntaryExit::read(b))
        } else {
            Err(text::length_mismatch("VoluntaryExit"@, 16, b.len()))
        }
    }

    /// Decodes exactly 16 bytes.
    pub fn decode_ssz_checked(bytes: &[u8]) -> (r: Result<Self, String>)
        ensures
            crate::ssz::plain_outcome(r) == Self::decoded(bytes@),
    {
        if bytes.len() != 16 {
            return Err(text::length_mismatch_text("VoluntaryExit", 16, bytes.len()));
        }
        Self::decode_ssz(bytes)
    }

    /// Hashes the value.
    pub fn hash_tree_root(&self) -> (r: [u8; 32])
        ensures
            Bytes32(r) == self.root_value(),
    {
        hash::hash_nodes(&Bytes32(self.validator_index.hash_tree_root()), &Bytes32(self.epoch.hash_tree_root())).0
    }

    /// Decoding gives back what was encoded.
    pub proof fn law_roundtrip(self)
        ensures
            self.bytes().len() == 16,
            VoluntaryExit::decoded(self.bytes()) == Ok::<VoluntaryExit, Seq<char>>(self),
    {
        let b = self.bytes();
        crate::ssz::lemma_u64_len(self.validator_index.0.0);
        crate::ssz::lemma_u64_len(self.epoch.0);
        assert(b.subrange(0, 8) =~= crate::ssz::u64_bytes(self.validator_index.0.0));
        crate::ssz::lemma_u64_read(b, 0, self.validator_index.0.0);
        assert(b.subrange(8, 16) =~= crate::ssz::u64_bytes(self.epoch.0));
        crate::ssz::lemma_u64_read(b, 8, self.epoch.0);
    }
}

} // verus!
