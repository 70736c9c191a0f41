//! Validators of the registry.

use crate::slot::Slot;
use crate::ssz::hash;
use crate::ssz::SszElement;
use crate::text;
use crate::types::bytes::{Bytes32, Bytes52};
use crate::types::uint::Uint64;
use vstd::prelude::*;

verus! {

/// A position in the validator registry.
#[derive(Clone, Copy, Debug, PartialEq, Eq, PartialOrd, Ord, Hash, Structural)]
pub struct ValidatorIndex(pub Uint64);

/// A registered validator.
///
/// The encoding has 68 bytes: `pubkey` (52), `index` (8), `balance` (8).
#[derive(Clone, Copy, Debug, PartialEq, Eq, Hash)]
pub struct Validator {
    /// Public key.
    pub pubkey: Bytes52,
    /// Position in the registry.
    pub index: ValidatorIndex,
    /// Balance in Gwei.
    pub balance: Uint64,
}

/// The validator that proposes at `slot` among `count` validators.
pub open spec fn proposes_at(index: ValidatorIndex, slot: Slot, count: u64) -> bool {
    count > 0 && slot.0.0 % count == index.0.0
}

impl ValidatorIndex {
    /// True when the validator proposes at `slot`: slots go round the registry. Nobody
    /// proposes when the registry is empty.
    pub fn is_proposer_for(self, slot: Slot, num_validators: u64) -> (r: bool)
        ensures
            r == proposes_at(self, slot, num_validators),
    {
        if num_validators == 0 {
            return false;
        }
        slot.0.0 % num_validators == self.0.0
    }

    /// What decoding gives.
    pub open spec fn decoded(b: Seq<u8>, name: Seq<char>) -> Result<ValidatorIndex, Seq<char>> {
        if b.len() == 8 {
            Ok(ValidatorIndex(Uint64(crate::ssz::u64_at(b, 0))))
        } else {
            Err(text::length_mismatch(name, 8, b.len()))
        }
    }

    /// The encoded length.
    pub fn fixed_len() -> (r: usize)
        ensures
            r == 8,
    {
        8
    }

    /// Encodes as eight little-endian bytes.
    pub fn encode_ssz(&self) -> (r: Vec<u8>)
        ensures
            r@ == crate::ssz::u64_bytes(self.0.0),
    {
        self.0.encode_ssz()
    }

    /// Decodes exactly eight bytes.
    pub fn decode_ssz(bytes: &[u8]) -> (r: Result<Self, String>)
        ensures
            crate::ssz::plain_outcome(r) == Self::decoded(bytes@, "Uint64"@),
    {
        match Uint64::decode_ssz(bytes) {
            Ok(n) => Ok(ValidatorIndex(n)),
            Err(e) => Err(e),
        }
    }

    /// Decodes exactly eight bytes.
    pub fn decode_ssz_checked(bytes: &[u8]) -> (r: Result<Self, String>)
        ensures
            crate::ssz::plain_outcome(r) == Self::decoded(bytes@, "ValidatorIndex"@),
    {
        if bytes.len() != 8 {
            return Err(text::length_mismatch_text("ValidatorIndex", 8, bytes.len()));
        }
        Self::decode_ssz(bytes)
    }

    /// One chunk holding the index.
    pub fn hash_tree_root(&self) -> (r: [u8; 32])
        ensures
            Bytes32(r) == hash::number_chunk(self.0.0),
    {
        self.0.hash_tree_root()
    }
}

impl Validator {
    /// The encoding.
    pub open spec fn bytes(self) -> Seq<u8> {
        self.pubkey@ + crate::ssz::u64_bytes(self.index.0.0) + crate::ssz::u64_bytes(self.balance.0)
    }

    /// The value in the first 68 bytes.
    pub open spec fn read(b: Seq<u8>) -> Validator {
        Validator {
            pubkey: Bytes52::of(b.subrange(0, 52)),
            index: ValidatorIndex(Uint64(crate::ssz::u64_at(b, 52))),
            balance: Uint64(crate::ssz::u64_at(b, 60)),
        }
    }

    /// The tree root.
    pub open spec fn root_value(self) -> Bytes32 {
        hash::container_root(
            seq![
                hash::vector_root(self.pubkey@),
                hash::number_chunk(self.index.0.0),
                hash::number_chunk(self.balance.0),
            ],
        )
    }

    /// The encoded length.
    pub fn fixed_len() -> (r: usize)
        ensures
            r == 68,
    {
        68
    }

    /// Encodes the validator.
    pub fn encode_ssz(&self) -> (r: Vec<u8>)
        ensures
            r@ == self.bytes(),
            r@.len() == 68,
    {
        let mut out: Vec<u8> = Vec::with_capacity(68);
        crate::ssz::put_bytes(&mut out, self.pubkey.as_slice());
        crate::ssz::put_u64(&mut out, self.index.0.0);
        crate::ssz::put_u64(&mut out, self.balance.0);
        assert(out@ =~= self.bytes());
        out
    }

    /// Decodes the first 68 bytes.
    pub fn decode_ssz(bytes: &[u8]) -> (r: Result<Self, String>)
        requires
            bytes@.len() >= 68,
        ensures
            r matches Ok(v) && v == Self::read(bytes@),
    {
        Ok(
            Validator {
                pubkey: Bytes52::from_slice(vstd::slice::slice_subrange(bytes, 0, 52)),
                index: ValidatorIndex(Uint64(crate::ssz::get_u64(bytes, 52))),
                balance: Uint64(crate::ssz::get_u64(bytes, 60)),
            },
        )
    }

    /// What checked decoding gives.
    pub open spec fn decoded(b: Seq<u8>) -> Result<Validator, Seq<char>> {
        if b.len() == 68 {
            Ok(Validator::read(b))
        } else {
            Err(text::length_mismatch("Validator"@, 68, b.len()))
        }
    }

    /// Decodes exactly 68 bytes.
    pub fn decode_ssz_checked(bytes: &[u8]) -> (r: Result<Self, String>)
        ensures
            crate::ssz::plain_outcome(r) == Self::decoded(bytes@),
    {
        if bytes.len() != 68 {
            return Err(text::length_mismatch_text("Validator", 68, bytes.len()));
        }
        Self::decode_ssz(bytes)
    }

    /// Hashes the validator.
    pub fn hash_tree_root(&self) -> (r: [u8; 32])
        ensures
            Bytes32(r) == self.root_value(),
    {
        let pubkey_root = hash::vector_root_of(self.pubkey.as_slice());
        let index_root = Bytes32(self.index.hash_tree_root());
        let balance_root = Bytes32(self.balance.hash_tree_root());
        hash::merkleize_three(&pubkey_root, &index_root, &balance_root).0
    }

    /// Decoding gives back what was encoded.
    pub proof fn law_roundtrip(self)
        ensures
            self.bytes().len() == 68,
            Validator::read(self.bytes()) == self,
    {
        let b = self.bytes();
        Bytes52::lemma_of(self.pubkey);
        crate::ssz::lemma_u64_len(self.index.0.0);
        crate::ssz::lemma_u64_len(self.balance.0);
        assert(b.subrange(0, 52) =~= self.pubkey@);
        assert(b.subrange(52, 60) =~= crate::ssz::u64_bytes(self.index.0.0));
        assert(b.subrange(60, 68) =~= crate::ssz::u64_bytes(self.balance.0));
        crate::ssz::lemma_u64_read(b, 52, self.index.0.0);
        crate::ssz::lemma_u64_read(b, 60, self.balance.0);
    }
}

impl SszElement for Validator {
    type Model = Validator;

    open spec fn model(&self) -> Validator {
        *self
    }

    open spec fn static_len() -> nat {
        68
    }

    open spec fn packed() -> bool {
        false
    }

    open spec fn encodable(m: Validator) -> bool {
        true
    }

    open spec fn to_bytes(m: Validator) -> Seq<u8> {
        m.bytes()
    }

    open spec fn from_bytes(b: Seq<u8>, checked: bool) -> Result<Validator, Seq<char>> {
        Validator::decoded(b)
    }

    open spec fn root_of(m: Validator) -> Bytes32 {
        m.root_value()
    }

    fn element_len() -> (r: usize) {
        68
    }

    fn is_packed() -> (r: bool) {
        false
    }

    fn encode_element(&self) -> (r: Vec<u8>) {
        self.encode_ssz()
    }

    fn decode_element(bytes: &[u8], checked: bool) -> (r: Result<Self, String>) {
        Validator::decode_ssz_checked(bytes)
    }

    fn element_root(&self) -> (r: Bytes32) {
        Bytes32(self.hash_tree_root())
    }

    proof fn lemma_static_len(m: Validator) {
        m.law_roundtrip();
    }

    proof fn lemma_packed_len() {
    }
}

} // verus!
