//! Checkpoints: a block root with its slot.

use crate::slot::Slot;
use crate::ssz::hash;
use crate::text;
use crate::types::bytes::Bytes32;
use crate::types::uint::Uint64;
use vstd::prelude::*;

verus! {

/// A block root together with its slot.
///
/// The encoding has 40 bytes: `root` (32), `slot` (8).
#[derive(Clone, Copy, Debug, PartialEq, Eq, Hash)]
pub struct Checkpoint {
    /// Root of the block.
    pub root: Bytes32,
    /// Slot of the block.
    pub slot: Slot,
}

impl Checkpoint {
    /// The encoding.
    pub open spec fn bytes(self) -> Seq<u8> {
        self.root@ + crate::ssz::u64_bytes(self.slot.0.0)
    }

    /// The value in the first 40 bytes.
    pub open spec fn read(b: Seq<u8>) -> Checkpoint {
        Checkpoint {
            root: Bytes32::of(b.subrange(0, 32)),
            slot: Slot(Uint64(crate::ssz::u64_at(b, 32))),
        }
    }

    /// The tree root.
    pub open spec fn root_value(self) -> Bytes32 {
        hash::parent(self.root, hash::number_chunk(self.slot.0.0))
    }

    /// The encoded length.
    pub fn fixed_len() -> (r: usize)
        ensures
            r == 40,
    {
        40
    }

    /// Encodes the checkpoint.
    pub fn encode_ssz(&self) -> (r: Vec<u8>)
        ensures
            r@ == self.bytes(),
            r@.len() == 40,
    {
        let mut out: Vec<u8> = Vec::with_capacity(40);
        crate::ssz::put_bytes(&mut out, self.root.as_slice());
        crate::ssz::put_u64(&mut out, self.slot.0.0);
        assert(out@ =~= self.bytes());
        out
    }

    /// Reads the first 40 bytes.
    pub fn take_from(bytes: &[u8]) -> (r: Self)
        requires
            bytes@.len() >= 40,
        ensures
            r == Self::read(bytes@),
    {
        Checkpoint {
            root: Bytes32::from_slice(vstd::slice::slice_subrange(bytes, 0, 32)),
            slot: Slot(Uint64(crate::ssz::get_u64(bytes, 32))),
        }
    }

    /// Decodes the first 40 bytes.
    pub fn decode_ssz(bytes: &[u8]) -> (r: Result<Self, String>)
        requires
            bytes@.len() >= 40,
        ensures
            r matches Ok(v) && v == Self::read(bytes@),
    {
        Ok(Self::take_from(bytes))
    }

    /// Decodes exactly 40 bytes.
    pub fn decode_ssz_checked(bytes: &[u8]) -> (r: Result<Self, String>)
        ensures
            crate::ssz::plain_outcome(r) == (if bytes@.len() == 40 {
                Ok::<Checkpoint, Seq<char>>(Self::read(bytes@))
            } else {
                Err(text::length_mismatch("Checkpoint"@, 40, bytes@.len()))
            }),
    {
        if bytes.len() != 40 {
            return Err(text::length_mismatch_text("Checkpoint", 40, bytes.len()));
        }
        Self::decode_ssz(bytes)
    }

    /// Hashes the checkpoint.
    pub fn hash_tree_root(&self) -> (r: [u8; 32])
        ensures
            Bytes32(r) == self.root_value(),
    {
        let slot_root = Bytes32(self.slot.hash_tree_root());
        hash::hash_nodes(&self.root, &slot_root).0
    }

    /// Decoding gives back what was encoded.
    pub proof fn law_roundtrip(self)
        ensures
            self.bytes().len() == 40,
            Checkpoint::read(self.bytes()) == self,
    {
        let b = self.bytes();
        Bytes32::lemma_of(self.root);
        crate::ssz::lemma_u64_len(self.slot.0.0);
        assert(b.subrange(0, 32) =~= self.root@);
        assert(b.subrange(32, 40) =~= crate::ssz::u64_bytes(self.slot.0.0));
        crate::ssz::lemma_u64_read(b, 32, self.slot.0.0);
    }
}

} // verus!
