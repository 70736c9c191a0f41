//! Unsigned integers of the wire format.

use crate::ssz::SszElement;
use crate::text;
use crate::types::bytes::Bytes32;
use vstd::prelude::*;

verus! {

/// A 64-bit unsigned integer, written to the wire in little-endian order.
#[derive(Clone, Copy, Debug, PartialEq, Eq, PartialOrd, Ord, Hash, Default, Structural)]
pub struct Uint64(pub u64);

impl Uint64 {
    /// What decoding gives.
    pub open spec fn decoded(b: Seq<u8>) -> Result<Uint64, Seq<char>> {
        if b.len() == 8 {
            Ok(Uint64(crate::ssz::u64_at(b, 0)))
        } else {
            Err(text::length_mismatch("Uint64"@, 8, b.len()))
        }
    }

    /// Encodes as eight little-endian bytes.
    pub fn encode_ssz(&self) -> (r: Vec<u8>)
        ensures
            r@ == crate::ssz::u64_bytes(self.0),
    {
        let mut out: Vec<u8> = Vec::new();
        crate::ssz::put_u64(&mut out, self.0);
        assert(out@ =~= crate::ssz::u64_bytes(self.0));
        out
    }

    /// Decodes exactly eight little-endian bytes.
    pub fn decode_ssz(bytes: &[u8]) -> (r: Result<Self, String>)
        ensures
            crate::ssz::plain_outcome(r) == Self::decoded(bytes@),
    {
        if bytes.len() != 8 {
            return Err(text::length_mismatch_text("Uint64", 8, bytes.len()));
        }
        Ok(Uint64(crate::ssz::get_u64(bytes, 0)))
    }

    /// One chunk holding the number.
    pub fn hash_tree_root(&self) -> (r: [u8; 32])
        ensures
            Bytes32(r) == crate::ssz::hash::number_chunk(self.0),
    {
        crate::ssz::hash::number_root(self.0).0
    }
}

impl SszElement for Uint64 {
    type Model = Uint64;

    open spec fn model(&self) -> Uint64 {
        *self
    }

    open spec fn static_len() -> nat {
        8
    }

    open spec fn packed() -> bool {
        true
    }

    open spec fn encodable(m: Uint64) -> bool {
        true
    }

    open spec fn to_bytes(m: Uint64) -> Seq<u8> {
        crate::ssz::u64_bytes(m.0)
    }

    open spec fn from_bytes(b: Seq<u8>, checked: bool) -> Result<Uint64, Seq<char>> {
        Uint64::decoded(b)
    }

    open spec fn root_of(m: Uint64) -> Bytes32 {
        crate::ssz::hash::number_chunk(m.0)
    }

    fn element_len() -> (r: usize) {
        8
    }

    fn is_packed() -> (r: bool) {
        true
    }

    fn encode_element(&self) -> (r: Vec<u8>) {
        self.encode_ssz()
    }

    fn decode_element(bytes: &[u8], checked: bool) -> (r: Result<Self, String>) {
        Uint64::decode_ssz(bytes)
    }

    fn element_root(&self) -> (r: Bytes32) {
        Bytes32(self.hash_tree_root())
    }

    proof fn lemma_static_len(m: Uint64) {
        crate::ssz::lemma_u64_len(m.0);
    }

    proof fn lemma_packed_len() {
    }
}

} // verus!
