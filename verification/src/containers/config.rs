//! Chain configuration.

use crate::ssz::hash;
use crate::text;
use crate::types::bytes::Bytes32;
use crate::types::uint::Uint64;
use vstd::prelude::*;

verus! {

/// Chain configuration, encoded in 8 bytes.
#[derive(Clone, Copy, Debug, PartialEq, Eq, Hash, Structural)]
pub struct Config {
    /// Unix time of genesis, in seconds.
    pub genesis_time: Uint64,
}

impl Config {
    /// The encoding.
    pub open spec fn bytes(self) -> Seq<u8> {
        crate::ssz::u64_bytes(self.genesis_time.0)
    }

    /// What decoding gives.
    pub open spec fn decoded(b: Seq<u8>, name: Seq<char>) -> Result<Config, Seq<char>> {
        if b.len() == 8 {
            Ok(Config { genesis_time: Uint64(crate::ssz::u64_at(b, 0)) })
        } else {
            Err(text::length_mismatch(name, 8, b.len()))
        }
    }

    /// The tree root.
    pub open spec fn root_value(self) -> Bytes32 {
        hash::number_chunk(self.genesis_time.0)
    }

    /// The encoded length.
    pub fn fixed_len() -> (r: usize)
        ensures
            r == 8,
    {
        8
    }

    /// Encodes the configuration.
    pub fn encode_ssz(&self) -> (r: Vec<u8>)
        ensures
            r@ == self.bytes(),
    {
        self.genesis_time.encode_ssz()
    }

    /// Decodes exactly 8 bytes.
    pub fn decode_ssz(bytes: &[u8]) -> (r: Result<Self, String>)
        ensures
            crate::ssz::plain_outcome(r) == Self::decoded(bytes@, "Uint64"@),
    {
        match Uint64::decode_ssz(bytes) {
            Ok(genesis_time) => Ok(Config { genesis_time }),
            Err(e) => Err(e),
        }
    }

    /// Decodes exactly 8 bytes.
    pub fn decode_ssz_checked(bytes: &[u8]) -> (r: Result<Self, String>)
        ensures
            crate::ssz::plain_outcome(r) == Self::decoded(bytes@, "Config"@),
    {
        if bytes.len() != 8 {
            return Err(text::length_mismatch_text("Config", 8, bytes.len()));
        }
        Self::decode_ssz(bytes)
    }

    /// Hashes the configuration.
    pub fn hash_tree_root(&self) -> (r: [u8; 32])
        ensures
            Bytes32(r) == self.root_value(),
    {
        self.genesis_time.hash_tree_root()
    }

    /// Decoding gives back what was encoded.
    pub proof fn law_roundtrip(self)
        ensures
            self.bytes().len() == 8,
            Config::decoded(self.bytes(), "Config"@) == Ok::<Config, Seq<char>>(self),
    {
        crate::ssz::lemma_u64_len(self.genesis_time.0);
        assert(self.bytes().subrange(0, 8) =~= self.bytes());
        crate::ssz::lemma_u64_read(self.bytes(), 0, self.genesis_time.0);
    }
}

} // verus!
