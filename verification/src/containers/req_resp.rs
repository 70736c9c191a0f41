//! Messages of the request/response protocols.

use crate::containers::block::{SignedBlockModel, SignedBlockWithAttestation};
use crate::containers::block;
use crate::ssz::hash;
use crate::ssz::SszElement;
use crate::text;
use crate::types::bytes::Bytes32;
use crate::types::collections::SszList;
use crate::types::uint::Uint64;
use vstd::prelude::*;
use vstd::string::StringExecFns;

verus! {

/// Most blocks in one response.
pub const MAX_BLOCKS_PER_REQUEST: usize = 1_024;

/// Most roots in one request.
pub const MAX_BLOCKS_PER_ROOT_REQUEST: usize = 1_024;

/// The view of the chain that two nodes exchange, encoded in 112 bytes.
#[derive(Clone, Copy, Debug, PartialEq, Eq, Hash)]
pub struct Status {
    /// Identifies the fork.
    pub fork_digest: Bytes32,
    /// Root of the finalized block.
    pub finalized_root: Bytes32,
    /// Epoch of the finalized block.
    pub finalized_epoch: Uint64,
    /// Root of the head block.
    pub head_root: Bytes32,
    /// Slot of the head block.
    pub head_slot: Uint64,
}

impl Status {
    /// The encoding.
    pub open spec fn bytes(self) -> Seq<u8> {
        self.fork_digest@ + self.finalized_root@ + crate::ssz::u64_bytes(self.finalized_epoch.0) + self.head_root@ + crate::ssz::u64_bytes(self.head_slot.0)
    }

    /// The value in the first 112 bytes.
    pub open spec fn read(b: Seq<u8>) -> Status {
        Status {
            fork_digest: Bytes32::of(b.subrange(0, 32)),
            finalized_root: Bytes32::of(b.subrange(32, 64)),
            finalized_epoch: Uint64(crate::ssz::u64_at(b, 64)),
            head_root: Bytes32::of(b.subrange(72, 104)),
            head_slot: Uint64(crate::ssz::u64_at(b, 104)),
        }
    }

    /// The tree root.
    pub open spec fn root_value(self) -> Bytes32 {
        hash::container_root(
            seq![
                self.fork_digest,
                self.finalized_root,
                hash::number_chunk(self.finalized_epoch.0),
                self.head_root,
                hash::number_chunk(self.head_slot.0),
            ],
        )
    }

    /// The encoded length.
    pub fn fixed_len() -> (r: usize)
        ensures
            r == 112,
    {
        112
    }

    /// Encodes the value.
    pub fn encode_ssz(&self) -> (r: Vec<u8>)
        ensures
            r@ == self.bytes(),
            r@.len() == 112,
    {
        let mut out: Vec<u8> = Vec::new();
        crate::ssz::put_bytes(&mut out, self.fork_digest.as_slice());
        crate::ssz::put_bytes(&mut out, self.finalized_root.as_slice());
        crate::ssz::put_u64(&mut out, self.finalized_epoch.0);
        crate::ssz::put_bytes(&mut out, self.head_root.as_slice());
        crate::ssz::put_u64(&mut out, self.head_slot.0);
        assert(out@ =~= self.bytes());
        out
    }

    /// Decodes the first 112 bytes.
    pub fn decode_ssz(bytes: &[u8]) -> (r: Result<Self, String>)
        requires
            bytes@.len() >= 112,
        ensures
            r matches Ok(v) && v == Self::read(bytes@),
    {
        Ok(
            Status {
                fork_digest: Bytes32::from_slice(vstd::slice::slice_subrange(bytes, 0, 32)),
                finalized_root: Bytes32::from_slice(vstd::slice::slice_subrange(bytes, 32, 64)),
                finalized_epoch: Uint64(crate::ssz::get_u64(bytes, 64)),
                head_root: Bytes32::from_slice(vstd::slice::slice_subrange(bytes, 72, 104)),
                head_slot: Uint64(crate::ssz::get_u64(bytes, 104)),
            },
        )
    }

    /// What checked decoding gives.
    pub open spec fn decoded(b: Seq<u8>) -> Result<Status, Seq<char>> {
        if b.len() == 112 {
            Ok(Status::read(b))
        } else {
            Err(text::length_mismatch("Status"@, 112, b.len()))
        }
    }

    /// Decodes exactly 112 bytes.
    pub fn decode_ssz_checked(bytes: &[u8]) -> (r: Result<Self, String>)
        ensures
            crate::ssz::plain_outcome(r) == Self::decoded(bytes@),
    {
        if bytes.len() != 112 {
            return Err(text::length_mismatch_text("Status", 112, bytes.len()));
        }
        Self::decode_ssz(bytes)
    }

    /// Hashes the value.
    pub fn hash_tree_root(&self) -> (r: [u8; 32])
        ensures
            Bytes32(r) == self.root_value(),
    {
        hash::merkleize_five(
            &self.fork_digest,
            &self.finalized_root,
            &Bytes32(self.finalized_epoch.hash_tree_root()),
            &self.head_root,
            &Bytes32(self.head_slot.hash_tree_root()),
        ).0
    }

    /// Decoding gives back what was encoded.
    pub proof fn law_roundtrip(self)
        ensures
            self.bytes().len() == 112,
            Status::decoded(self.bytes()) == Ok::<Status, Seq<char>>(self),
    {
        let b = self.bytes();
        Bytes32::lemma_of(self.fork_digest);
        Bytes32::lemma_of(self.finalized_root);
        crate::ssz::lemma_u64_len(self.finalized_epoch.0);
        Bytes32::lemma_of(self.head_root);
        crate::ssz::lemma_u64_len(self.head_slot.0);
        assert(b.subrange(0, 32) =~= self.fork_digest@);
        assert(b.subrange(32, 64) =~= self.finalized_root@);
        assert(b.subrange(72, 104) =~= self.head_root@);
        assert(b.subrange(64, 72) =~= crate::ssz::u64_bytes(self.finalized_epoch.0));
        crate::ssz::lemma_u64_read(b, 64, self.finalized_epoch.0);
        assert(b.subrange(104, 112) =~= crate::ssz::u64_bytes(self.head_slot.0));
        crate::ssz::lemma_u64_read(b, 104, self.head_slot.0);
    }
}

/// A liveness probe, encoded in 8 bytes.
#[derive(Clone, Copy, Debug, PartialEq, Eq, Hash, Structural)]
pub struct Ping {
    /// Number of the probe.
    pub seq_number: Uint64,
}

impl Ping {
    /// The encoding.
    pub open spec fn bytes(self) -> Seq<u8> {
        crate::ssz::u64_bytes(self.seq_number.0)
    }

    /// The tree root.
    pub open spec fn root_value(self) -> Bytes32 {
        hash::number_chunk(self.seq_number.0)
    }

    /// The encoded length.
    pub fn fixed_len() -> (r: usize)
        ensures
            r == 8,
    {
        8
    }

    /// Encodes the value.
    pub fn encode_ssz(&self) -> (r: Vec<u8>)
        ensures
            r@ == self.bytes(),
            r@.len() == 8,
    {
        let mut out: Vec<u8> = Vec::new();
        crate::ssz::put_u64(&mut out, self.seq_number.0);
        assert(out@ =~= self.bytes());
        out
    }

    /// What decoding gives.
    pub open spec fn decoded(b: Seq<u8>, name: Seq<char>) -> Result<Ping, Seq<char>> {
        if b.len() == 8 {
            Ok(Ping { seq_number: Uint64(crate::ssz::u64_at(b, 0)) })
        } else {
            Err(text::length_mismatch(name, 8, b.len()))
        }
    }

    /// Decodes exactly 8 bytes.
    pub fn decode_ssz(bytes: &[u8]) -> (r: Result<Self, String>)
        ensures
            crate::ssz::plain_outcome(r) == Self::decoded(bytes@, "Uint64"@),
    {
        match Uint64::decode_ssz(bytes) {
            Ok(seq_number) => Ok(Ping { seq_number }),
            Err(e) => Err(e),
        }
    }

    /// Decodes exactly 8 bytes.
    pub fn decode_ssz_checked(bytes: &[u8]) -> (r: Result<Self, String>)
        ensures
            crate::ssz::plain_outcome(r) == Self::decoded(bytes@, "Ping"@),
    {
        if bytes.len() != 8 {
            return Err(text::length_mismatch_text("Ping", 8, bytes.len()));
        }
        Self::decode_ssz(bytes)
    }

    /// Hashes the value.
    pub fn hash_tree_root(&self) -> (r: [u8; 32])
        ensures
            Bytes32(r) == self.root_value(),
    {
        self.seq_number.hash_tree_root()
    }

    /// Decoding gives back what was encoded.
    pub proof fn law_roundtrip(self)
        ensures
            self.bytes().len() == 8,
            Ping::decoded(self.bytes(), "Ping"@) == Ok::<Ping, Seq<char>>(self),
    {
        let b = self.bytes();
        crate::ssz::lemma_u64_len(self.seq_number.0);
        assert(b.subrange(0, 8) =~= crate::ssz::u64_bytes(self.seq_number.0));
        crate::ssz::lemma_u64_read(b, 0, self.seq_number.0);
    }
}

/// The answer to a [`Ping`], encoded in 8 bytes.
#[derive(Clone, Copy, Debug, PartialEq, Eq, Hash, Structural)]
pub struct Pong {
    /// Number of the answer.
    pub seq_number: Uint64,
}

impl Pong {
    /// The encoding.
    pub open spec fn bytes(self) -> Seq<u8> {
        crate::ssz::u64_bytes(self.seq_number.0)
    }

    /// The tree root.
    pub open spec fn root_value(self) -> Bytes32 {
        hash::number_chunk(self.seq_number.0)
    }

    /// The encoded length.
    pub fn fixed_len() -> (r: usize)
        ensures
            r == 8,
    {
        8
    }

    /// Encodes the value.
    pub fn encode_ssz(&self) -> (r: Vec<u8>)
        ensures
            r@ == self.bytes(),
            r@.len() == 8,
    {
        let mut out: Vec<u8> = Vec::new();
        crate::ssz::put_u64(&mut out, self.seq_number.0);
        assert(out@ =~= self.bytes());
        out
    }

    /// What decoding gives.
    pub open spec fn decoded(b: Seq<u8>, name: Seq<char>) -> Result<Pong, Seq<char>> {
        if b.len() == 8 {
            Ok(Pong { seq_number: Uint64(crate::ssz::u64_at(b, 0)) })
        } else {
            Err(text::length_mismatch(name, 8, b.len()))
        }
    }

    /// Decodes exactly 8 bytes.
    pub fn decode_ssz(bytes: &[u8]) -> (r: Result<Self, String>)
        ensures
            crate::ssz::plain_outcome(r) == Self::decoded(bytes@, "Uint64"@),
    {
        match Uint64::decode_ssz(bytes) {
            Ok(seq_number) => Ok(Pong { seq_number }),
            Err(e) => Err(e),
        }
    }

    /// Decodes exactly 8 bytes.
    pub fn decode_ssz_checked(bytes: &[u8]) -> (r: Result<Self, String>)
        ensures
            crate::ssz::plain_outcome(r) == Self::decoded(bytes@, "Pong"@),
    {
        if bytes.len() != 8 {
            return Err(text::length_mismatch_text("Pong", 8, bytes.len()));
        }
        Self::decode_ssz(bytes)
    }

    /// Hashes the value.
    pub fn hash_tree_root(&self) -> (r: [u8; 32])
        ensures
            Bytes32(r) == self.root_value(),
    {
        self.seq_number.hash_tree_root()
    }

    /// Decoding gives back what was encoded.
    pub proof fn law_roundtrip(self)
        ensures
            self.bytes().len() == 8,
            Pong::decoded(self.bytes(), "Pong"@) == Ok::<Pong, Seq<char>>(self),
    {
        let b = self.bytes();
        crate::ssz::lemma_u64_len(self.seq_number.0);
        assert(b.subrange(0, 8) =~= crate::ssz::u64_bytes(self.seq_number.0));
        crate::ssz::lemma_u64_read(b, 0, self.seq_number.0);
    }
}

/// A request for the blocks of a range of slots, encoded in 24 bytes.
#[derive(Clone, Copy, Debug, PartialEq, Eq, Hash, Structural)]
pub struct BlocksByRangeRequest {
    /// First slot.
    pub start_slot: Uint64,
    /// Number of slots.
    pub count: Uint64,
    /// Distance between slots.
    pub step: Uint64,
}

impl BlocksByRangeRequest {
    /// The encoding.
    pub open spec fn bytes(self) -> Seq<u8> {
        crate::ssz::u64_bytes(self.start_slot.0) + crate::ssz::u64_bytes(self.count.0) + crate::ssz::u64_bytes(self.step.0)
    }

    /// The value in the first 24 bytes.
    pub open spec fn read(b: Seq<u8>) -> BlocksByRangeRequest {
        BlocksByRangeRequest {
            start_slot: Uint64(crate::ssz::u64_at(b, 0)),
            count: Uint64(crate::ssz::u64_at(b, 8)),
            step: Uint64(crate::ssz::u64_at(b, 16)),
        }
    }

    /// The tree root.
    pub open spec fn root_value(self) -> Bytes32 {
        hash::container_root(
            seq![
                hash::number_chunk(self.start_slot.0),
                hash::number_chunk(self.count.0),
                hash::number_chunk(self.step.0),
            ],
        )
    }

    /// The encoded length.
    pub fn fixed_len() -> (r: usize)
        ensures
            r == 24,
    {
        24
    }

    /// Encodes the value.
    pub fn encode_ssz(&self) -> (r: Vec<u8>)
        ensures
            r@ == self.bytes(),
            r@.len() == 24,
    {
        let mut out: Vec<u8> = Vec::new();
        crate::ssz::put_u64(&mut out, self.start_slot.0);
        crate::ssz::put_u64(&mut out, self.count.0);
        crate::ssz::put_u64(&mut out, self.step.0);
        assert(out@ =~= self.bytes());
        out
    }

    /// Decodes the first 24 bytes.
    pub fn decode_ssz(bytes: &[u8]) -> (r: Result<Self, String>)
        requires
            bytes@.len() >= 24,
        ensures
            r matches Ok(v) && v == Self::read(bytes@),
    {
        Ok(
            BlocksByRangeRequest {
                start_slot: Uint64(crate::ssz::get_u64(bytes, 0)),
                count: Uint64(crate::ssz::get_u64(bytes, 8)),
                step: Uint64(crate::ssz::get_u64(bytes, 16)),
            },
        )
    }

    /// What checked decoding gives.
    pub open spec fn decoded(b: Seq<u8>) -> Result<BlocksByRangeRequest, Seq<char>> {
        if b.len() == 24 {
            Ok(BlocksByRangeRequest::read(b))
        } else {
            Err(text::length_mismatch("BlocksByRangeRequest"@, 24, b.len()))
        }
    }

    /// Decodes exactly 24 bytes.
    pub fn decode_ssz_checked(bytes: &[u8]) -> (r: Result<Self, String>)
        ensures
            crate::ssz::plain_outcome(r) == Self::decoded(bytes@),
    {
        if bytes.len() != 24 {
            return Err(text::length_mismatch_text("BlocksByRangeRequest", 24, bytes.len()));
        }
        Self::decode_ssz(bytes)
    }

    /// Hashes the value.
    pub fn hash_tree_root(&self) -> (r: [u8; 32])
        ensures
            Bytes32(r) == self.root_value(),
    {
        hash::merkleize_three(
            &Bytes32(self.start_slot.hash_tree_root()),
            &Bytes32(self.count.hash_tree_root()),
            &Bytes32(self.step.hash_tree_root()),
        ).0
    }

    /// Decoding gives back what was encoded.
    pub proof fn law_roundtrip(self)
        ensures
            self.bytes().len() == 24,
            BlocksByRangeRequest::decoded(self.bytes()) == Ok::<BlocksByRangeRequest, Seq<char>>(self),
    {
        let b = self.bytes();
        crate::ssz::lemma_u64_len(self.start_slot.0);
        crate::ssz::lemma_u64_len(self.count.0);
        crate::ssz::lemma_u64_len(self.step.0);
        assert(b.subrange(0, 8) =~= crate::ssz::u64_bytes(self.start_slot.0));
        crate::ssz::lemma_u64_read(b, 0, self.start_slot.0);
        assert(b.subrange(8, 16) =~= crate::ssz::u64_bytes(self.count.0));
        crate::ssz::lemma_u64_read(b, 8, self.count.0);
        assert(b.subrange(16, 24) =~= crate::ssz::u64_bytes(self.step.0));
        crate::ssz::lemma_u64_read(b, 16, self.step.0);
    }
}

/// The encoding of a container with one list: an offset, then the list.
pub open spec fn listed_bytes<T: SszElement>(ms: Seq<T::Model>) -> Seq<u8> {
    crate::ssz::offset_bytes(4) + crate::ssz::list_bytes::<T>(ms)
}

/// What decoding a container with one list gives; checked decoding wants the offset to be
/// exact.
pub open spec fn listed_decoded<T: SszElement>(
    b: Seq<u8>,
    name: Seq<char>,
    limit: nat,
    checked: bool,
) -> Result<Seq<T::Model>, Seq<char>> {
    if b.len() < 4 {
        Err(name + " missing offset table"@)
    } else {
        let offset = crate::ssz::offset_at(b, 0);
        if (checked && offset != 4) || offset > b.len() {
            Err(name + " offset is invalid"@)
        } else {
            crate::ssz::list_from_bytes::<T>(
                b.subrange(offset as int, b.len() as int),
                limit,
                checked,
            )
        }
    }
}

/// `name` with `suffix` behind it.
fn with_suffix(name: &str, suffix: &str) -> (r: String)
    ensures
        r@ == name@ + suffix@,
{
    let mut s: String = name.to_string();
    s.append(suffix);
    s
}

/// A container with one list decodes from its encoding when the list does.
pub proof fn law_listed_roundtrip<T: SszElement>(
    ms: Seq<T::Model>,
    name: Seq<char>,
    limit: nat,
    checked: bool,
)
    requires
        ms.len() <= limit,
        listed_bytes::<T>(ms).len() < crate::ssz::offset_modulus(),
        forall|i: int|
            0 <= i < ms.len() ==> T::from_bytes(T::to_bytes(#[trigger] ms[i]), checked) == Ok::<
                T::Model,
                Seq<char>,
            >(ms[i]),
    ensures
        listed_decoded::<T>(listed_bytes::<T>(ms), name, limit, checked) == Ok::<
            Seq<T::Model>,
            Seq<char>,
        >(ms),
{
    let b = listed_bytes::<T>(ms);
    crate::ssz::lemma_offset_bytes_mod(4);
    assert(b.subrange(0, 4) =~= crate::ssz::offset_bytes(4));
    crate::ssz::lemma_offset_read(b, 0, 4);
    assert(b.subrange(4, b.len() as int) =~= crate::ssz::list_bytes::<T>(ms));
    crate::ssz::lemma_list_roundtrip::<T>(ms, limit, checked);
}

/// A list of signed blocks decodes from its encoding.
pub proof fn law_blocks_roundtrip(blocks: Seq<SignedBlockModel>, name: Seq<char>, checked: bool)
    requires
        blocks.len() <= MAX_BLOCKS_PER_REQUEST,
        listed_bytes::<SignedBlockWithAttestation>(blocks).len() < crate::ssz::offset_modulus(),
        forall|i: int|
            0 <= i < blocks.len() ==> (#[trigger] blocks[i]).message.canonical()
                && block::proofs_within_limits(blocks[i].signature.attestation_signatures),
    ensures
        listed_decoded::<SignedBlockWithAttestation>(
            listed_bytes::<SignedBlockWithAttestation>(blocks),
            name,
            MAX_BLOCKS_PER_REQUEST as nat,
            checked,
        ) == Ok::<Seq<SignedBlockModel>, Seq<char>>(blocks),
{
    let parts = crate::ssz::encoded_parts::<SignedBlockWithAttestation>(blocks);
    crate::ssz::lemma_offset_bytes_mod(4);
    crate::ssz::lemma_offset_table_len(parts, parts.len());
    assert(parts.take(parts.len() as int) =~= parts);
    assert forall|i: int| 0 <= i < blocks.len() implies SignedBlockWithAttestation::from_bytes(
        SignedBlockWithAttestation::to_bytes(#[trigger] blocks[i]),
        checked,
    ) == Ok::<SignedBlockModel, Seq<char>>(blocks[i]) by {
        crate::ssz::lemma_joined_part(parts, i as nat, parts.len());
        blocks[i].law_roundtrip(checked);
    }
    law_listed_roundtrip::<SignedBlockWithAttestation>(
        blocks,
        name,
        MAX_BLOCKS_PER_REQUEST as nat,
        checked,
    );
}

/// A list of roots decodes from its encoding.
pub proof fn law_roots_roundtrip(roots: Seq<Bytes32>, name: Seq<char>, checked: bool)
    requires
        roots.len() <= MAX_BLOCKS_PER_ROOT_REQUEST,
    ensures
        listed_decoded::<Bytes32>(
            listed_bytes::<Bytes32>(roots),
            name,
            MAX_BLOCKS_PER_ROOT_REQUEST as nat,
            checked,
        ) == Ok::<Seq<Bytes32>, Seq<char>>(roots),
{
    assert forall|i: int| 0 <= i < roots.len() implies Bytes32::from_bytes(
        Bytes32::to_bytes(#[trigger] roots[i]),
        checked,
    ) == Ok::<Bytes32, Seq<char>>(roots[i]) by {
        Bytes32::lemma_of(roots[i]);
    }
    let parts = crate::ssz::encoded_parts::<Bytes32>(roots);
    assert forall|i: int| 0 <= i < parts.len() implies (#[trigger] parts[i]).len() == 32 by {
        Bytes32::lemma_of(roots[i]);
    }
    crate::ssz::lemma_joined_fixed(parts, 32, parts.len());
    assert(parts.take(parts.len() as int) =~= parts);
    crate::ssz::lemma_offset_bytes_mod(4);
    law_listed_roundtrip::<Bytes32>(roots, name, MAX_BLOCKS_PER_ROOT_REQUEST as nat, checked);
}

/// The answer to a [`BlocksByRangeRequest`].
#[derive(Clone, Debug, PartialEq, Eq)]
pub struct BlocksByRangeResponse {
    /// The blocks.
    pub blocks: SszList<SignedBlockWithAttestation, MAX_BLOCKS_PER_REQUEST>,
}

impl View for BlocksByRangeResponse {
    type V = Seq<<SignedBlockWithAttestation as SszElement>::Model>;

    open spec fn view(&self) -> Seq<<SignedBlockWithAttestation as SszElement>::Model> {
        self.blocks@
    }
}

impl BlocksByRangeResponse {
    /// Encodes the list behind its offset.
    pub fn encode_ssz(&self) -> (r: Vec<u8>)
        requires
            forall|i: int| 0 <= i < self@.len() ==> (#[trigger] self@[i]).encodable(),
        ensures
            r@ == listed_bytes::<SignedBlockWithAttestation>(self@),
    {
        let mut out: Vec<u8> = Vec::new();
        crate::ssz::put_offset(&mut out, 4);
        crate::ssz::put_bytes(&mut out, self.blocks.encode_ssz().as_slice());
        assert(out@ =~= listed_bytes::<SignedBlockWithAttestation>(self@));
        out
    }

    /// Decodes a list behind its offset.
    pub fn decode_ssz(bytes: &[u8]) -> (r: Result<Self, String>)
        ensures
            crate::ssz::view_outcome(r) == listed_decoded::<SignedBlockWithAttestation>(
                bytes@,
                "BlocksByRangeResponse"@,
                MAX_BLOCKS_PER_REQUEST as nat,
                false,
            ),
    {
        if bytes.len() < 4 {
            return Err(with_suffix("BlocksByRangeResponse", " missing offset table"));
        }
        let offset: usize = crate::ssz::get_offset(bytes, 0);
        if offset > bytes.len() {
            return Err(with_suffix("BlocksByRangeResponse", " offset is invalid"));
        }
        match SszList::decode_ssz(vstd::slice::slice_subrange(bytes, offset, bytes.len())) {
            Ok(blocks) => Ok(BlocksByRangeResponse { blocks }),
            Err(e) => Err(e),
        }
    }

    /// Decodes a list behind its offset from untrusted bytes.
    pub fn decode_ssz_checked(bytes: &[u8]) -> (r: Result<Self, String>)
        ensures
            crate::ssz::view_outcome(r) == listed_decoded::<SignedBlockWithAttestation>(
                bytes@,
                "BlocksByRangeResponse"@,
                MAX_BLOCKS_PER_REQUEST as nat,
                true,
            ),
    {
        if bytes.len() < 4 {
            return Err(with_suffix("BlocksByRangeResponse", " missing offset table"));
        }
        let offset: usize = crate::ssz::get_offset(bytes, 0);
        if offset != 4 {
            return Err(with_suffix("BlocksByRangeResponse", " offset is invalid"));
        }
        match SszList::decode_ssz_checked(vstd::slice::slice_subrange(bytes, 4, bytes.len())) {
            Ok(blocks) => Ok(BlocksByRangeResponse { blocks }),
            Err(e) => Err(e),
        }
    }

    /// Hashes the list.
    pub fn hash_tree_root(&self) -> (r: [u8; 32])
        ensures
            Bytes32(r) == crate::ssz::list_root::<SignedBlockWithAttestation>(self@, MAX_BLOCKS_PER_REQUEST as nat),
    {
        self.blocks.hash_tree_root()
    }
}

/// A request for blocks by their roots.
#[derive(Clone, Debug, PartialEq, Eq)]
pub struct BlocksByRootRequest {
    /// The roots.
    pub roots: SszList<Bytes32, MAX_BLOCKS_PER_ROOT_REQUEST>,
}

impl View for BlocksByRootRequest {
    type V = Seq<<Bytes32 as SszElement>::Model>;

    open spec fn view(&self) -> Seq<<Bytes32 as SszElement>::Model> {
        self.roots@
    }
}

impl BlocksByRootRequest {
    /// Encodes the list behind its offset.
    pub fn encode_ssz(&self) -> (r: Vec<u8>)
        ensures
            r@ == listed_bytes::<Bytes32>(self@),
    {
        let mut out: Vec<u8> = Vec::new();
        crate::ssz::put_offset(&mut out, 4);
        crate::ssz::put_bytes(&mut out, self.roots.encode_ssz().as_slice());
        assert(out@ =~= listed_bytes::<Bytes32>(self@));
        out
    }

    /// Decodes a list behind its offset.
    pub fn decode_ssz(bytes: &[u8]) -> (r: Result<Self, String>)
        ensures
            crate::ssz::view_outcome(r) == listed_decoded::<Bytes32>(
                bytes@,
                "BlocksByRootRequest"@,
                MAX_BLOCKS_PER_ROOT_REQUEST as nat,
                false,
            ),
    {
        if bytes.len() < 4 {
            return Err(with_suffix("BlocksByRootRequest", " missing offset table"));
        }
        let offset: usize = crate::ssz::get_offset(bytes, 0);
        if offset > bytes.len() {
            return Err(with_suffix("BlocksByRootRequest", " offset is invalid"));
        }
        match SszList::decode_ssz(vstd::slice::slice_subrange(bytes, offset, bytes.len())) {
            Ok(roots) => Ok(BlocksByRootRequest { roots }),
            Err(e) => Err(e),
        }
    }

    /// Decodes a list behind its offset from untrusted bytes.
    pub fn decode_ssz_checked(bytes: &[u8]) -> (r: Result<Self, String>)
        ensures
            crate::ssz::view_outcome(r) == listed_decoded::<Bytes32>(
                bytes@,
                "BlocksByRootRequest"@,
                MAX_BLOCKS_PER_ROOT_REQUEST as nat,
                true,
            ),
    {
        if bytes.len() < 4 {
            return Err(with_suffix("BlocksByRootRequest", " missing offset table"));
        }
        let offset: usize = crate::ssz::get_offset(bytes, 0);
        if offset != 4 {
            return Err(with_suffix("BlocksByRootRequest", " offset is invalid"));
        }
        match SszList::decode_ssz_checked(vstd::slice::slice_subrange(bytes, 4, bytes.len())) {
            Ok(roots) => Ok(BlocksByRootRequest { roots }),
            Err(e) => Err(e),
        }
    }

    /// Hashes the list.
    pub fn hash_tree_root(&self) -> (r: [u8; 32])
        ensures
            Bytes32(r) == crate::ssz::list_root::<Bytes32>(self@, MAX_BLOCKS_PER_ROOT_REQUEST as nat),
    {
        self.roots.hash_tree_root()
    }
}

/// The answer to a [`BlocksByRootRequest`].
#[derive(Clone, Debug, PartialEq, Eq)]
pub struct BlocksByRootResponse {
    /// The blocks.
    pub blocks: SszList<SignedBlockWithAttestation, MAX_BLOCKS_PER_REQUEST>,
}

impl View for BlocksByRootResponse {
    type V = Seq<<SignedBlockWithAttestation as SszElement>::Model>;

    open spec fn view(&self) -> Seq<<SignedBlockWithAttestation as SszElement>::Model> {
        self.blocks@
    }
}

impl BlocksByRootResponse {
    /// Encodes the list behind its offset.
    pub fn encode_ssz(&self) -> (r: Vec<u8>)
        requires
            forall|i: int| 0 <= i < self@.len() ==> (#[trigger] self@[i]).encodable(),
        ensures
            r@ == listed_bytes::<SignedBlockWithAttestation>(self@),
    {
        let mut out: Vec<u8> = Vec::new();
        crate::ssz::put_offset(&mut out, 4);
        crate::ssz::put_bytes(&mut out, self.blocks.encode_ssz().as_slice());
        assert(out@ =~= listed_bytes::<SignedBlockWithAttestation>(self@));
        out
    }

    /// Decodes a list behind its offset.
    pub fn decode_ssz(bytes: &[u8]) -> (r: Result<Self, String>)
        ensures
            crate::ssz::view_outcome(r) == listed_decoded::<SignedBlockWithAttestation>(
                bytes@,
                "BlocksByRootResponse"@,
                MAX_BLOCKS_PER_REQUEST as nat,
                false,
            ),
    {
        if bytes.len() < 4 {
            return Err(with_suffix("BlocksByRootResponse", " missing offset table"));
        }
        let offset: usize = crate::ssz::get_offset(bytes, 0);
        if offset > bytes.len() {
            return Err(with_suffix("BlocksByRootResponse", " offset is invalid"));
        }
        match SszList::decode_ssz(vstd::slice::slice_subrange(bytes, offset, bytes.len())) {
            Ok(blocks) => Ok(BlocksByRootResponse { blocks }),
            Err(e) => Err(e),
        }
    }

    /// Decodes a list behind its offset from untrusted bytes.
    pub fn decode_ssz_checked(bytes: &[u8]) -> (r: Result<Self, String>)
        ensures
            crate::ssz::view_outcome(r) == listed_decoded::<SignedBlockWithAttestation>(
                bytes@,
                "BlocksByRootResponse"@,
                MAX_BLOCKS_PER_REQUEST as nat,
                true,
            ),
    {
        if bytes.len() < 4 {
            return Err(with_suffix("BlocksByRootResponse", " missing offset table"));
        }
        let offset: usize = crate::ssz::get_offset(bytes, 0);
        if offset != 4 {
            return Err(with_suffix("BlocksByRootResponse", " offset is invalid"));
        }
        match SszList::decode_ssz_checked(vstd::slice::slice_subrange(bytes, 4, bytes.len())) {
            Ok(blocks) => Ok(BlocksByRootResponse { blocks }),
            Err(e) => Err(e),
        }
    }

    /// Hashes the list.
    pub fn hash_tree_root(&self) -> (r: [u8; 32])
        ensures
            Bytes32(r) == crate::ssz::list_root::<SignedBlockWithAttestation>(self@, MAX_BLOCKS_PER_REQUEST as nat),
    {
        self.blocks.hash_tree_root()
    }
}

} // verus!
