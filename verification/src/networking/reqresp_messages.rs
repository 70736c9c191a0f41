//! Typed messages of the request/response protocols.

use vstd::prelude::*;
use vstd::string::StringExecFns;

use crate::containers::block;
use crate::containers::block::{SignedBlockModel, SignedBlockWithAttestation};
use crate::containers::req_resp;
use crate::containers::req_resp::{
    BlocksByRangeRequest, BlocksByRangeResponse, BlocksByRootRequest, BlocksByRootResponse, Status,
    MAX_BLOCKS_PER_REQUEST, MAX_BLOCKS_PER_ROOT_REQUEST,
};
use crate::ssz;
use crate::text;
use crate::types::bytes::Bytes32;
use crate::types::collections::SszList;

verus! {

/// The supported request/response protocols.
#[derive(Clone, Copy, Debug, PartialEq, Eq, Structural)]
pub enum LeanSupportedProtocol {
    /// `/leanconsensus/req/blocks_by_range/1/ssz_snappy`
    BlocksByRangeV1,
    /// `/leanconsensus/req/blocks_by_root/1/ssz_snappy`
    BlocksByRootV1,
    /// `/leanconsensus/req/status/1/ssz_snappy`
    StatusV1,
}

impl LeanSupportedProtocol {
    /// The message's name in the protocol's identifier.
    pub open spec fn name(self) -> Seq<char> {
        match self {
            LeanSupportedProtocol::BlocksByRangeV1 => "blocks_by_range"@,
            LeanSupportedProtocol::BlocksByRootV1 => "blocks_by_root"@,
            LeanSupportedProtocol::StatusV1 => "status"@,
        }
    }

    /// The protocol's identifier.
    pub open spec fn id(self) -> Seq<char> {
        "/leanconsensus/req/"@ + self.name() + "/"@ + "1"@ + "/ssz_snappy"@
    }

    /// The protocol that an identifier names.
    pub open spec fn of_id(id: Seq<char>) -> Option<LeanSupportedProtocol> {
        let parts = text::pieces(text::without_leading(id, '/'), '/');
        if parts.len() == 5 && parts[0] == "leanconsensus"@ && parts[1] == "req"@ && parts[4]
            == "ssz_snappy"@ && parts[3] == "1"@ {
            if parts[2] == "blocks_by_range"@ {
                Some(LeanSupportedProtocol::BlocksByRangeV1)
            } else if parts[2] == "blocks_by_root"@ {
                Some(LeanSupportedProtocol::BlocksByRootV1)
            } else if parts[2] == "status"@ {
                Some(LeanSupportedProtocol::StatusV1)
            } else {
                None
            }
        } else {
            None
        }
    }

    /// The message's name in the protocol's identifier.
    pub fn message_name(&self) -> (r: &'static str)
        ensures
            r@ == self.name(),
    {
        match self {
            LeanSupportedProtocol::BlocksByRangeV1 => "blocks_by_range",
            LeanSupportedProtocol::BlocksByRootV1 => "blocks_by_root",
            LeanSupportedProtocol::StatusV1 => "status",
        }
    }

    /// The version in the protocol's identifier.
    pub fn schema_version(&self) -> (r: &'static str)
        ensures
            r@ == "1"@,
    {
        "1"
    }

    /// The protocol's identifier.
    pub fn protocol_id(&self) -> (r: String)
        ensures
            r@ == self.id(),
    {
        let mut s: String = "/leanconsensus/req/".to_string();
        s.append(self.message_name());
        s.append("/");
        s.append(self.schema_version());
        s.append("/ssz_snappy");
        s
    }

    /// The protocol that an identifier names, if it is supported.
    pub fn parse_protocol_id(protocol: &str) -> (r: Option<Self>)
        ensures
            r == Self::of_id(protocol@),
    {
        let chars = text::to_chars(protocol);
        let body = text::strip_leading(chars.as_slice(), '/');
        let parts = text::split_all(body, '/');
        assert(parts@.len() == text::contents(parts@).len());
        if parts.len() != 5 {
            return None;
        }
        assert forall|i: int| 0 <= i < 5 implies parts@[i]@ == text::pieces(body@, '/')[i] by {
            assert(text::contents(parts@)[i] == parts@[i]@);
        }
        if !text::spells(parts[0].as_slice(), "leanconsensus") || !text::spells(
            parts[1].as_slice(),
            "req",
        ) || !text::spells(parts[4].as_slice(), "ssz_snappy") || !text::spells(
            parts[3].as_slice(),
            "1",
        ) {
            return None;
        }
        if text::spells(parts[2].as_slice(), "blocks_by_range") {
            Some(LeanSupportedProtocol::BlocksByRangeV1)
        } else if text::spells(parts[2].as_slice(), "blocks_by_root") {
            Some(LeanSupportedProtocol::BlocksByRootV1)
        } else if text::spells(parts[2].as_slice(), "status") {
            Some(LeanSupportedProtocol::StatusV1)
        } else {
            None
        }
    }

    /// A protocol is found again by its identifier.
    pub proof fn law_id_names_the_protocol(self)
        ensures
            Self::of_id(self.id()) == Some(self),
    {
        reveal_strlit("/leanconsensus/req/");
        reveal_strlit("leanconsensus");
        reveal_strlit("req");
        reveal_strlit("/");
        reveal_strlit("1");
        reveal_strlit("/ssz_snappy");
        reveal_strlit("ssz_snappy");
        reveal_strlit("blocks_by_range");
        reveal_strlit("blocks_by_root");
        reveal_strlit("status");
        let bar = seq!['/'];
        let last = "ssz_snappy"@;
        let tail = "1"@ + bar + last;
        let name_on = self.name() + bar + tail;
        let req_on = "req"@ + bar + name_on;
        let whole = "leanconsensus"@ + bar + req_on;
        assert(self.id() =~= bar + whole);
        assert(self.id().skip(1) =~= whole);
        assert(text::without_leading(self.id(), '/') == whole) by {
            reveal_with_fuel(text::without_leading, 3);
        }
        text::lemma_only_piece(last, '/');
        text::lemma_leading_piece("1"@, last, '/');
        text::lemma_leading_piece(self.name(), tail, '/');
        text::lemma_leading_piece("req"@, name_on, '/');
        text::lemma_leading_piece("leanconsensus"@, req_on, '/');
        let parts = text::pieces(whole, '/');
        assert(parts =~= seq!["leanconsensus"@, "req"@, self.name(), "1"@, last]);
        assert("blocks_by_range"@.len() == 15);
        assert("blocks_by_root"@.len() == 14);
        assert("status"@.len() == 6);
    }
}

/// The value of a [`LeanRequestMessage`].
#[verifier::ext_equal]
pub enum RequestModel {
    /// Peer status handshake.
    Status(Status),
    /// Blocks by slot range.
    BlocksByRange(BlocksByRangeRequest),
    /// Blocks by root.
    BlocksByRoot(Seq<Bytes32>),
}

/// The value of a [`LeanResponseMessage`].
#[verifier::ext_equal]
pub enum ResponseModel {
    /// Answer to a status request.
    Status(Status),
    /// One block of an answer by slot range.
    BlocksByRange(SignedBlockModel),
    /// One block of an answer by root.
    BlocksByRoot(SignedBlockModel),
}

/// A typed request.
#[derive(Clone, Debug, PartialEq, Eq)]
pub enum LeanRequestMessage {
    /// Peer status handshake.
    Status(Status),
    /// Blocks by slot range.
    BlocksByRange(BlocksByRangeRequest),
    /// Blocks by root.
    BlocksByRoot(BlocksByRootRequest),
}

/// A typed response.
#[derive(Clone, Debug, PartialEq, Eq)]
pub enum LeanResponseMessage {
    /// Answer to a status request.
    Status(Status),
    /// One block of an answer by slot range.
    BlocksByRange(SignedBlockWithAttestation),
    /// One block of an answer by root.
    BlocksByRoot(SignedBlockWithAttestation),
}

impl View for LeanRequestMessage {
    type V = RequestModel;

    open spec fn view(&self) -> RequestModel {
        match *self {
            LeanRequestMessage::Status(s) => RequestModel::Status(s),
            LeanRequestMessage::BlocksByRange(q) => RequestModel::BlocksByRange(q),
            LeanRequestMessage::BlocksByRoot(q) => RequestModel::BlocksByRoot(q.roots@),
        }
    }
}

impl View for LeanResponseMessage {
    type V = ResponseModel;

    open spec fn view(&self) -> ResponseModel {
        match *self {
            LeanResponseMessage::Status(s) => ResponseModel::Status(s),
            LeanResponseMessage::BlocksByRange(b) => ResponseModel::BlocksByRange(b@),
            LeanResponseMessage::BlocksByRoot(b) => ResponseModel::BlocksByRoot(b@),
        }
    }
}

/// What decoding a status gives; bytes behind it are ignored.
pub open spec fn status_decoded(b: Seq<u8>) -> Result<Status, Seq<char>> {
    if b.len() < 112 {
        Err(text::length_mismatch("Status"@, 112, b.len()))
    } else {
        Ok(Status::read(b))
    }
}

/// What decoding a request by slot range gives; bytes behind it are ignored.
pub open spec fn range_request_decoded(b: Seq<u8>) -> Result<BlocksByRangeRequest, Seq<char>> {
    if b.len() < 24 {
        Err(text::length_mismatch("BlocksByRangeRequest"@, 24, b.len()))
    } else {
        Ok(BlocksByRangeRequest::read(b))
    }
}

/// What decoding a request by root gives: the roots behind an offset, or the
/// bare list of roots.
pub open spec fn root_request_decoded(b: Seq<u8>) -> Result<Seq<Bytes32>, Seq<char>> {
    match req_resp::listed_decoded::<Bytes32>(
        b,
        "BlocksByRootRequest"@,
        MAX_BLOCKS_PER_ROOT_REQUEST as nat,
        false,
    ) {
        Ok(roots) => Ok(roots),
        Err(_) => ssz::list_from_bytes::<Bytes32>(b, MAX_BLOCKS_PER_ROOT_REQUEST as nat, false),
    }
}

/// What decoding one block of an answer gives: a signed block, or the first one
/// of a list behind an offset.
pub open spec fn block_response_decoded(
    b: Seq<u8>,
    container: Seq<char>,
    limit: nat,
    empty: Seq<char>,
    unsupported: Seq<char>,
) -> Result<SignedBlockModel, Seq<char>> {
    match SignedBlockModel::decoded(b, false) {
        Ok(block) => Ok(block),
        Err(_) => match req_resp::listed_decoded::<SignedBlockWithAttestation>(
            b,
            container,
            limit,
            false,
        ) {
            Ok(blocks) => if blocks.len() > 0 {
                Ok(blocks[0])
            } else {
                Err(empty)
            },
            Err(_) => Err(unsupported),
        },
    }
}

/// What decoding one block of an answer by slot range gives.
pub open spec fn range_response_decoded(b: Seq<u8>) -> Result<SignedBlockModel, Seq<char>> {
    block_response_decoded(
        b,
        "BlocksByRangeResponse"@,
        MAX_BLOCKS_PER_REQUEST as nat,
        "empty BlocksByRange response payload"@,
        "unsupported BlocksByRange response payload"@,
    )
}

/// What decoding one block of an answer by root gives.
pub open spec fn root_response_decoded(b: Seq<u8>) -> Result<SignedBlockModel, Seq<char>> {
    block_response_decoded(
        b,
        "BlocksByRootResponse"@,
        MAX_BLOCKS_PER_ROOT_REQUEST as nat,
        "empty BlocksByRoot response payload"@,
        "unsupported BlocksByRoot response payload"@,
    )
}

fn decode_blocks_by_root_request_compat(data: &[u8]) -> (r: Result<BlocksByRootRequest, String>)
    ensures
        ssz::view_outcome(r) == root_request_decoded(data@),
{
    match BlocksByRootRequest::decode_ssz(data) {
        Ok(req) => Ok(req),
        Err(_) => match SszList::decode_ssz(data) {
            Ok(roots) => Ok(BlocksByRootRequest { roots }),
            Err(e) => Err(e),
        },
    }
}

fn decode_blocks_by_root_response_compat(data: &[u8]) -> (r: Result<
    SignedBlockWithAttestation,
    String,
>)
    ensures
        ssz::view_outcome(r) == root_response_decoded(data@),
{
    match SignedBlockWithAttestation::decode_ssz(data) {
        Ok(single) => Ok(single),
        Err(_) => match BlocksByRootResponse::decode_ssz(data) {
            Ok(resp) => {
                if resp.blocks.data.len() == 0 {
                    return Err("empty BlocksByRoot response payload".to_string());
                }
                let first = resp.blocks.data[0].duplicate();
                Ok(first)
            },
            Err(_) => Err("unsupported BlocksByRoot response payload".to_string()),
        },
    }
}

fn decode_blocks_by_range_response_compat(data: &[u8]) -> (r: Result<
    SignedBlockWithAttestation,
    String,
>)
    ensures
        ssz::view_outcome(r) == range_response_decoded(data@),
{
    match SignedBlockWithAttestation::decode_ssz(data) {
        Ok(single) => Ok(single),
        Err(_) => match BlocksByRangeResponse::decode_ssz(data) {
            Ok(resp) => {
                if resp.blocks.data.len() == 0 {
                    return Err("empty BlocksByRange response payload".to_string());
                }
                let first = resp.blocks.data[0].duplicate();
                Ok(first)
            },
            Err(_) => Err("unsupported BlocksByRange response payload".to_string()),
        },
    }
}

impl RequestModel {
    /// The protocol that carries the request.
    pub open spec fn protocol(self) -> LeanSupportedProtocol {
        match self {
            RequestModel::Status(_) => LeanSupportedProtocol::StatusV1,
            RequestModel::BlocksByRange(_) => LeanSupportedProtocol::BlocksByRangeV1,
            RequestModel::BlocksByRoot(_) => LeanSupportedProtocol::BlocksByRootV1,
        }
    }

    /// How many answers the request asks for at most.
    pub open spec fn answers(self) -> nat {
        match self {
            RequestModel::Status(_) => 1,
            RequestModel::BlocksByRange(q) => q.count.0 as nat,
            RequestModel::BlocksByRoot(roots) => roots.len(),
        }
    }

    /// The encoding.
    pub open spec fn bytes(self) -> Seq<u8> {
        match self {
            RequestModel::Status(s) => s.bytes(),
            RequestModel::BlocksByRange(q) => q.bytes(),
            RequestModel::BlocksByRoot(roots) => req_resp::listed_bytes::<Bytes32>(roots),
        }
    }

    /// What decoding gives for a protocol.
    pub open spec fn decoded(protocol: LeanSupportedProtocol, b: Seq<u8>) -> Result<
        RequestModel,
        Seq<char>,
    > {
        match protocol {
            LeanSupportedProtocol::StatusV1 => match status_decoded(b) {
                Ok(s) => Ok(RequestModel::Status(s)),
                Err(e) => Err(e),
            },
            LeanSupportedProtocol::BlocksByRangeV1 => match range_request_decoded(b) {
                Ok(q) => Ok(RequestModel::BlocksByRange(q)),
                Err(e) => Err(e),
            },
            LeanSupportedProtocol::BlocksByRootV1 => match root_request_decoded(b) {
                Ok(roots) => Ok(RequestModel::BlocksByRoot(roots)),
                Err(e) => Err(e),
            },
        }
    }

    /// A request that was encoded is read back under its own protocol.
    pub proof fn law_roundtrip(self)
        requires
            self matches RequestModel::BlocksByRoot(roots) ==> roots.len()
                <= MAX_BLOCKS_PER_ROOT_REQUEST,
        ensures
            RequestModel::decoded(self.protocol(), self.bytes()) == Ok::<RequestModel, Seq<char>>(
                self,
            ),
    {
        match self {
            RequestModel::Status(s) => {
                s.law_roundtrip();
                assert(status_decoded(s.bytes()) == Ok::<Status, Seq<char>>(s));
            },
            RequestModel::BlocksByRange(q) => {
                q.law_roundtrip();
                assert(range_request_decoded(q.bytes()) == Ok::<BlocksByRangeRequest, Seq<char>>(q));
            },
            RequestModel::BlocksByRoot(roots) => {
                req_resp::law_roots_roundtrip(roots, "BlocksByRootRequest"@, false);
            },
        }
    }
}

impl LeanRequestMessage {
    /// The identifiers of the protocols that can carry the request.
    pub fn supported_protocols(&self) -> (r: Vec<String>)
        ensures
            r@.len() == 1,
            r@[0]@ == self@.protocol().id(),
    {
        let id = match self {
            LeanRequestMessage::Status(_) => LeanSupportedProtocol::StatusV1.protocol_id(),
            LeanRequestMessage::BlocksByRange(_) => {
                LeanSupportedProtocol::BlocksByRangeV1.protocol_id()
            },
            LeanRequestMessage::BlocksByRoot(_) => {
                LeanSupportedProtocol::BlocksByRootV1.protocol_id()
            },
        };
        let mut out: Vec<String> = Vec::new();
        out.push(id);
        out
    }

    /// How many response chunks to expect at most.
    pub fn max_response_chunks(&self) -> (r: u64)
        ensures
            r == self@.answers(),
    {
        match self {
            LeanRequestMessage::Status(_) => 1,
            LeanRequestMessage::BlocksByRange(req) => req.count.0,
            LeanRequestMessage::BlocksByRoot(req) => req.roots.data.len() as u64,
        }
    }

    /// Encodes the message.
    pub fn encode_ssz(&self) -> (r: Vec<u8>)
        ensures
            r@ == self@.bytes(),
    {
        match self {
            LeanRequestMessage::Status(status) => status.encode_ssz(),
            LeanRequestMessage::BlocksByRange(req) => req.encode_ssz(),
            LeanRequestMessage::BlocksByRoot(req) => req.encode_ssz(),
        }
    }

    /// Decodes the message of a protocol.
    pub fn decode_ssz(protocol: LeanSupportedProtocol, data: &[u8]) -> (r: Result<Self, String>)
        ensures
            ssz::view_outcome(r) == RequestModel::decoded(protocol, data@),
    {
        match protocol {
            LeanSupportedProtocol::StatusV1 => {
                if data.len() < 112 {
                    return Err(text::length_mismatch_text("Status", 112, data.len()));
                }
                match Status::decode_ssz(data) {
                    Ok(s) => Ok(LeanRequestMessage::Status(s)),
                    Err(e) => Err(e),
                }
            },
            LeanSupportedProtocol::BlocksByRangeV1 => {
                if data.len() < 24 {
                    return Err(text::length_mismatch_text("BlocksByRangeRequest", 24, data.len()));
                }
                match BlocksByRangeRequest::decode_ssz(data) {
                    Ok(q) => Ok(LeanRequestMessage::BlocksByRange(q)),
                    Err(e) => Err(e),
                }
            },
            LeanSupportedProtocol::BlocksByRootV1 => {
                match decode_blocks_by_root_request_compat(data) {
                    Ok(q) => Ok(LeanRequestMessage::BlocksByRoot(q)),
                    Err(e) => Err(e),
                }
            },
        }
    }
}

impl ResponseModel {
    /// Whether the response can be encoded.
    pub open spec fn encodable(self) -> bool {
        match self {
            ResponseModel::Status(_) => true,
            ResponseModel::BlocksByRange(b) => b.encodable(),
            ResponseModel::BlocksByRoot(b) => b.encodable(),
        }
    }

    /// The encoding.
    pub open spec fn bytes(self) -> Seq<u8> {
        match self {
            ResponseModel::Status(s) => s.bytes(),
            ResponseModel::BlocksByRange(b) => b.bytes(),
            ResponseModel::BlocksByRoot(b) => b.bytes(),
        }
    }

    /// What decoding gives for a protocol.
    pub open spec fn decoded(protocol: LeanSupportedProtocol, b: Seq<u8>) -> Result<
        ResponseModel,
        Seq<char>,
    > {
        match protocol {
            LeanSupportedProtocol::StatusV1 => match status_decoded(b) {
                Ok(s) => Ok(ResponseModel::Status(s)),
                Err(e) => Err(e),
            },
            LeanSupportedProtocol::BlocksByRangeV1 => match range_response_decoded(b) {
                Ok(block) => Ok(ResponseModel::BlocksByRange(block)),
                Err(e) => Err(e),
            },
            LeanSupportedProtocol::BlocksByRootV1 => match root_response_decoded(b) {
                Ok(block) => Ok(ResponseModel::BlocksByRoot(block)),
                Err(e) => Err(e),
            },
        }
    }

    /// The protocol that carries the response.
    pub open spec fn protocol(self) -> LeanSupportedProtocol {
        match self {
            ResponseModel::Status(_) => LeanSupportedProtocol::StatusV1,
            ResponseModel::BlocksByRange(_) => LeanSupportedProtocol::BlocksByRangeV1,
            ResponseModel::BlocksByRoot(_) => LeanSupportedProtocol::BlocksByRootV1,
        }
    }

    /// The block that the response carries.
    pub open spec fn block(self) -> Option<SignedBlockModel> {
        match self {
            ResponseModel::Status(_) => None,
            ResponseModel::BlocksByRange(b) => Some(b),
            ResponseModel::BlocksByRoot(b) => Some(b),
        }
    }

    /// A response that was encoded is read back under its own protocol.
    pub proof fn law_roundtrip(self)
        requires
            self.block() matches Some(b) ==> b.message.canonical() && block::proofs_within_limits(
                b.signature.attestation_signatures,
            ) && b.bytes().len() < ssz::offset_modulus(),
        ensures
            self.encodable(),
            ResponseModel::decoded(self.protocol(), self.bytes()) == Ok::<ResponseModel, Seq<char>>(
                self,
            ),
    {
        match self {
            ResponseModel::Status(s) => {
                s.law_roundtrip();
                assert(status_decoded(s.bytes()) == Ok::<Status, Seq<char>>(s));
            },
            ResponseModel::BlocksByRange(b) => {
                b.law_roundtrip(false);
            },
            ResponseModel::BlocksByRoot(b) => {
                b.law_roundtrip(false);
            },
        }
    }
}

impl LeanResponseMessage {
    /// Encodes the message.
    pub fn encode_ssz(&self) -> (r: Vec<u8>)
        requires
            self@.encodable(),
        ensures
            r@ == self@.bytes(),
    {
        match self {
            LeanResponseMessage::Status(status) => status.encode_ssz(),
            LeanResponseMessage::BlocksByRange(block) => block.encode_ssz(),
            LeanResponseMessage::BlocksByRoot(block) => block.encode_ssz(),
        }
    }

    /// Decodes the message of a protocol.
    pub fn decode_ssz(protocol: LeanSupportedProtocol, data: &[u8]) -> (r: Result<Self, String>)
        ensures
            ssz::view_outcome(r) == ResponseModel::decoded(protocol, data@),
    {
        match protocol {
            LeanSupportedProtocol::StatusV1 => {
                if data.len() < 112 {
                    return Err(text::length_mismatch_text("Status", 112, data.len()));
                }
                match Status::decode_ssz(data) {
                    Ok(s) => Ok(LeanResponseMessage::Status(s)),
                    Err(e) => Err(e),
                }
            },
            LeanSupportedProtocol::BlocksByRangeV1 => {
                match decode_blocks_by_range_response_compat(data) {
                    Ok(b) => Ok(LeanResponseMessage::BlocksByRange(b)),
                    Err(e) => Err(e),
                }
            },
            LeanSupportedProtocol::BlocksByRootV1 => {
                match decode_blocks_by_root_response_compat(data) {
                    Ok(b) => Ok(LeanResponseMessage::BlocksByRoot(b)),
                    Err(e) => Err(e),
                }
            },
        }
    }
}

} // verus!
