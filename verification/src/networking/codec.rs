//! Requests and responses on the wire.

use vstd::prelude::*;
use vstd::slice::slice_subrange;
use vstd::string::StringExecFns;

use crate::networking::framing;
use crate::networking::framing::{Fault, FrameFault};
use crate::networking::reqresp_messages::LeanSupportedProtocol;
use crate::ssz;
use crate::text;

verus! {

/// What `String::from_utf8_lossy` gives for bytes that need not be valid text.
pub uninterp spec fn utf8_lossy(bytes: Seq<u8>) -> Seq<char>;

/// `String::from_utf8_lossy`. Valid text is kept as it is.
#[verifier::external_body]
fn lossy_text(bytes: &[u8]) -> (r: String)
    ensures
        r@ == utf8_lossy(bytes@),
        vstd::utf8::valid_utf8(bytes@) ==> r@ == vstd::utf8::decode_utf8(bytes@),
{
    String::from_utf8_lossy(bytes).into_owned()
}

/// The protocol identifier under which messages are exchanged.
#[derive(Clone, Debug, PartialEq, Eq)]
pub struct LeanReqRespProtocol(pub String);

/// The codec of requests and responses.
///
/// - Request: `varint(length) || snappy frames`
/// - Response chunk: `code || varint(length) || snappy frames`
#[derive(Clone, Copy, Debug)]
pub struct LeanReqRespCodec;

/// A request with its encoded payload.
#[derive(Clone, Debug, PartialEq, Eq)]
pub struct LeanRequest {
    /// Protocol identifier.
    pub protocol: String,
    /// Encoded request.
    pub payload: Vec<u8>,
}

/// A response with its encoded payloads.
#[derive(Clone, Debug, PartialEq, Eq)]
pub struct LeanResponse {
    /// Protocol identifier.
    pub protocol: String,
    /// Response code; 0 is success.
    pub response_code: u8,
    /// Encoded responses, one for each chunk.
    pub payloads: Vec<Vec<u8>>,
}

/// The value of a [`LeanRequest`].
#[verifier::ext_equal]
pub struct RequestFrame {
    pub protocol: Seq<char>,
    pub payload: Seq<u8>,
}

/// The value of a [`LeanResponse`].
#[verifier::ext_equal]
pub struct ResponseFrame {
    pub protocol: Seq<char>,
    pub response_code: u8,
    pub payloads: Seq<Seq<u8>>,
}

/// The contents of a list of byte vectors.
pub open spec fn rows(v: Seq<Vec<u8>>) -> Seq<Seq<u8>> {
    v.map_values(|b: Vec<u8>| b@)
}

/// Pushing a vector pushes its contents.
pub proof fn lemma_rows_push(v: Seq<Vec<u8>>, b: Vec<u8>)
    ensures
        rows(v.push(b)) == rows(v).push(b@),
{
    assert(rows(v.push(b)) =~= rows(v).push(b@));
}

impl View for LeanRequest {
    type V = RequestFrame;

    open spec fn view(&self) -> RequestFrame {
        RequestFrame { protocol: self.protocol@, payload: self.payload@ }
    }
}

impl View for LeanResponse {
    type V = ResponseFrame;

    open spec fn view(&self) -> ResponseFrame {
        ResponseFrame {
            protocol: self.protocol@,
            response_code: self.response_code,
            payloads: rows(self.payloads@),
        }
    }
}

/// The payload of an answer to a request that cannot be served.
pub const INVALID_REQUEST: [u8; 15] = [
    105,
    110,
    118,
    97,
    108,
    105,
    100,
    32,
    114,
    101,
    113,
    117,
    101,
    115,
    116,
];

/// A copy of [`INVALID_REQUEST`].
pub fn invalid_request() -> (r: Vec<u8>)
    ensures
        r@ == INVALID_REQUEST@,
{
    let mut out: Vec<u8> = Vec::new();
    let all = INVALID_REQUEST;
    ssz::put_bytes(&mut out, &all);
    assert(out@ =~= INVALID_REQUEST@);
    out
}

/// Whether a protocol answers with a stream of block chunks.
pub open spec fn streams_blocks(protocol: Seq<char>) -> bool {
    match LeanSupportedProtocol::of_id(protocol) {
        Some(LeanSupportedProtocol::BlocksByRootV1) => true,
        Some(LeanSupportedProtocol::BlocksByRangeV1) => true,
        _ => false,
    }
}

/// Whether a protocol answers with a stream of block chunks.
pub fn is_streaming(protocol: &str) -> (r: bool)
    ensures
        r == streams_blocks(protocol@),
{
    match LeanSupportedProtocol::parse_protocol_id(protocol) {
        Some(LeanSupportedProtocol::BlocksByRootV1) => true,
        Some(LeanSupportedProtocol::BlocksByRangeV1) => true,
        _ => false,
    }
}

/// A request on the wire.
pub open spec fn request_bytes(payload: Seq<u8>) -> Seq<u8> {
    framing::varint(payload.len()) + framing::framed(payload)
}

/// The payload of a request on the wire.
pub open spec fn request_payload(b: Seq<u8>) -> Result<Seq<u8>, Fault> {
    match framing::leading_length(b) {
        Err(f) => Err(f),
        Ok((length, n)) => if length > isize::MAX {
            Err(Fault::InvalidData("request length exceeds the address space"@))
        } else {
            framing::frames_read(b.skip(n as int), length as nat)
        },
    }
}

/// A response chunk on the wire.
pub open spec fn chunk_bytes(code: u8, payload: Seq<u8>) -> Seq<u8> {
    seq![code] + framing::varint(payload.len()) + framing::framed(payload)
}

/// The first `k` payloads as successful chunks.
pub open spec fn stream_bytes(payloads: Seq<Seq<u8>>, k: nat) -> Seq<u8>
    decreases k,
{
    if k == 0 {
        Seq::empty()
    } else {
        stream_bytes(payloads, (k - 1) as nat) + chunk_bytes(0, payloads[k - 1])
    }
}

/// A response on the wire.
pub open spec fn response_bytes(r: ResponseFrame) -> Seq<u8> {
    if r.response_code != 0 {
        chunk_bytes(
            r.response_code,
            if r.payloads.len() > 0 {
                r.payloads[0]
            } else {
                INVALID_REQUEST@
            },
        )
    } else if r.payloads.len() == 0 {
        Seq::empty()
    } else if streams_blocks(r.protocol) {
        stream_bytes(r.payloads, r.payloads.len())
    } else {
        chunk_bytes(0, r.payloads[0])
    }
}

/// The chunk at a place: its code, its payload and the place behind it.
pub open spec fn chunk_at(b: Seq<u8>, at: nat) -> Result<(u8, Seq<u8>, nat), Fault> {
    match framing::stream_length(b, at + 1) {
        Err(f) => Err(f),
        Ok((length, from)) => if length > isize::MAX {
            Err(Fault::InvalidData("response length exceeds the address space"@))
        } else {
            match framing::frames_from(b, from, length as nat, Seq::empty(), false) {
                Err(f) => Err(f),
                Ok((payload, end)) => Ok((b[at as int], payload, end)),
            }
        },
    }
}

/// The payloads of the successful chunks from a place on, behind those before.
pub open spec fn chunks_from(b: Seq<u8>, at: nat, before: Seq<Seq<u8>>) -> Result<
    Seq<Seq<u8>>,
    Fault,
>
    decreases b.len() - at,
{
    if at >= b.len() {
        Ok(before)
    } else {
        match chunk_at(b, at) {
            Err(f) => Err(f),
            Ok((code, payload, end)) => {
                let now = if code == 0 {
                    before.push(payload)
                } else {
                    before
                };
                if end <= at || end > b.len() {
                    Ok(now)
                } else {
                    chunks_from(b, end, now)
                }
            },
        }
    }
}

/// The message for an answer that is no success.
pub open spec fn refusal_text(code: u8, protocol: Seq<char>, detail: Seq<char>) -> Seq<char> {
    "non-success reqresp response code="@ + text::decimal(code as nat) + " protocol="@ + protocol
        + " detail="@ + detail
}

/// The response that a stream holds.
pub open spec fn response_read(protocol: Seq<char>, b: Seq<u8>) -> Result<ResponseFrame, Fault> {
    if streams_blocks(protocol) {
        match chunks_from(b, 0, Seq::empty()) {
            Err(f) => Err(f),
            Ok(payloads) => Ok(ResponseFrame { protocol, response_code: 0, payloads }),
        }
    } else if b.len() == 0 {
        Ok(ResponseFrame { protocol, response_code: 0, payloads: Seq::empty() })
    } else {
        match chunk_at(b, 0) {
            Err(f) => Err(f),
            Ok((code, payload, _)) => if code != 0 {
                Err(Fault::InvalidData(refusal_text(code, protocol, utf8_lossy(payload))))
            } else {
                Ok(ResponseFrame { protocol, response_code: 0, payloads: seq![payload] })
            },
        }
    }
}

/// The payloads that a response puts on the wire.
pub open spec fn sent_payloads(r: ResponseFrame) -> Seq<Seq<u8>> {
    if r.response_code != 0 {
        seq![
            if r.payloads.len() > 0 {
                r.payloads[0]
            } else {
                INVALID_REQUEST@
            },
        ]
    } else if r.payloads.len() == 0 || streams_blocks(r.protocol) {
        r.payloads
    } else {
        seq![r.payloads[0]]
    }
}

/// A payload whose frames read back chunk by chunk.
pub open spec fn carried(payload: Seq<u8>) -> bool {
    0 < payload.len() <= isize::MAX && framing::chunks_carry(framing::framed(payload), payload)
}

/// Payloads that are not empty and fit the address space.
pub open spec fn all_filled(payloads: Seq<Seq<u8>>) -> bool {
    forall|i: int| 0 <= i < payloads.len() ==> 0 < (#[trigger] payloads[i]).len() <= isize::MAX
}

/// What the reader of a written response gets: the payloads of a success; of a refusal
/// its message, or no payloads where the protocol streams blocks.
pub open spec fn reader_gets(r: ResponseFrame) -> Result<ResponseFrame, Fault> {
    let sent = sent_payloads(r);
    if r.response_code == 0 {
        Ok(ResponseFrame { protocol: r.protocol, response_code: 0, payloads: sent })
    } else if streams_blocks(r.protocol) {
        Ok(ResponseFrame { protocol: r.protocol, response_code: 0, payloads: Seq::empty() })
    } else {
        Err(Fault::InvalidData(refusal_text(r.response_code, r.protocol, utf8_lossy(sent[0]))))
    }
}

/// A chunk inside a stream reads as it was written.
proof fn lemma_chunk_inside(code: u8, payload: Seq<u8>, b: Seq<u8>, at: nat)
    requires
        carried(payload),
        at + chunk_bytes(code, payload).len() <= b.len(),
        b.subrange(at as int, at as int + chunk_bytes(code, payload).len()) == chunk_bytes(
            code,
            payload,
        ),
    ensures
        chunk_at(b, at) == Ok::<(u8, Seq<u8>, nat), Fault>(
            (code, payload, at + chunk_bytes(code, payload).len()),
        ),
{
    let chunk = chunk_bytes(code, payload);
    let length = framing::varint(payload.len());
    let frames = framing::framed(payload);
    let part = b.subrange(at as int, at as int + chunk.len());
    let from = at + 1 + length.len();
    assert(part[0] == b[at as int]);
    assert(b.subrange(at as int + 1, from as int) =~= length) by {
        assert forall|k: int| 0 <= k < length.len() implies b[at + 1 + k] == length[k] by {
            assert(part[1 + k] == chunk[1 + k]);
        }
    }
    framing::lemma_length_inside(payload.len() as usize, b, at + 1);
    assert(b.subrange(from as int, from as int + frames.len()) =~= frames) by {
        assert forall|k: int| 0 <= k < frames.len() implies b[from + k] == frames[k] by {
            assert(part[1 + length.len() + k] == chunk[1 + length.len() + k]);
        }
    }
    framing::lemma_frames_inside(frames, 0, b, from, payload.len(), Seq::empty(), false);
}

/// The first payloads stand at the start of the stream.
proof fn lemma_stream_start(payloads: Seq<Seq<u8>>, j: nat, k: nat)
    requires
        j <= k,
    ensures
        stream_bytes(payloads, j).len() <= stream_bytes(payloads, k).len(),
        stream_bytes(payloads, k).take(stream_bytes(payloads, j).len() as int) == stream_bytes(
            payloads,
            j,
        ),
    decreases k,
{
    if j < k {
        lemma_stream_start(payloads, j, (k - 1) as nat);
        let before = stream_bytes(payloads, (k - 1) as nat);
        let n = stream_bytes(payloads, j).len() as int;
        assert(stream_bytes(payloads, k).take(n) =~= before.take(n));
    } else {
        assert(stream_bytes(payloads, k).take(stream_bytes(payloads, k).len() as int)
            =~= stream_bytes(payloads, k));
    }
}

/// From the place behind the first payloads on, the others are read.
proof fn lemma_stream_reads(payloads: Seq<Seq<u8>>, j: nat)
    requires
        j <= payloads.len(),
        forall|i: int| 0 <= i < payloads.len() ==> carried(#[trigger] payloads[i]),
    ensures
        chunks_from(
            stream_bytes(payloads, payloads.len()),
            stream_bytes(payloads, j).len(),
            payloads.take(j as int),
        ) == Ok::<Seq<Seq<u8>>, Fault>(payloads),
    decreases payloads.len() - j,
{
    let all = stream_bytes(payloads, payloads.len());
    let at = stream_bytes(payloads, j).len();
    if j == payloads.len() {
        assert(payloads.take(j as int) =~= payloads);
    } else {
        let chunk = chunk_bytes(0, payloads[j as int]);
        lemma_stream_start(payloads, j, payloads.len());
        lemma_stream_start(payloads, j + 1, payloads.len());
        let next = stream_bytes(payloads, j + 1);
        assert(next == stream_bytes(payloads, j) + chunk);
        assert(all.subrange(at as int, at as int + chunk.len()) =~= chunk) by {
            assert forall|k: int| 0 <= k < chunk.len() implies all[at + k] == chunk[k] by {
                assert(all.take(next.len() as int)[at + k] == next[at + k]);
            }
        }
        lemma_chunk_inside(0, payloads[j as int], all, at);
        assert(payloads.take(j as int).push(payloads[j as int]) =~= payloads.take(j as int + 1));
        lemma_stream_reads(payloads, j + 1);
    }
}

/// What was written is read back, where every payload on the wire is carried.
proof fn lemma_response_reads_back(r: ResponseFrame)
    requires
        forall|i: int|
            0 <= i < sent_payloads(r).len() ==> carried(#[trigger] sent_payloads(r)[i]),
    ensures
        response_read(r.protocol, response_bytes(r)) == reader_gets(r),
{
    let sent = sent_payloads(r);
    let b = response_bytes(r);
    if r.response_code == 0 && r.payloads.len() == 0 {
        assert(sent =~= Seq::empty());
    } else if r.response_code == 0 && streams_blocks(r.protocol) {
        lemma_stream_reads(r.payloads, 0);
        assert(r.payloads.take(0) =~= Seq::empty());
    } else {
        assert(carried(sent[0]));
        let chunk = chunk_bytes(r.response_code, sent[0]);
        assert(b == chunk);
        assert(b.subrange(0, 0 + chunk.len() as int) =~= chunk);
        lemma_chunk_inside(r.response_code, sent[0], b, 0);
        assert(chunks_from(b, b.len(), Seq::empty()) == Ok::<Seq<Seq<u8>>, Fault>(Seq::empty()));
    }
}

/// Writes a response chunk. Its length and its payload can be read back.
pub fn response_chunk(code: u8, payload: &[u8]) -> (r: Result<Vec<u8>, String>)
    ensures
        r matches Ok(v) && v@ == chunk_bytes(code, payload@) && v@[0] == code
            && framing::leading_length(v@.skip(1)) == Ok::<(usize, nat), Fault>(
            (payload@.len() as usize, framing::varint(payload@.len()).len()),
        ) && framing::frames_read(
            v@.skip(1 + framing::varint(payload@.len()).len() as int),
            payload@.len(),
        ) == Ok::<Seq<u8>, Fault>(payload@),
        0 < payload@.len() <= isize::MAX ==> carried(payload@),
{
    let mut out: Vec<u8> = Vec::new();
    out.push(code);
    framing::encode_uvi_len(payload.len(), &mut out);
    match framing::frame_encode(payload) {
        Err(e) => Err(e),
        Ok(frames) => {
            ssz::put_bytes(&mut out, frames.as_slice());
            proof {
                let n = payload@.len();
                assert(out@ =~= chunk_bytes(code, payload@));
                assert(out@.skip(1) =~= framing::varint(n) + framing::framed(payload@));
                framing::law_length_reads_back(n as usize, framing::framed(payload@));
                assert(out@.skip(1 + framing::varint(n).len() as int) =~= framing::framed(
                    payload@,
                ));
            }
            Ok(out)
        },
    }
}

impl LeanReqRespCodec {
    /// Writes a request. It can be read back.
    pub fn write_request(&self, payload: &[u8]) -> (r: Result<Vec<u8>, String>)
        ensures
            r matches Ok(v) && v@ == request_bytes(payload@) && (payload@.len() <= isize::MAX
                ==> request_payload(v@) == Ok::<Seq<u8>, Fault>(payload@)),
    {
        let mut out: Vec<u8> = Vec::new();
        framing::encode_uvi_len(payload.len(), &mut out);
        match framing::frame_encode(payload) {
            Err(e) => Err(e),
            Ok(frames) => {
                ssz::put_bytes(&mut out, frames.as_slice());
                proof {
                    let n = payload@.len();
                    assert(out@ =~= request_bytes(payload@));
                    framing::law_length_reads_back(n as usize, framing::framed(payload@));
                    assert(out@.skip(framing::varint(n).len() as int) =~= framing::framed(
                        payload@,
                    ));
                }
                Ok(out)
            },
        }
    }

    /// Reads a request.
    pub fn read_request(&self, protocol: &LeanReqRespProtocol, buf: &[u8]) -> (r: Result<
        LeanRequest,
        FrameFault,
    >)
        ensures
            match r {
                Ok(q) => q@.protocol == protocol.0@ && request_payload(buf@) == Ok::<
                    Seq<u8>,
                    Fault,
                >(q@.payload),
                Err(f) => request_payload(buf@) == Err::<Seq<u8>, Fault>(f@),
            },
    {
        let (length, n) = match framing::decode_uvi_len(buf) {
            Ok(v) => v,
            Err(f) => {
                return Err(f);
            },
        };
        if length > isize::MAX as usize {
            return Err(
                FrameFault::InvalidData("request length exceeds the address space".to_string()),
            );
        }
        let frames = slice_subrange(buf, n, buf.len());
        assert(frames@ =~= buf@.skip(n as int));
        match framing::snappy_frame_decompress(frames, length) {
            Ok(payload) => Ok(LeanRequest { protocol: protocol.0.clone(), payload }),
            Err(f) => Err(f),
        }
    }

    /// Writes a response. Its reader gets the payloads back, unless one of them is empty:
    /// a chunk without frames cannot be read.
    pub fn write_response(&self, response: &LeanResponse) -> (r: Result<Vec<u8>, String>)
        ensures
            r matches Ok(v) && v@ == response_bytes(response@) && (all_filled(
                sent_payloads(response@),
            ) ==> response_read(response@.protocol, v@) == reader_gets(response@)),
    {
        let ghost sent = sent_payloads(response@);
        if response.response_code != 0 {
            let refusal = invalid_request();
            let chunk = if response.payloads.len() > 0 {
                response_chunk(response.response_code, response.payloads[0].as_slice())
            } else {
                response_chunk(response.response_code, refusal.as_slice())
            };
            proof {
                if all_filled(sent) {
                    assert(0 < sent[0].len() <= isize::MAX);
                    lemma_response_reads_back(response@);
                }
            }
            return chunk;
        }
        if response.payloads.len() == 0 {
            let none: Vec<u8> = Vec::new();
            assert(none@ =~= Seq::<u8>::empty());
            proof {
                lemma_response_reads_back(response@);
            }
            return Ok(none);
        }
        if !is_streaming(response.protocol.as_str()) {
            let chunk = response_chunk(0, response.payloads[0].as_slice());
            proof {
                if all_filled(sent) {
                    assert(0 < sent[0].len() <= isize::MAX);
                    lemma_response_reads_back(response@);
                }
            }
            return chunk;
        }
        let mut out: Vec<u8> = Vec::new();
        let mut i: usize = 0;
        assert(out@ =~= Seq::<u8>::empty());
        while i < response.payloads.len()
            invariant
                i <= response.payloads@.len(),
                out@ == stream_bytes(response@.payloads, i as nat),
                forall|j: int|
                    0 <= j < i && 0 < (#[trigger] response@.payloads[j]).len() <= isize::MAX
                        ==> carried(response@.payloads[j]),
            decreases response.payloads@.len() - i,
        {
            match response_chunk(0, response.payloads[i].as_slice()) {
                Ok(chunk) => ssz::put_bytes(&mut out, chunk.as_slice()),
                Err(e) => {
                    return Err(e);
                },
            }
            i = i + 1;
        }
        proof {
            if all_filled(sent) {
                lemma_response_reads_back(response@);
            }
        }
        Ok(out)
    }

    /// Reads the chunk at a place.
    pub fn read_response_chunk(&self, b: &[u8], at: usize) -> (r: Result<
        (u8, Vec<u8>, usize),
        FrameFault,
    >)
        requires
            at < b@.len(),
        ensures
            match r {
                Ok((code, payload, end)) => chunk_at(b@, at as nat) == Ok::<
                    (u8, Seq<u8>, nat),
                    Fault,
                >((code, payload@, end as nat)) && at < end <= b@.len(),
                Err(f) => chunk_at(b@, at as nat) == Err::<(u8, Seq<u8>, nat), Fault>(f@),
            },
    {
        let n: usize = b.len();
        assert(at + 1 <= n);
        let (length, from) = match framing::read_stream_length(b, at + 1) {
            Ok(v) => v,
            Err(f) => {
                return Err(f);
            },
        };
        if length > isize::MAX as usize {
            return Err(
                FrameFault::InvalidData("response length exceeds the address space".to_string()),
            );
        }
        match framing::read_snappy_frame_exact(b, from, length) {
            Ok((payload, end)) => Ok((b[at], payload, end)),
            Err(f) => Err(f),
        }
    }

    /// Reads a response.
    pub fn read_response(&self, protocol: &LeanReqRespProtocol, b: &[u8]) -> (r: Result<
        LeanResponse,
        FrameFault,
    >)
        ensures
            match r {
                Ok(v) => response_read(protocol.0@, b@) == Ok::<ResponseFrame, Fault>(v@),
                Err(f) => response_read(protocol.0@, b@) == Err::<ResponseFrame, Fault>(f@),
            },
    {
        let mut payloads: Vec<Vec<u8>> = Vec::new();
        assert(rows(payloads@) =~= Seq::empty());
        if is_streaming(protocol.0.as_str()) {
            let mut at: usize = 0;
            while at < b.len()
                invariant
                    at <= b@.len(),
                    streams_blocks(protocol.0@),
                    chunks_from(b@, at as nat, rows(payloads@)) == chunks_from(
                        b@,
                        0,
                        Seq::empty(),
                    ),
                decreases b@.len() - at,
            {
                let (code, payload, end) = match self.read_response_chunk(b, at) {
                    Ok(v) => v,
                    Err(f) => {
                        return Err(f);
                    },
                };
                if code == 0 {
                    proof {
                        lemma_rows_push(payloads@, payload);
                    }
                    payloads.push(payload);
                }
                at = end;
            }
            return Ok(LeanResponse { protocol: protocol.0.clone(), response_code: 0, payloads });
        }
        if b.len() == 0 {
            return Ok(LeanResponse { protocol: protocol.0.clone(), response_code: 0, payloads });
        }
        let (code, payload, _end) = match self.read_response_chunk(b, 0) {
            Ok(v) => v,
            Err(f) => {
                return Err(f);
            },
        };
        if code != 0 {
            let detail = lossy_text(payload.as_slice());
            let mut s: String = "non-success reqresp response code=".to_string();
            s.append(text::decimal_string(code as u64).as_str());
            s.append(" protocol=");
            s.append(protocol.0.as_str());
            s.append(" detail=");
            s.append(detail.as_str());
            return Err(FrameFault::InvalidData(s));
        }
        payloads.push(payload);
        assert(rows(payloads@) =~= seq![payload@]);
        Ok(LeanResponse { protocol: protocol.0.clone(), response_code: 0, payloads })
    }
}

} // verus!
