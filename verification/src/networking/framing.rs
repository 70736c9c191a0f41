//! Length prefixes and snappy frames of requests and responses.
//!
//! A request is `varint(length) || snappy frames`. A response chunk is
//! `code || varint(length) || snappy frames`.

use std::io::{Cursor, ErrorKind, Read, Write};

use snap::raw::{decompress_len, Decoder, Encoder};
use snap::read::FrameDecoder;
use snap::write::FrameEncoder;
use vstd::arithmetic::power2;
use vstd::bits;
use vstd::prelude::*;
use vstd::slice::slice_subrange;
use vstd::string::StringExecFns;

use crate::ssz;

verus! {

/// What `snap::raw::decompress_len` gives: the length that a raw snappy block
/// announces, or the message of its error.
pub uninterp spec fn raw_length(block: Seq<u8>) -> Result<usize, Seq<char>>;

/// What `snap::raw::Decoder::decompress_vec` gives: the contents of a raw snappy
/// block, or the message of its error.
pub uninterp spec fn raw_contents(block: Seq<u8>) -> Result<Seq<u8>, Seq<char>>;

/// What `snap::raw::Encoder::compress_vec` gives: a raw snappy block with the
/// given contents, or the message of its error.
pub uninterp spec fn raw_block(contents: Seq<u8>) -> Result<Seq<u8>, Seq<char>>;

/// What `snap::write::FrameEncoder` writes for the given contents.
pub uninterp spec fn framed(contents: Seq<u8>) -> Seq<u8>;

/// What reading the given number of bytes from a `snap::read::FrameDecoder` over
/// the frames gives. An error is given as whether it is of the kind
/// `ErrorKind::UnexpectedEof`, and its message.
pub uninterp spec fn unframed(frames: Seq<u8>, length: nat) -> Result<
    Seq<u8>,
    (bool, Seq<char>),
>;

/// A raw block announces `length` bytes.
pub open spec fn announces(block: Seq<u8>, length: usize) -> bool {
    raw_length(block) == Ok::<usize, Seq<char>>(length)
}

/// A raw block decompresses to the given contents.
pub open spec fn holds(block: Seq<u8>, contents: Seq<u8>) -> bool {
    raw_contents(block) == Ok::<Seq<u8>, Seq<char>>(contents)
}

/// Frames read back as the given contents.
pub open spec fn carries(frames: Seq<u8>, contents: Seq<u8>) -> bool {
    unframed(frames, contents.len()) == Ok::<Seq<u8>, (bool, Seq<char>)>(contents)
}

/// `snap::raw::decompress_len`.
#[verifier::external_body]
pub(crate) fn snappy_raw_length(block: &[u8]) -> (r: Result<usize, String>)
    ensures
        ssz::plain_outcome(r) == raw_length(block@),
{
    decompress_len(block).map_err(|e| e.to_string())
}

/// `snap::raw::Decoder::decompress_vec`, which makes room for the announced length
/// first. The contents have the announced length.
#[verifier::external_body]
pub(crate) fn snappy_raw_decompress(block: &[u8]) -> (r: Result<Vec<u8>, String>)
    requires
        raw_length(block@) matches Ok(n) ==> n <= isize::MAX,
    ensures
        ssz::view_outcome(r) == raw_contents(block@),
        r matches Ok(v) ==> announces(block@, v@.len() as usize),
{
    Decoder::new().decompress_vec(block).map_err(|e| e.to_string())
}

/// `snap::raw::Encoder::compress_vec`. Decompressing the block gives the contents
/// back.
#[verifier::external_body]
pub(crate) fn snappy_raw_compress(contents: &[u8]) -> (r: Result<Vec<u8>, String>)
    ensures
        ssz::view_outcome(r) == raw_block(contents@),
        r matches Ok(v) ==> holds(v@, contents@) && announces(v@, contents@.len() as usize),
{
    Encoder::new().compress_vec(contents).map_err(|e| e.to_string())
}

/// `snap::write::FrameEncoder` over a vector, which takes every write. Reading
/// the frames gives the contents back. Contents that are not empty become the stream
/// identifier and then one chunk for each block of them, compressed or as it is,
/// behind its checksum: read chunk by chunk, they give the contents back too.
#[verifier::external_body]
pub(crate) fn frame_encode(contents: &[u8]) -> (r: Result<Vec<u8>, String>)
    ensures
        r is Ok,
        r->Ok_0@ == framed(contents@),
        carries(r->Ok_0@, contents@),
        contents@.len() > 0 ==> chunks_carry(r->Ok_0@, contents@),
{
    let mut encoder = FrameEncoder::new(Vec::new());
    encoder.write_all(contents).map_err(|e| e.to_string())?;
    encoder.flush().map_err(|e| e.to_string())?;
    Ok(encoder.get_ref().clone())
}

/// `snap::read::FrameDecoder` over the frames, asked for `length` bytes. What is
/// read has that length. An error is handed on as whether the frames ended too early,
/// and its message.
#[verifier::external_body]
pub(crate) fn frame_decode(frames: &[u8], length: usize) -> (r: Result<Vec<u8>, (bool, String)>)
    requires
        length <= isize::MAX,
    ensures
        match r {
            Ok(v) => unframed(frames@, length as nat) == Ok::<Seq<u8>, (bool, Seq<char>)>(v@)
                && v@.len() == length,
            Err(e) => unframed(frames@, length as nat) == Err::<Seq<u8>, (bool, Seq<char>)>(
                (e.0, e.1@),
            ),
        },
{
    let mut decoder = FrameDecoder::new(Cursor::new(frames));
    let mut out = vec![0u8; length];
    match decoder.read_exact(&mut out) {
        Ok(()) => Ok(out),
        Err(e) => Err((e.kind() == ErrorKind::UnexpectedEof, e.to_string())),
    }
}

/// Compresses a payload into snappy frames. Reading the frames gives the payload back.
pub fn snappy_frame_compress(payload: &[u8]) -> (r: Result<Vec<u8>, String>)
    ensures
        r is Ok,
        r->Ok_0@ == framed(payload@),
        carries(r->Ok_0@, payload@),
{
    frame_encode(payload)
}

/// What reading the given number of bytes from snappy frames gives.
pub open spec fn frames_read(frames: Seq<u8>, length: nat) -> Result<Seq<u8>, Fault> {
    match unframed(frames, length) {
        Ok(contents) => Ok(contents),
        Err((true, message)) => Err(Fault::UnexpectedEof(message)),
        Err((false, message)) => Err(Fault::Other(message)),
    }
}

/// The value of what was read.
pub open spec fn read_outcome(r: Result<Vec<u8>, FrameFault>) -> Result<Seq<u8>, Fault> {
    match r {
        Ok(v) => Ok(v@),
        Err(f) => Err(f@),
    }
}

/// Reads `expected_len` bytes from snappy frames.
pub fn snappy_frame_decompress(payload: &[u8], expected_len: usize) -> (r: Result<
    Vec<u8>,
    FrameFault,
>)
    requires
        expected_len <= isize::MAX,
    ensures
        read_outcome(r) == frames_read(payload@, expected_len as nat),
        r matches Ok(v) ==> v@.len() == expected_len,
{
    match frame_decode(payload, expected_len) {
        Ok(v) => Ok(v),
        Err((ended, message)) => {
            if ended {
                Err(FrameFault::UnexpectedEof(message))
            } else {
                Err(FrameFault::Other(message))
            }
        },
    }
}

/// Why a message could not be read.
#[derive(Clone, Debug, PartialEq, Eq)]
pub enum FrameFault {
    /// The bytes are not what they should be.
    InvalidData(String),
    /// The bytes end too early.
    UnexpectedEof(String),
    /// The decoder refuses the bytes.
    Other(String),
}

/// The value of a [`FrameFault`].
#[verifier::ext_equal]
pub enum Fault {
    /// The bytes are not what they should be.
    InvalidData(Seq<char>),
    /// The bytes end too early.
    UnexpectedEof(Seq<char>),
    /// The decoder refuses the bytes.
    Other(Seq<char>),
}

impl View for FrameFault {
    type V = Fault;

    open spec fn view(&self) -> Fault {
        match *self {
            FrameFault::InvalidData(s) => Fault::InvalidData(s@),
            FrameFault::UnexpectedEof(s) => Fault::UnexpectedEof(s@),
            FrameFault::Other(s) => Fault::Other(s@),
        }
    }
}

/// The fault of bytes that end too early.
pub open spec fn cut_off() -> Fault {
    Fault::UnexpectedEof("unexpected end of file"@)
}

fn cut_off_fault() -> (r: FrameFault)
    ensures
        r@ == cut_off(),
{
    FrameFault::UnexpectedEof("unexpected end of file".to_string())
}

fn invalid(message: &str) -> (r: FrameFault)
    ensures
        r@ == Fault::InvalidData(message@),
{
    FrameFault::InvalidData(message.to_string())
}

// ---------------------------------------------------------------------------
// Varints
// ---------------------------------------------------------------------------

/// A number in seven-bit groups, the low group first; every byte but the last
/// has its top bit set.
pub open spec fn varint(n: nat) -> Seq<u8>
    decreases n,
{
    if n < 128 {
        seq![n as u8]
    } else {
        seq![(n % 128 + 128) as u8] + varint(n / 128)
    }
}

/// Appends a length as a varint.
pub fn encode_uvi_len(value: usize, out: &mut Vec<u8>)
    ensures
        final(out)@ == old(out)@ + varint(value as nat),
{
    let mut rest: usize = value;
    let ghost before = out@;
    while rest >= 128
        invariant
            out@ + varint(rest as nat) == before + varint(value as nat),
        decreases rest,
    {
        let ghost here = out@;
        out.push((rest % 128 + 128) as u8);
        assert(out@ + varint((rest / 128) as nat) =~= here + varint(rest as nat));
        rest = rest / 128;
    }
    let ghost here = out@;
    out.push(rest as u8);
    assert(out@ =~= here + varint(rest as nat));
}

/// Reads the groups of a varint from place `i` on, at most `left` of them, onto
/// what the groups before gave. The answer is the number and the place behind it.
pub open spec fn varint_from(
    b: Seq<u8>,
    i: nat,
    left: nat,
    value: usize,
    shift: nat,
    ended: Fault,
) -> Result<(usize, nat), Fault>
    decreases left,
{
    if left == 0 {
        Err(Fault::InvalidData("varint length too long"@))
    } else if i >= b.len() {
        Err(ended)
    } else if shift >= usize::BITS {
        Err(Fault::InvalidData("invalid varint length"@))
    } else {
        let group = ((b[i as int] % 128) as usize) << (shift as usize);
        if value + group > usize::MAX {
            Err(Fault::InvalidData("varint length overflow"@))
        } else if b[i as int] < 128 {
            Ok(((value + group) as usize, i + 1))
        } else {
            varint_from(b, i + 1, (left - 1) as nat, (value + group) as usize, shift + 7, ended)
        }
    }
}

/// The length that a buffer starts with, and how many bytes it takes.
pub open spec fn leading_length(b: Seq<u8>) -> Result<(usize, nat), Fault> {
    varint_from(b, 0, b.len() + 1, 0, 0, Fault::UnexpectedEof("incomplete varint length"@))
}

/// The length at a place in a stream, of at most ten bytes, and the place behind
/// it.
pub open spec fn stream_length(b: Seq<u8>, at: nat) -> Result<(usize, nat), Fault> {
    varint_from(b, at, 10, 0, 0, cut_off())
}

/// How many groups may be read: as many as there are where there is no limit.
pub open spec fn group_limit(b: Seq<u8>, limit: Option<usize>) -> nat {
    match limit {
        Some(n) => n as nat,
        None => b.len() + 1,
    }
}

fn read_varint(b: &[u8], at: usize, limit: Option<usize>, ended: FrameFault) -> (r: Result<
    (usize, usize),
    FrameFault,
>)
    requires
        at <= b@.len(),
    ensures
        match r {
            Ok((v, end)) => varint_from(
                b@,
                at as nat,
                group_limit(b@, limit),
                0,
                0,
                ended@,
            ) == Ok::<(usize, nat), Fault>((v, end as nat)) && at < end <= b@.len(),
            Err(f) => varint_from(b@, at as nat, group_limit(b@, limit), 0, 0, ended@) == Err::<
                (usize, nat),
                Fault,
            >(f@),
        },
{
    let mut i: usize = at;
    let mut value: usize = 0;
    let mut shift: usize = 0;
    let ghost total = group_limit(b@, limit);
    loop
        invariant
            at <= i <= b@.len(),
            total == group_limit(b@, limit),
            i - at <= total,
            shift <= usize::BITS + 6,
            varint_from(b@, i as nat, (total - (i - at)) as nat, value, shift as nat, ended@)
                == varint_from(b@, at as nat, total, 0, 0, ended@),
        decreases total - (i - at),
    {
        if let Some(n) = limit {
            if i - at >= n {
                return Err(invalid("varint length too long"));
            }
        }
        if i >= b.len() {
            return Err(ended);
        }
        if shift >= usize::BITS as usize {
            return Err(invalid("invalid varint length"));
        }
        let byte: u8 = b[i];
        let group: usize = ((byte % 128) as usize) << shift;
        if group > usize::MAX - value {
            return Err(invalid("varint length overflow"));
        }
        value = value + group;
        if byte < 128 {
            return Ok((value, i + 1));
        }
        i = i + 1;
        shift = shift + 7;
    }
}

/// Reads the length that a buffer starts with.
pub fn decode_uvi_len(buf: &[u8]) -> (r: Result<(usize, usize), FrameFault>)
    ensures
        match r {
            Ok((v, n)) => leading_length(buf@) == Ok::<(usize, nat), Fault>((v, n as nat)) && n
                <= buf@.len(),
            Err(f) => leading_length(buf@) == Err::<(usize, nat), Fault>(f@),
        },
{
    let ended = FrameFault::UnexpectedEof("incomplete varint length".to_string());
    read_varint(buf, 0, None, ended)
}

/// Reads the length at a place in a stream.
pub fn read_stream_length(b: &[u8], at: usize) -> (r: Result<(usize, usize), FrameFault>)
    requires
        at <= b@.len(),
    ensures
        match r {
            Ok((v, end)) => stream_length(b@, at as nat) == Ok::<(usize, nat), Fault>(
                (v, end as nat),
            ) && at < end <= b@.len(),
            Err(f) => stream_length(b@, at as nat) == Err::<(usize, nat), Fault>(f@),
        },
{
    read_varint(b, at, Some(10), cut_off_fault())
}

/// Reading the groups of a number back gives the number, whatever follows.
proof fn lemma_varint_from(
    b: Seq<u8>,
    i: nat,
    left: nat,
    value: usize,
    shift: nat,
    n: nat,
    ended: Fault,
)
    requires
        i + varint(n).len() <= b.len(),
        b.subrange(i as int, i as int + varint(n).len()) == varint(n),
        left >= varint(n).len(),
        value + n * power2::pow2(shift) <= usize::MAX,
        n > 0 || shift < usize::BITS,
    ensures
        varint_from(b, i, left, value, shift, ended) == Ok::<(usize, nat), Fault>(
            ((value + n * power2::pow2(shift)) as usize, i + varint(n).len()),
        ),
    decreases n,
{
    let v = varint(n);
    let low = n % 128;
    lemma_varint_len(n);
    assert(b[i as int] == v[0]) by {
        assert(b.subrange(i as int, i as int + v.len())[0] == b[i as int]);
    }
    power2::lemma_pow2_pos(shift);
    if n > 0 && shift >= usize::BITS {
        lemma_pow2_at_least(shift);
        assert(n * power2::pow2(shift) >= power2::pow2(shift)) by (nonlinear_arith)
            requires
                n > 0,
                power2::pow2(shift) > 0,
        ;
        assert(false);
    }
    assert(low * power2::pow2(shift) <= n * power2::pow2(shift)) by (nonlinear_arith)
        requires
            low <= n,
            power2::pow2(shift) > 0,
    ;
    bits::lemma_usize_shl_is_mul(low as usize, shift as usize);
    if n < 128 {
        assert(low == n);
        assert(v[0] == n as u8);
        assert(b[i as int] % 128 == n);
    } else {
        assert(v[0] == (low + 128) as u8);
        assert(b[i as int] % 128 == low);
        let rest = n / 128;
        power2::lemma_pow2_adds(shift, 7);
        power2::lemma2_to64();
        assert(low * power2::pow2(shift) + rest * power2::pow2(shift + 7) == n * power2::pow2(shift)) by (nonlinear_arith)
            requires
                n == 128 * rest + low,
                power2::pow2(shift + 7) == power2::pow2(shift) * 128,
        ;
        assert(b.subrange(i as int + 1, i as int + 1 + varint(rest).len()) =~= varint(rest)) by {
            assert forall|k: int| 0 <= k < varint(rest).len() implies b[i + 1 + k] == varint(
                rest,
            )[k] by {
                assert(b.subrange(i as int, i as int + v.len())[k + 1] == v[k + 1]);
            }
        }
        lemma_varint_from(
            b,
            i + 1,
            (left - 1) as nat,
            (value + low * power2::pow2(shift)) as usize,
            shift + 7,
            rest,
            ended,
        );
    }
}

/// A varint holds at least one byte.
proof fn lemma_varint_len(n: nat)
    ensures
        varint(n).len() > 0,
        n >= 128 ==> varint(n).len() == varint(n / 128).len() + 1,
{
}

/// Powers of two from the width of a length on exceed every length.
proof fn lemma_pow2_at_least(e: nat)
    requires
        e >= usize::BITS,
    ensures
        power2::pow2(e) > usize::MAX,
{
    power2::lemma2_to64();
    power2::lemma2_to64_rest();
    if e > usize::BITS {
        power2::lemma_pow2_strictly_increases(usize::BITS as nat, e);
    }
}

/// A length's varint takes no more than the limit of ten bytes.
proof fn lemma_varint_fits(n: nat)
    requires
        n <= u64::MAX,
    ensures
        varint(n).len() <= 10,
{
    reveal_with_fuel(varint, 11);
}

/// A length inside a stream reads as it was written.
pub proof fn lemma_length_inside(n: usize, b: Seq<u8>, at: nat)
    requires
        at + varint(n as nat).len() <= b.len(),
        b.subrange(at as int, at as int + varint(n as nat).len()) == varint(n as nat),
    ensures
        stream_length(b, at) == Ok::<(usize, nat), Fault>((n, at + varint(n as nat).len())),
{
    power2::lemma2_to64();
    lemma_varint_fits(n as nat);
    assert(n * power2::pow2(0) == n) by (nonlinear_arith)
        requires
            power2::pow2(0) == 1,
    ;
    lemma_varint_from(b, at, 10, 0, 0, n as nat, cut_off());
}

/// A length that was written is read back, in as many bytes as were written,
/// whatever follows it.
pub proof fn law_length_reads_back(n: usize, rest: Seq<u8>)
    ensures
        leading_length(varint(n as nat) + rest) == Ok::<(usize, nat), Fault>(
            (n, varint(n as nat).len()),
        ),
        stream_length(varint(n as nat) + rest, 0) == Ok::<(usize, nat), Fault>(
            (n, varint(n as nat).len()),
        ),
{
    let b = varint(n as nat) + rest;
    power2::lemma2_to64();
    lemma_varint_fits(n as nat);
    assert(b.subrange(0, varint(n as nat).len() as int) =~= varint(n as nat));
    assert(n * power2::pow2(0) == n) by (nonlinear_arith)
        requires
            power2::pow2(0) == 1,
    ;
    lemma_varint_from(
        b,
        0,
        b.len() + 1,
        0,
        0,
        n as nat,
        Fault::UnexpectedEof("incomplete varint length"@),
    );
    lemma_length_inside(n, b, 0);
}

// ---------------------------------------------------------------------------
// Snappy frames, chunk by chunk
// ---------------------------------------------------------------------------

/// The message for contents that outgrow their announced length.
pub open spec fn too_long() -> Fault {
    Fault::InvalidData("snappy output exceeds expected length"@)
}

/// What a non-empty chunk adds to the contents read so far.
pub open spec fn chunk_added(
    out: Seq<u8>,
    expected: nat,
    kind: u8,
    chunk: Seq<u8>,
) -> Result<Seq<u8>, Fault> {
    if kind == 0 {
        compressed_added(out, expected, chunk)
    } else if kind == 1 {
        if chunk.len() < 4 {
            Err(Fault::InvalidData("snappy uncompressed chunk too short"@))
        } else if out.len() + chunk.len() - 4 > expected {
            Err(too_long())
        } else {
            Ok(out + chunk.skip(4))
        }
    } else if kind <= 0x7f {
        Err(Fault::InvalidData("snappy reserved unskippable chunk"@))
    } else {
        Ok(out)
    }
}

/// What a compressed chunk adds: the contents of the block behind its checksum.
pub open spec fn compressed_added(out: Seq<u8>, expected: nat, chunk: Seq<u8>) -> Result<
    Seq<u8>,
    Fault,
> {
    if chunk.len() < 4 {
        Err(Fault::InvalidData("snappy compressed chunk too short"@))
    } else {
        match raw_length(chunk.skip(4)) {
            Err(e) => Err(Fault::InvalidData("snappy length decode failed: "@ + e)),
            Ok(n) => if out.len() + n > expected {
                Err(too_long())
            } else {
                match raw_contents(chunk.skip(4)) {
                    Err(e) => Err(Fault::InvalidData("snappy decompress failed: "@ + e)),
                    Ok(contents) => Ok(out + contents),
                }
            },
        }
    }
}

/// The length in a chunk's header at a place.
pub open spec fn chunk_length(b: Seq<u8>, at: nat) -> nat {
    (b[at as int + 1] + 256 * b[at as int + 2] + 65536 * b[at as int + 3]) as nat
}

/// Reads chunks from a place on until the contents have their length; at least
/// one chunk is read. The answer is the contents and the place behind the chunks.
pub open spec fn frames_from(
    b: Seq<u8>,
    at: nat,
    expected: nat,
    out: Seq<u8>,
    started: bool,
) -> Result<(Seq<u8>, nat), Fault>
    decreases b.len() - at,
{
    if started && out.len() >= expected {
        Ok((out, at))
    } else if at + 4 > b.len() || at + 4 + chunk_length(b, at) > b.len() {
        Err(cut_off())
    } else {
        let end = at + 4 + chunk_length(b, at);
        let chunk = b.subrange(at as int + 4, end as int);
        if chunk.len() == 0 {
            frames_from(b, end, expected, out, true)
        } else {
            match chunk_added(out, expected, b[at as int], chunk) {
                Err(f) => Err(f),
                Ok(more) => frames_from(b, end, expected, more, true),
            }
        }
    }
}

/// Frames that, read chunk by chunk, give the contents and nothing more.
pub open spec fn chunks_carry(frames: Seq<u8>, contents: Seq<u8>) -> bool {
    frames_from(frames, 0, contents.len(), Seq::empty(), false) == Ok::<(Seq<u8>, nat), Fault>(
        (contents, frames.len()),
    )
}

/// Frames inside a stream read as they do on their own.
pub proof fn lemma_frames_inside(
    frames: Seq<u8>,
    i: nat,
    b: Seq<u8>,
    at: nat,
    expected: nat,
    out: Seq<u8>,
    started: bool,
)
    requires
        at + frames.len() <= b.len(),
        b.subrange(at as int, at as int + frames.len()) == frames,
        i <= frames.len(),
        frames_from(frames, i, expected, out, started) is Ok,
    ensures
        ({
            let (contents, end) = frames_from(frames, i, expected, out, started)->Ok_0;
            frames_from(b, at + i, expected, out, started) == Ok::<(Seq<u8>, nat), Fault>(
                (contents, at + end),
            )
        }),
    decreases frames.len() - i,
{
    if !(started && out.len() >= expected) {
        let part = b.subrange(at as int, at as int + frames.len());
        let here = at as int + i;
        assert(part[i as int] == b[here]);
        assert(part[i as int + 1] == b[here + 1]);
        assert(part[i as int + 2] == b[here + 2]);
        assert(part[i as int + 3] == b[here + 3]);
        assert(chunk_length(b, at + i) == chunk_length(frames, i));
        let end = i + 4 + chunk_length(frames, i);
        let chunk = frames.subrange(i as int + 4, end as int);
        assert(b.subrange(here + 4, at as int + end) =~= chunk) by {
            assert forall|k: int| 0 <= k < chunk.len() implies b[here + 4 + k] == chunk[k] by {
                assert(part[i as int + 4 + k] == b[here + 4 + k]);
            }
        }
        if chunk.len() == 0 {
            lemma_frames_inside(frames, end, b, at, expected, out, true);
        } else {
            let more = chunk_added(out, expected, frames[i as int], chunk)->Ok_0;
            lemma_frames_inside(frames, end, b, at, expected, more, true);
        }
    }
}

/// Adds what a chunk's body holds to the contents read so far. On a fault the
/// contents stay as they were.
pub fn add_snappy_chunk(out: &mut Vec<u8>, expected_len: usize, kind: u8, chunk: &[u8]) -> (r:
    Result<(), FrameFault>)
    requires
        chunk@.len() > 0,
        old(out)@.len() <= expected_len <= isize::MAX,
    ensures
        match r {
            Ok(()) => chunk_added(old(out)@, expected_len as nat, kind, chunk@) == Ok::<
                Seq<u8>,
                Fault,
            >(final(out)@) && final(out)@.len() <= expected_len,
            Err(f) => chunk_added(old(out)@, expected_len as nat, kind, chunk@) == Err::<
                Seq<u8>,
                Fault,
            >(f@) && final(out)@ == old(out)@,
        },
{
    let room: usize = expected_len - out.len();
    if kind == 0 {
        if chunk.len() < 4 {
            return Err(invalid("snappy compressed chunk too short"));
        }
        let block = slice_subrange(chunk, 4, chunk.len());
        assert(block@ =~= chunk@.skip(4));
        let announced: usize = match snappy_raw_length(block) {
            Ok(n) => n,
            Err(e) => {
                let mut s: String = "snappy length decode failed: ".to_string();
                s.append(e.as_str());
                return Err(FrameFault::InvalidData(s));
            },
        };
        if announced > room {
            return Err(invalid("snappy output exceeds expected length"));
        }
        match snappy_raw_decompress(block) {
            Ok(contents) => {
                let n: usize = contents.len();
                assert(announces(block@, n));
                ssz::put_bytes(out, contents.as_slice());
                Ok(())
            },
            Err(e) => {
                let mut s: String = "snappy decompress failed: ".to_string();
                s.append(e.as_str());
                Err(FrameFault::InvalidData(s))
            },
        }
    } else if kind == 1 {
        if chunk.len() < 4 {
            return Err(invalid("snappy uncompressed chunk too short"));
        }
        if chunk.len() - 4 > room {
            return Err(invalid("snappy output exceeds expected length"));
        }
        let data = slice_subrange(chunk, 4, chunk.len());
        assert(data@ =~= chunk@.skip(4));
        ssz::put_bytes(out, data);
        Ok(())
    } else if kind <= 0x7f {
        Err(invalid("snappy reserved unskippable chunk"))
    } else {
        Ok(())
    }
}

/// Reads snappy frames at a place in a stream until `expected_len` bytes have
/// come out. The answer is the bytes and the place behind the frames.
pub fn read_snappy_frame_exact(b: &[u8], at: usize, expected_len: usize) -> (r: Result<
    (Vec<u8>, usize),
    FrameFault,
>)
    requires
        at <= b@.len(),
        expected_len <= isize::MAX,
    ensures
        match r {
            Ok((v, end)) => frames_from(b@, at as nat, expected_len as nat, Seq::empty(), false)
                == Ok::<(Seq<u8>, nat), Fault>((v@, end as nat)) && v@.len() == expected_len && at
                <= end <= b@.len(),
            Err(f) => frames_from(b@, at as nat, expected_len as nat, Seq::empty(), false)
                == Err::<(Seq<u8>, nat), Fault>(f@),
        },
{
    let mut out: Vec<u8> = Vec::new();
    let mut i: usize = at;
    let mut started: bool = false;
    assert(out@ =~= Seq::empty());
    while out.len() < expected_len || !started
        invariant
            at <= i <= b@.len(),
            out@.len() <= expected_len <= isize::MAX,
            frames_from(b@, i as nat, expected_len as nat, out@, started) == frames_from(
                b@,
                at as nat,
                expected_len as nat,
                Seq::empty(),
                false,
            ),
        decreases b@.len() - i,
    {
        if b.len() - i < 4 {
            return Err(cut_off_fault());
        }
        let len: usize = b[i + 1] as usize + 256 * b[i + 2] as usize + 65536 * b[i + 3] as usize;
        let body: usize = i + 4;
        if b.len() - body < len {
            return Err(cut_off_fault());
        }
        started = true;
        if len > 0 {
            let chunk = slice_subrange(b, body, body + len);
            match add_snappy_chunk(&mut out, expected_len, b[i], chunk) {
                Ok(()) => {},
                Err(f) => {
                    return Err(f);
                },
            }
        }
        i = body + len;
    }
    Ok((out, i))
}

} // verus!
