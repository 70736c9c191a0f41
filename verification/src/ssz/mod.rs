//! Serialization and tree hashing of wire values.
//!
//! A value is described by a model; its encoding, its decoding and its tree root are
//! functions of models. Offsets are four little-endian bytes.

pub mod hash;

use crate::types::bytes::Bytes32;
use vstd::prelude::*;

verus! {

/// A value that can be a list element.
pub trait SszElement: Sized {
    /// The mathematical value.
    type Model;

    /// The mathematical value that `self` represents.
    spec fn model(&self) -> Self::Model;

    /// The length of every encoding, or 0 when encodings differ in length.
    spec fn static_len() -> nat;

    /// True for basic values, whose list roots pack several elements into a chunk.
    spec fn packed() -> bool;

    /// True when the model has an encoding.
    spec fn encodable(m: Self::Model) -> bool;

    /// The encoding of a model.
    spec fn to_bytes(m: Self::Model) -> Seq<u8>;

    /// What decoding gives: the model, or the message of the refusal.
    spec fn from_bytes(b: Seq<u8>, checked: bool) -> Result<Self::Model, Seq<char>>;

    /// The tree root of a model.
    spec fn root_of(m: Self::Model) -> Bytes32;

    /// Returns [`SszElement::static_len`].
    fn element_len() -> (r: usize)
        ensures
            r == Self::static_len(),
    ;

    /// Returns [`SszElement::packed`].
    fn is_packed() -> (r: bool)
        ensures
            r == Self::packed(),
    ;

    /// Encodes the element.
    fn encode_element(&self) -> (r: Vec<u8>)
        requires
            Self::encodable(self.model()),
        ensures
            r@ == Self::to_bytes(self.model()),
    ;

    /// Decodes an element from exactly its bytes.
    fn decode_element(bytes: &[u8], checked: bool) -> (r: Result<Self, String>)
        requires
            Self::static_len() > 0 ==> bytes@.len() == Self::static_len(),
        ensures
            match r {
                Ok(v) => Self::from_bytes(bytes@, checked) == Ok::<Self::Model, Seq<char>>(
                    v.model(),
                ),
                Err(e) => Self::from_bytes(bytes@, checked) == Err::<Self::Model, Seq<char>>(e@),
            },
    ;

    /// Hashes the element.
    fn element_root(&self) -> (r: Bytes32)
        ensures
            r == Self::root_of(self.model()),
    ;

    /// Fixed-length encodings have the fixed length; packed elements all have one.
    proof fn lemma_static_len(m: Self::Model)
        ensures
            Self::static_len() > 0 ==> Self::to_bytes(m).len() == Self::static_len(),
            Self::packed() ==> Self::encodable(m),
    ;

    /// Packed elements fit a chunk.
    proof fn lemma_packed_len()
        ensures
            Self::packed() ==> 0 < Self::static_len() <= 32,
    ;
}

/// A result with its message as text.
pub open spec fn plain_outcome<T>(r: Result<T, String>) -> Result<T, Seq<char>> {
    match r {
        Ok(v) => Ok(v),
        Err(e) => Err(e@),
    }
}

/// A result in terms of views.
pub open spec fn view_outcome<T: View>(r: Result<T, String>) -> Result<T::V, Seq<char>> {
    match r {
        Ok(v) => Ok(v@),
        Err(e) => Err(e@),
    }
}

/// The models of a sequence of elements.
pub open spec fn models<T: SszElement>(s: Seq<T>) -> Seq<T::Model> {
    Seq::new(s.len(), |i: int| s[i].model())
}

/// Four little-endian bytes of a number; what does not fit them is left out.
pub open spec fn four_bytes(n: nat) -> Seq<u8> {
    seq![
        (n % 256) as u8,
        (n / 256 % 256) as u8,
        (n / 65536 % 256) as u8,
        (n / 16777216 % 256) as u8,
    ]
}

/// The number in four little-endian bytes at `pos`.
pub open spec fn four_at(b: Seq<u8>, pos: int) -> nat {
    (b[pos] + 256 * b[pos + 1] + 65536 * b[pos + 2] + 16777216 * b[pos + 3]) as nat
}

/// Little-endian bytes of a number.
#[verifier::opaque]
pub open spec fn u64_bytes(n: u64) -> Seq<u8> {
    four_bytes(n as nat) + four_bytes(n as nat / offset_modulus())
}

/// The number in eight little-endian bytes at `pos`.
#[verifier::opaque]
pub open spec fn u64_at(b: Seq<u8>, pos: int) -> u64 {
    (four_at(b, pos) + offset_modulus() * four_at(b, pos + 4)) as u64
}

/// The modulus of an offset.
pub open spec fn offset_modulus() -> nat {
    0x1_0000_0000
}

/// The four offset bytes for position `n`.
#[verifier::opaque]
pub open spec fn offset_bytes(n: nat) -> Seq<u8> {
    four_bytes(n % offset_modulus())
}

/// The offset in four little-endian bytes at `pos`.
#[verifier::opaque]
pub open spec fn offset_at(b: Seq<u8>, pos: int) -> nat {
    four_at(b, pos)
}

/// Four bytes hold a number below the modulus whole.
proof fn lemma_four_bytes(n: nat, b: Seq<u8>, pos: int)
    requires
        n < offset_modulus(),
        0 <= pos,
        pos + 4 <= b.len(),
        b.subrange(pos, pos + 4) == four_bytes(n),
    ensures
        four_at(b, pos) == n,
{
    let part = b.subrange(pos, pos + 4);
    assert(part[0] == b[pos]);
    assert(part[1] == b[pos + 1]);
    assert(part[2] == b[pos + 2]);
    assert(part[3] == b[pos + 3]);
    let second = n / 256;
    let third = second / 256;
    let fourth = third / 256;
    assert(n / 65536 == third);
    assert(n / 16777216 == fourth);
    assert(fourth < 256);
}

fn put_four(out: &mut Vec<u8>, n: u32)
    ensures
        final(out)@ == old(out)@ + four_bytes(n as nat),
{
    out.push((n % 256) as u8);
    out.push((n / 256 % 256) as u8);
    out.push((n / 65536 % 256) as u8);
    out.push((n / 16777216 % 256) as u8);
    assert(out@ =~= old(out)@ + four_bytes(n as nat));
}

fn get_four(bytes: &[u8], pos: usize) -> (r: u32)
    requires
        pos + 4 <= bytes@.len(),
    ensures
        r == four_at(bytes@, pos as int),
{
    let total: usize = bytes.len();
    assert(pos + 4 <= total);
    bytes[pos] as u32 + 256 * bytes[pos + 1] as u32 + 65536 * bytes[pos + 2] as u32 + 16777216
        * bytes[pos + 3] as u32
}

/// Appends the little-endian bytes of a number.
pub fn put_u64(out: &mut Vec<u8>, n: u64)
    ensures
        final(out)@ == old(out)@ + u64_bytes(n),
        u64_bytes(n).len() == 8,
{
    proof {
        lemma_u64_len(n);
        lemma_low_bytes(n as nat);
        reveal(u64_bytes);
    }
    put_four(out, (n % 0x1_0000_0000) as u32);
    put_four(out, (n / 0x1_0000_0000) as u32);
    assert(out@ =~= old(out)@ + u64_bytes(n));
}

/// Reads eight little-endian bytes.
pub fn get_u64(bytes: &[u8], pos: usize) -> (r: u64)
    requires
        pos + 8 <= bytes@.len(),
    ensures
        r == u64_at(bytes@, pos as int),
{
    reveal(u64_at);
    let total: usize = bytes.len();
    assert(pos + 8 <= total);
    let low: u32 = get_four(bytes, pos);
    let high: u32 = get_four(bytes, pos + 4);
    low as u64 + 0x1_0000_0000 * high as u64
}

/// Appends bytes.
pub fn put_bytes(out: &mut Vec<u8>, b: &[u8])
    ensures
        final(out)@ == old(out)@ + b@,
{
    out.extend_from_slice(b);
    assert(out@ =~= old(out)@ + b@);
}

/// Appends an offset.
pub fn put_offset(out: &mut Vec<u8>, n: u64)
    ensures
        final(out)@ == old(out)@ + offset_bytes(n as nat),
        offset_bytes(n as nat).len() == 4,
{
    reveal(offset_bytes);
    put_four(out, (n % 0x1_0000_0000) as u32);
}

/// Reads an offset.
pub fn get_offset(bytes: &[u8], pos: usize) -> (r: usize)
    requires
        pos + 4 <= bytes@.len(),
    ensures
        r == offset_at(bytes@, pos as int),
{
    reveal(offset_at);
    get_four(bytes, pos) as usize
}

/// The position `len` bytes behind `at`, as an offset counts it.
pub fn advance_offset(at: u64, len: usize) -> (r: u64)
    requires
        at < 0x1_0000_0000,
    ensures
        r == (at + len) % offset_modulus() as int,
        r < 0x1_0000_0000,
{
    proof {
        vstd::arithmetic::div_mod::lemma_add_mod_noop(at as int, len as int, 0x1_0000_0000);
        vstd::arithmetic::div_mod::lemma_small_mod(at as nat, 0x1_0000_0000);
    }
    (at + (len as u64) % 0x1_0000_0000) % 0x1_0000_0000
}

/// Offset bytes depend on the position modulo the offset range only.
pub proof fn lemma_offset_bytes_mod(n: nat)
    ensures
        offset_bytes(n % offset_modulus()) == offset_bytes(n),
        offset_bytes(n).len() == 4,
{
    reveal(offset_bytes);
    vstd::arithmetic::div_mod::lemma_mod_twice(n as int, offset_modulus() as int);
}

/// The bytes of a number depend on the number modulo the offset range only.
proof fn lemma_low_bytes(n: nat)
    ensures
        four_bytes(n % offset_modulus()) == four_bytes(n),
{
    let low = n % offset_modulus();
    let high = n / offset_modulus();
    assert(n == offset_modulus() * high + low);
    assert(n % 256 == low % 256);
    assert(n / 256 == 16777216 * high + low / 256);
    assert(n / 256 % 256 == low / 256 % 256);
    assert(n / 65536 == 65536 * high + low / 65536);
    assert(n / 65536 % 256 == low / 65536 % 256);
    assert(n / 16777216 == 256 * high + low / 16777216);
    assert(n / 16777216 % 256 == low / 16777216 % 256);
}

/// An offset within range is read back from where it was written.
pub proof fn lemma_offset_read(b: Seq<u8>, pos: int, n: nat)
    requires
        0 <= pos,
        pos + 4 <= b.len(),
        b.subrange(pos, pos + 4) == offset_bytes(n),
        n < offset_modulus(),
    ensures
        offset_at(b, pos) == n,
{
    reveal(offset_bytes);
    reveal(offset_at);
    vstd::arithmetic::div_mod::lemma_small_mod(n, offset_modulus());
    lemma_four_bytes(n, b, pos);
}

/// A number is read back from where it was written.
pub proof fn lemma_u64_read(b: Seq<u8>, pos: int, n: u64)
    requires
        0 <= pos,
        pos + 8 <= b.len(),
        b.subrange(pos, pos + 8) == u64_bytes(n),
    ensures
        u64_at(b, pos) == n,
{
    reveal(u64_bytes);
    reveal(u64_at);
    let low = n as nat % offset_modulus();
    let high = n as nat / offset_modulus();
    let part = b.subrange(pos, pos + 8);
    lemma_low_bytes(n as nat);
    assert(b.subrange(pos, pos + 4) =~= four_bytes(low)) by {
        assert(part.subrange(0, 4) =~= four_bytes(n as nat));
        assert(part.subrange(0, 4) =~= b.subrange(pos, pos + 4));
    }
    assert(b.subrange(pos + 4, pos + 8) =~= four_bytes(high)) by {
        assert(part.subrange(4, 8) =~= four_bytes(high));
        assert(part.subrange(4, 8) =~= b.subrange(pos + 4, pos + 8));
    }
    lemma_four_bytes(low, b, pos);
    lemma_four_bytes(high, b, pos + 4);
}

/// Encoded numbers take eight bytes.
pub proof fn lemma_u64_len(n: u64)
    ensures
        u64_bytes(n).len() == 8,
{
    reveal(u64_bytes);
}

/// Two variable fields behind their offsets.
pub open spec fn two_fields(a: Seq<u8>, b: Seq<u8>) -> Seq<u8> {
    offset_bytes(8) + offset_bytes((8 + a.len()) as nat) + a + b
}

/// Both fields are found where the offsets say.
pub proof fn lemma_two_fields(a: Seq<u8>, b: Seq<u8>)
    requires
        8 + a.len() < offset_modulus(),
    ensures
        ({
            let s = two_fields(a, b);
            let mid = 8 + a.len() as int;
            &&& s.len() == 8 + a.len() + b.len()
            &&& offset_at(s, 0) == 8
            &&& offset_at(s, 4) == mid
            &&& s.subrange(8, mid) == a
            &&& s.subrange(mid, s.len() as int) == b
        }),
{
    let s = two_fields(a, b);
    let mid = (8 + a.len()) as nat;
    lemma_offset_bytes_mod(8);
    lemma_offset_bytes_mod(mid);
    assert(s.subrange(0, 4) =~= offset_bytes(8));
    assert(s.subrange(4, 8) =~= offset_bytes(mid));
    lemma_offset_read(s, 0, 8);
    lemma_offset_read(s, 4, mid);
    assert(s.subrange(8, mid as int) =~= a);
    assert(s.subrange(mid as int, s.len() as int) =~= b);
}

/// Writes two variable fields behind their offsets.
pub fn put_two_fields(a: &[u8], b: &[u8]) -> (r: Vec<u8>)
    ensures
        r@ == two_fields(a@, b@),
{
    let mut out: Vec<u8> = Vec::new();
    let second: u64 = advance_offset(8, a.len());
    proof {
        lemma_offset_bytes_mod((8 + a@.len()) as nat);
    }
    put_offset(&mut out, 8);
    put_offset(&mut out, second);
    put_bytes(&mut out, a);
    put_bytes(&mut out, b);
    assert(out@ =~= two_fields(a@, b@));
    out
}

/// The byte strings of `parts`, one behind the other.
pub open spec fn joined(parts: Seq<Seq<u8>>) -> Seq<u8>
    decreases parts.len(),
{
    if parts.len() == 0 {
        Seq::empty()
    } else {
        joined(parts.drop_last()) + parts.last()
    }
}

/// The first `k` offsets of a list whose elements encode to `parts`.
pub open spec fn offset_table(parts: Seq<Seq<u8>>, k: nat) -> Seq<u8>
    decreases k,
{
    if k == 0 {
        Seq::empty()
    } else {
        offset_table(parts, (k - 1) as nat) + offset_bytes(part_start(parts, (k - 1) as nat))
    }
}

/// Where element `k` begins behind the offset table.
pub open spec fn part_start(parts: Seq<Seq<u8>>, k: nat) -> nat {
    4 * parts.len() + joined(parts.take(k as int)).len()
}

/// The encodings of list elements.
pub open spec fn encoded_parts<T: SszElement>(ms: Seq<T::Model>) -> Seq<Seq<u8>> {
    Seq::new(ms.len(), |i: int| T::to_bytes(ms[i]))
}

/// The encoding of a list.
pub open spec fn list_bytes<T: SszElement>(ms: Seq<T::Model>) -> Seq<u8> {
    let parts = encoded_parts::<T>(ms);
    if T::static_len() > 0 {
        joined(parts)
    } else {
        offset_table(parts, parts.len()) + joined(parts)
    }
}

/// Where element `i` of `n` lies in an encoded list.
pub open spec fn piece_start<T: SszElement>(b: Seq<u8>, n: nat, i: int) -> int {
    if T::static_len() > 0 {
        i * T::static_len()
    } else if i < n {
        offset_at(b, 4 * i) as int
    } else {
        b.len() as int
    }
}

/// Decodes the first `k` of `n` elements.
pub open spec fn parse_prefix<T: SszElement>(b: Seq<u8>, n: nat, k: nat, checked: bool) -> Result<
    Seq<T::Model>,
    Seq<char>,
>
    decreases k,
{
    if k == 0 {
        Ok(Seq::empty())
    } else {
        match parse_prefix::<T>(b, n, (k - 1) as nat, checked) {
            Err(e) => Err(e),
            Ok(ms) => {
                let start = piece_start::<T>(b, n, k - 1);
                let end = piece_start::<T>(b, n, k as int);
                if start > end || end > b.len() {
                    Err("SszList offsets are invalid"@)
                } else {
                    match T::from_bytes(b.subrange(start, end), checked) {
                        Err(e) => Err(e),
                        Ok(m) => Ok(ms.push(m)),
                    }
                }
            },
        }
    }
}

/// The number of elements that an encoded list announces.
pub open spec fn announced_count<T: SszElement>(b: Seq<u8>) -> Result<nat, Seq<char>> {
    if T::static_len() > 0 {
        if b.len() % T::static_len() != 0 {
            Err("SszList length is not a multiple of the element length"@)
        } else {
            Ok(b.len() / T::static_len())
        }
    } else if b.len() == 0 {
        Ok(0nat)
    } else if b.len() < 4 {
        Err("SszList missing offset table"@)
    } else {
        let first = offset_at(b, 0);
        if first == 0 || first % 4 != 0 || first > b.len() {
            Err("SszList first offset is invalid"@)
        } else {
            Ok(first / 4)
        }
    }
}

/// What decoding a list of at most `limit` elements gives.
pub open spec fn list_from_bytes<T: SszElement>(b: Seq<u8>, limit: nat, checked: bool) -> Result<
    Seq<T::Model>,
    Seq<char>,
> {
    match announced_count::<T>(b) {
        Err(e) => Err(e),
        Ok(n) => if n > limit {
            Err("SszList exceeds its limit"@)
        } else {
            parse_prefix::<T>(b, n, n, checked)
        },
    }
}

/// The number of chunks that `limit` elements need.
pub open spec fn chunk_limit<T: SszElement>(limit: nat) -> nat {
    if T::packed() {
        let per_chunk = 32nat / T::static_len();
        (limit / per_chunk + (if limit % per_chunk == 0 { 0nat } else { 1nat }))
    } else {
        limit
    }
}

/// The tree root of a list.
pub open spec fn list_root<T: SszElement>(ms: Seq<T::Model>, limit: nat) -> Bytes32 {
    let leaves = if T::packed() {
        hash::chunks(joined(encoded_parts::<T>(ms)))
    } else {
        Seq::new(ms.len(), |i: int| T::root_of(ms[i]))
    };
    hash::with_length(hash::merkle_root(leaves, chunk_limit::<T>(limit)), ms.len() as u64)
}

/// A refusal of a prefix is the refusal of every longer prefix.
pub proof fn lemma_prefix_error<T: SszElement>(b: Seq<u8>, n: nat, j: nat, k: nat, checked: bool)
    requires
        j <= k,
        parse_prefix::<T>(b, n, j, checked) is Err,
    ensures
        parse_prefix::<T>(b, n, k, checked) == parse_prefix::<T>(b, n, j, checked),
    decreases k - j,
{
    if j < k {
        lemma_prefix_error::<T>(b, n, j, (k - 1) as nat, checked);
    }
}

/// The bytes of the first `k + 1` parts end with part `k`.
pub proof fn lemma_joined_step(parts: Seq<Seq<u8>>, k: nat)
    requires
        k < parts.len(),
    ensures
        joined(parts.take(k as int + 1)) == joined(parts.take(k as int)) + parts[k as int],
        parts.take(parts.len() as int) == parts,
{
    assert(parts.take(k as int + 1).drop_last() =~= parts.take(k as int));
    assert(parts.take(parts.len() as int) =~= parts);
}

/// Part `k` lies in the joined bytes where the parts before it end.
pub proof fn lemma_joined_part(parts: Seq<Seq<u8>>, k: nat, upto: nat)
    requires
        k < upto <= parts.len(),
    ensures
        joined(parts.take(k as int)).len() + parts[k as int].len() <= joined(
            parts.take(upto as int),
        ).len(),
        joined(parts.take(upto as int)).subrange(
            joined(parts.take(k as int)).len() as int,
            (joined(parts.take(k as int)).len() + parts[k as int].len()) as int,
        ) == parts[k as int],
        joined(parts.take(k as int + 1)).len() == joined(parts.take(k as int)).len()
            + parts[k as int].len(),
    decreases upto,
{
    lemma_joined_step(parts, k);
    lemma_joined_step(parts, (upto - 1) as nat);
    let start = joined(parts.take(k as int)).len() as int;
    let end = start + parts[k as int].len();
    if k + 1 < upto {
        lemma_joined_part(parts, k, (upto - 1) as nat);
        assert(joined(parts.take(upto as int)).subrange(start, end) =~= joined(
            parts.take(upto - 1),
        ).subrange(start, end));
    } else {
        assert(joined(parts.take(upto as int)).subrange(start, end) =~= parts[k as int]);
    }
}

/// Offset `k` lies at its place in the table.
pub proof fn lemma_offset_entry(parts: Seq<Seq<u8>>, k: nat, upto: nat)
    requires
        k < upto,
    ensures
        offset_table(parts, upto).len() == 4 * upto,
        offset_table(parts, upto).subrange(4 * k as int, 4 * k as int + 4) == offset_bytes(
            part_start(parts, k),
        ),
    decreases upto,
{
    lemma_offset_table_len(parts, upto);
    lemma_offset_table_len(parts, (upto - 1) as nat);
    lemma_offset_bytes_mod(part_start(parts, (upto - 1) as nat));
    if k + 1 < upto {
        lemma_offset_entry(parts, k, (upto - 1) as nat);
        assert(offset_table(parts, upto).subrange(4 * k as int, 4 * k as int + 4) =~= offset_table(
            parts,
            (upto - 1) as nat,
        ).subrange(4 * k as int, 4 * k as int + 4));
    } else {
        assert(offset_table(parts, upto).subrange(4 * k as int, 4 * k as int + 4) =~= offset_bytes(
            part_start(parts, k),
        ));
    }
}

/// A table of `k` offsets takes `4 * k` bytes.
pub proof fn lemma_offset_table_len(parts: Seq<Seq<u8>>, k: nat)
    ensures
        offset_table(parts, k).len() == 4 * k,
    decreases k,
{
    if k > 0 {
        lemma_offset_table_len(parts, (k - 1) as nat);
        lemma_offset_bytes_mod(part_start(parts, (k - 1) as nat));
    }
}

/// Parts of one length join to a multiple of that length.
pub proof fn lemma_joined_fixed(parts: Seq<Seq<u8>>, len: nat, k: nat)
    requires
        k <= parts.len(),
        forall|i: int| 0 <= i < parts.len() ==> (#[trigger] parts[i]).len() == len,
    ensures
        joined(parts.take(k as int)).len() == k * len,
    decreases k,
{
    if k > 0 {
        lemma_joined_fixed(parts, len, (k - 1) as nat);
        lemma_joined_step(parts, (k - 1) as nat);
        assert(k * len == (k - 1) * len + len) by (nonlinear_arith);
    } else {
        assert(parts.take(0) =~= Seq::empty());
        assert(0 * len == 0) by (nonlinear_arith);
    }
}

/// A list within its limit, whose elements decode from their encodings, decodes from its
/// encoding, as long as its offsets can be written.
pub proof fn lemma_list_roundtrip<T: SszElement>(ms: Seq<T::Model>, limit: nat, checked: bool)
    requires
        ms.len() <= limit,
        list_bytes::<T>(ms).len() < offset_modulus(),
        forall|i: int|
            0 <= i < ms.len() ==> T::from_bytes(T::to_bytes(#[trigger] ms[i]), checked) == Ok::<
                T::Model,
                Seq<char>,
            >(ms[i]),
    ensures
        list_from_bytes::<T>(list_bytes::<T>(ms), limit, checked) == Ok::<
            Seq<T::Model>,
            Seq<char>,
        >(ms),
{
    let b = list_bytes::<T>(ms);
    let parts = encoded_parts::<T>(ms);
    let n = ms.len();
    assert(parts.take(n as int) =~= parts);
    if n > 0 {
        T::lemma_static_len(ms[0]);
    }
    if T::static_len() > 0 {
        assert forall|i: int| 0 <= i < parts.len() implies (#[trigger] parts[i]).len()
            == T::static_len() by {
            T::lemma_static_len(ms[i]);
        }
        lemma_joined_fixed(parts, T::static_len(), n);
        assert(b.len() == n * T::static_len());
        vstd::arithmetic::div_mod::lemma_mod_multiples_basic(n as int, T::static_len() as int);
        vstd::arithmetic::div_mod::lemma_div_by_multiple(n as int, T::static_len() as int);
        assert(n * T::static_len() == T::static_len() * n) by (nonlinear_arith);
    } else {
        lemma_offset_table_len(parts, n);
        if n > 0 {
            assert(part_start(parts, 0) == 4 * n) by {
                assert(parts.take(0) =~= Seq::empty());
            }
            lemma_offset_entry(parts, 0, n);
            assert(b.subrange(0, 4) =~= offset_table(parts, n).subrange(0, 4));
            lemma_offset_read(b, 0, 4 * n);
        }
    }
    assert(announced_count::<T>(b) == Ok::<nat, Seq<char>>(n));
    lemma_prefix_roundtrip::<T>(ms, n, checked);
    assert(ms.take(n as int) =~= ms);
}

proof fn lemma_prefix_roundtrip<T: SszElement>(ms: Seq<T::Model>, k: nat, checked: bool)
    requires
        k <= ms.len(),
        list_bytes::<T>(ms).len() < offset_modulus(),
        forall|i: int|
            0 <= i < ms.len() ==> T::from_bytes(T::to_bytes(#[trigger] ms[i]), checked) == Ok::<
                T::Model,
                Seq<char>,
            >(ms[i]),
    ensures
        parse_prefix::<T>(list_bytes::<T>(ms), ms.len(), k, checked) == Ok::<
            Seq<T::Model>,
            Seq<char>,
        >(ms.take(k as int)),
    decreases k,
{
    let b = list_bytes::<T>(ms);
    let parts = encoded_parts::<T>(ms);
    let n = ms.len();
    if k == 0 {
        assert(ms.take(0) =~= Seq::empty());
    } else {
        let i = (k - 1) as nat;
        lemma_prefix_roundtrip::<T>(ms, i, checked);
        lemma_joined_part(parts, i, n);
        assert(parts.take(n as int) =~= parts);
        let before = joined(parts.take(i as int)).len() as int;
        let len = parts[i as int].len() as int;
        assert(ms.take(i as int).push(ms[i as int]) =~= ms.take(k as int));
        T::lemma_static_len(ms[i as int]);
        if T::static_len() > 0 {
            assert forall|j: int| 0 <= j < parts.len() implies (#[trigger] parts[j]).len()
                == T::static_len() by {
                T::lemma_static_len(ms[j]);
            }
            lemma_joined_fixed(parts, T::static_len(), i);
            lemma_joined_fixed(parts, T::static_len(), k);
            assert(piece_start::<T>(b, n, i as int) == before);
            assert(piece_start::<T>(b, n, k as int) == before + len);
        } else {
            lemma_offset_table_len(parts, n);
            let table = offset_table(parts, n);
            lemma_offset_entry(parts, i, n);
            assert(b.subrange(4 * i as int, 4 * i as int + 4) =~= table.subrange(4 * i as int, 4 * i as int + 4));
            lemma_offset_read(b, 4 * i as int, part_start(parts, i));
            if k < n {
                lemma_offset_entry(parts, k, n);
                lemma_joined_part(parts, k, n);
                assert(b.subrange(4 * k as int, 4 * k as int + 4) =~= table.subrange(
                    4 * k as int,
                    4 * k as int + 4,
                ));
                lemma_offset_read(b, 4 * k as int, part_start(parts, k));
            } else {
                lemma_joined_step(parts, i);
            }
            let start = 4 * n + before;
            assert(piece_start::<T>(b, n, i as int) == start);
            assert(piece_start::<T>(b, n, k as int) == start + len);
            assert(b.subrange(start, start + len) =~= joined(parts).subrange(before, before + len));
        }
    }
}

} // verus!
