//! Bit lists with a length limit.

use crate::types::bytes::Bytes32;
use vstd::prelude::*;

verus! {

/// A list of at most `LIMIT` bits.
#[derive(Clone, Debug, PartialEq, Eq)]
pub struct BitList<const LIMIT: usize> {
    pub bits: Vec<bool>,
}

impl<const LIMIT: usize> View for BitList<LIMIT> {
    type V = Seq<bool>;

    open spec fn view(&self) -> Seq<bool> {
        self.bits@
    }
}

/// The weight of bit `k` of a byte.
pub open spec fn weight(k: int) -> int {
    if k == 0 {
        1
    } else if k == 1 {
        2
    } else if k == 2 {
        4
    } else if k == 3 {
        8
    } else if k == 4 {
        16
    } else if k == 5 {
        32
    } else if k == 6 {
        64
    } else {
        128
    }
}

/// The worth of bit `k` of the byte whose bits begin at `start`.
pub open spec fn bit_worth(bits: Seq<bool>, start: int, k: int) -> int {
    if start + k < bits.len() && bits[start + k] {
        weight(k)
    } else {
        0
    }
}

/// The byte whose bits, lowest first, are eight of `bits` from `start`.
pub open spec fn packed_byte(bits: Seq<bool>, start: int) -> u8 {
    (bit_worth(bits, start, 0) + bit_worth(bits, start, 1) + bit_worth(bits, start, 2) + bit_worth(
        bits,
        start,
        3,
    ) + bit_worth(bits, start, 4) + bit_worth(bits, start, 5) + bit_worth(bits, start, 6)
        + bit_worth(bits, start, 7)) as u8
}

/// The bits in bytes, lowest bit first, the last byte filled with zeros.
pub open spec fn packed_bits(bits: Seq<bool>) -> Seq<u8> {
    Seq::new((bits.len() + 7) as nat / 8, |i: int| packed_byte(bits, 8 * i))
}

/// Bit `i` of a byte string.
pub open spec fn bit_at(b: Seq<u8>, i: int) -> bool {
    (b[i / 8] as int / weight(i % 8)) % 2 == 1
}

/// The position of the highest set bit of a nonzero byte.
pub open spec fn top_bit(v: u8) -> nat {
    if v >= 128 {
        7
    } else if v >= 64 {
        6
    } else if v >= 32 {
        5
    } else if v >= 16 {
        4
    } else if v >= 8 {
        3
    } else if v >= 4 {
        2
    } else if v >= 2 {
        1
    } else {
        0
    }
}

/// The encoding of a bit list: its bits, then one set bit that marks the end.
#[verifier::opaque]
pub open spec fn bitlist_bytes(bits: Seq<bool>) -> Seq<u8> {
    packed_bits(bits.push(true))
}

/// What decoding a bit list of at most `limit` bits gives.
#[verifier::opaque]
pub open spec fn bitlist_from_bytes(b: Seq<u8>, limit: nat) -> Result<Seq<bool>, Seq<char>> {
    if b.len() == 0 {
        Err("BitList is empty"@)
    } else if b.last() == 0 {
        Err("BitList end marker is missing"@)
    } else {
        let len = (8 * (b.len() - 1) + top_bit(b.last())) as nat;
        if len > limit {
            Err("BitList exceeds its limit"@)
        } else {
            Ok(Seq::new(len, |i: int| bit_at(b, i)))
        }
    }
}

/// The tree root of a bit list.
pub open spec fn bitlist_root(bits: Seq<bool>, limit: nat) -> Bytes32 {
    crate::ssz::hash::with_length(
        crate::ssz::hash::merkle_root(
            crate::ssz::hash::chunks(packed_bits(bits)),
            (limit / 256 + (if limit % 256 == 0 { 0nat } else { 1nat })),
        ),
        bits.len() as u64,
    )
}

/// A digit `d` above a remainder `low` is read off by dividing by its weight.
proof fn lemma_digit(v: int, w: int, low: int, d: int, rest: int)
    requires
        w > 0,
        0 <= low < w,
        0 <= rest,
        d == 0 || d == 1,
        v == w * (d + 2 * rest) + low,
    ensures
        (v / w) % 2 == d,
{
    assert(v == (d + 2 * rest) * w + low) by (nonlinear_arith)
        requires
            v == w * (d + 2 * rest) + low,
    ;
    vstd::arithmetic::div_mod::lemma_fundamental_div_mod_converse(v, w, d + 2 * rest, low);
    assert((d + 2 * rest) % 2 == d);
}

proof fn lemma_packed_byte(bits: Seq<bool>, start: int)
    requires
        0 <= start,
    ensures
        ({
            let v = packed_byte(bits, start) as int;
            &&& v == bit_worth(bits, start, 0) + bit_worth(bits, start, 1) + bit_worth(
                bits,
                start,
                2,
            ) + bit_worth(bits, start, 3) + bit_worth(bits, start, 4) + bit_worth(bits, start, 5)
                + bit_worth(bits, start, 6) + bit_worth(bits, start, 7)
            &&& forall|k: int|
                0 <= k < 8 ==> ((v / #[trigger] weight(k)) % 2 == 1) == (bit_worth(bits, start, k)
                    > 0)
        }),
{
    let v = packed_byte(bits, start) as int;
    lemma_packed_value(bits, start);
    reveal_with_fuel(worth_below, 9);
    assert forall|k: int| 0 <= k < 8 implies ((v / #[trigger] weight(k)) % 2 == 1) == (bit_worth(
        bits,
        start,
        k,
    ) > 0) by {
        lemma_packed_digit(bits, start, k);
    }
}

/// The worth of the bits below `k`.
spec fn worth_below(bits: Seq<bool>, start: int, k: int) -> int
    decreases k,
{
    if k <= 0 {
        0
    } else {
        worth_below(bits, start, k - 1) + bit_worth(bits, start, k - 1)
    }
}

proof fn lemma_worth_below(bits: Seq<bool>, start: int, k: int)
    requires
        0 <= k <= 8,
    ensures
        0 <= worth_below(bits, start, k),
        k < 8 ==> worth_below(bits, start, k) < weight(k),
        k == 8 ==> worth_below(bits, start, k) < 256,
    decreases k,
{
    if k > 0 {
        lemma_worth_below(bits, start, k - 1);
    }
}

/// Above bit `k`, the worth is a multiple of twice its weight.
proof fn lemma_worth_above(bits: Seq<bool>, start: int, k: int, top: int) -> (rest: int)
    requires
        0 <= k < top <= 8,
    ensures
        rest >= 0,
        worth_below(bits, start, top) == worth_below(bits, start, k) + bit_worth(bits, start, k)
            + 2 * weight(k) * rest,
    decreases top,
{
    if k + 1 == top {
        assert(2 * weight(k) * 0 == 0);
        0
    } else {
        let below = lemma_worth_above(bits, start, k, top - 1);
        let m = lemma_weight_multiple(k, top - 1);
        if bit_worth(bits, start, top - 1) > 0 {
            assert(2 * weight(k) * below + 2 * weight(k) * m == 2 * weight(k) * (below + m))
                by (nonlinear_arith);
            below + m
        } else {
            below
        }
    }
}

/// A higher weight is a multiple of twice a lower one.
proof fn lemma_weight_multiple(k: int, j: int) -> (m: int)
    requires
        0 <= k < j < 8,
    ensures
        m >= 0,
        weight(j) == 2 * weight(k) * m,
    decreases j - k,
{
    if k + 1 == j {
        1
    } else {
        let m = lemma_weight_multiple(k + 1, j);
        assert(weight(k + 1) == 2 * weight(k));
        assert(2 * (2 * weight(k)) * m == 2 * weight(k) * (2 * m)) by (nonlinear_arith);
        2 * m
    }
}

proof fn lemma_packed_value(bits: Seq<bool>, start: int)
    ensures
        packed_byte(bits, start) == worth_below(bits, start, 8),
{
    lemma_worth_below(bits, start, 8);
    reveal_with_fuel(worth_below, 9);
}

proof fn lemma_packed_digit(bits: Seq<bool>, start: int, k: int)
    requires
        0 <= k < 8,
    ensures
        ((packed_byte(bits, start) as int / weight(k)) % 2 == 1) == (bit_worth(bits, start, k) > 0),
{
    lemma_packed_value(bits, start);
    lemma_worth_below(bits, start, k);
    let rest = lemma_worth_above(bits, start, k, 8);
    let d: int = if bit_worth(bits, start, k) > 0 { 1 } else { 0 };
    let w = weight(k);
    let v = packed_byte(bits, start) as int;
    assert(w * (d + 2 * rest) == w * d + 2 * w * rest) by (nonlinear_arith);
    assert(w * d == bit_worth(bits, start, k)) by (nonlinear_arith)
        requires
            d == 0 || d == 1,
            d == 1 ==> bit_worth(bits, start, k) == w,
            d == 0 ==> bit_worth(bits, start, k) == 0,
    ;
    lemma_digit(v, w, worth_below(bits, start, k), d, rest);
}

/// Bit `i` stands in its place; the bit behind the last one is the end mark.
pub proof fn lemma_bit_of(bits: Seq<bool>, i: int)
    requires
        0 <= i <= bits.len(),
    ensures
        ((bitlist_bytes(bits)[i / 8] as int / weight(i % 8)) % 2 == 1) == (i == bits.len()
            || bits[i]),
{
    reveal(bitlist_bytes);
    let marked = bits.push(true);
    let start = 8 * (i / 8);
    assert(start + i % 8 == i);
    lemma_packed_digit(marked, start, i % 8);
}

/// Every bit list within its limit decodes from its encoding.
pub proof fn lemma_bitlist_roundtrip(bits: Seq<bool>, limit: nat)
    requires
        bits.len() <= limit,
    ensures
        bitlist_from_bytes(bitlist_bytes(bits), limit) == Ok::<Seq<bool>, Seq<char>>(bits),
        bitlist_bytes(bits).len() == bits.len() / 8 + 1,
{
    reveal(bitlist_bytes);
    reveal(bitlist_from_bytes);
    let marked = bits.push(true);
    let b = bitlist_bytes(bits);
    let last = (b.len() - 1) as int;
    assert(b.len() == bits.len() / 8 + 1);
    let start = 8 * last;
    let r = bits.len() - start;
    assert(0 <= r < 8);
    lemma_packed_byte(marked, start);
    let v = b[last];
    assert(bit_worth(marked, start, r as int) == weight(r as int));
    assert forall|k: int| r < k < 8 implies bit_worth(marked, start, k) == 0 by {}
    assert(weight(r as int) <= v);
    assert(top_bit(v) == r) by {
        assert(r == 0 || r == 1 || r == 2 || r == 3 || r == 4 || r == 5 || r == 6 || r == 7);
    }
    assert forall|i: int| 0 <= i < bits.len() implies #[trigger] bit_at(b, i) == bits[i] by {
        let byte = i / 8;
        let k = i % 8;
        lemma_packed_byte(marked, 8 * byte);
        assert(b[byte] == packed_byte(marked, 8 * byte));
        assert(weight(k) > 0);
        assert(8 * byte + k == i);
    }
    assert(Seq::new(bits.len(), |i: int| bit_at(b, i)) =~= bits);
}

impl<const LIMIT: usize> BitList<LIMIT> {
    /// Takes the bits when they are within the limit.
    pub fn new(bits: Vec<bool>) -> (r: Result<Self, String>)
        ensures
            match r {
                Ok(list) => bits@.len() <= LIMIT && list@ == bits@,
                Err(e) => bits@.len() > LIMIT && e@ == "BitList exceeds its limit"@,
            },
    {
        if bits.len() > LIMIT {
            return Err("BitList exceeds its limit".to_string());
        }
        Ok(BitList { bits })
    }

    /// The list without bits.
    pub fn empty() -> (r: Self)
        ensures
            r@ == Seq::<bool>::empty(),
    {
        BitList { bits: Vec::new() }
    }

    /// The number of bits.
    pub fn len(&self) -> (r: usize)
        ensures
            r == self@.len(),
    {
        self.bits.len()
    }

    /// Bit `i`, or false beyond the end.
    pub fn is_set(&self, i: usize) -> (r: bool)
        ensures
            r == (i < self@.len() && self@[i as int]),
    {
        i < self.bits.len() && self.bits[i]
    }

    /// A copy of the list.
    pub fn duplicate(&self) -> (r: Self)
        ensures
            r@ == self@,
    {
        let mut bits: Vec<bool> = Vec::new();
        let mut i: usize = 0;
        while i < self.bits.len()
            invariant
                i <= self.bits@.len(),
                bits@ == self.bits@.take(i as int),
            decreases self.bits@.len() - i,
        {
            bits.push(self.bits[i]);
            assert(bits@ =~= self.bits@.take(i + 1));
            i = i + 1;
        }
        assert(bits@ =~= self.bits@);
        BitList { bits }
    }

    /// Encodes the list with its end marker.
    pub fn encode_ssz(&self) -> (r: Vec<u8>)
        ensures
            r@ == bitlist_bytes(self@),
    {
        proof {
            reveal(bitlist_bytes);
        }
        let mut marked: Vec<bool> = self.duplicate().bits;
        marked.push(true);
        pack(&marked)
    }

    /// Decodes a list with its end marker.
    pub fn decode_ssz(bytes: &[u8]) -> (r: Result<Self, String>)
        ensures
            crate::ssz::view_outcome(r) == bitlist_from_bytes(bytes@, LIMIT as nat),
    {
        proof {
            reveal(bitlist_from_bytes);
        }
        let n: usize = bytes.len();
        if n == 0 {
            return Err("BitList is empty".to_string());
        }
        let last: u8 = bytes[n - 1];
        if last == 0 {
            return Err("BitList end marker is missing".to_string());
        }
        let top: usize = if last >= 128 {
            7
        } else if last >= 64 {
            6
        } else if last >= 32 {
            5
        } else if last >= 16 {
            4
        } else if last >= 8 {
            3
        } else if last >= 4 {
            2
        } else if last >= 2 {
            1
        } else {
            0
        };
        if n - 1 > LIMIT / 8 {
            return Err("BitList exceeds its limit".to_string());
        }
        let whole: usize = 8 * (n - 1);
        if top > LIMIT - whole {
            return Err("BitList exceeds its limit".to_string());
        }
        let len: usize = whole + top;
        let mut bits: Vec<bool> = Vec::new();
        let mut i: usize = 0;
        while i < len
            invariant
                i <= len,
                len == 8 * (n - 1) + top,
                top < 8,
                n == bytes@.len(),
                n >= 1,
                bits@ == Seq::new(i as nat, |k: int| bit_at(bytes@, k)),
            decreases len - i,
        {
            bits.push(read_bit(bytes[i / 8], i % 8));
            assert(bits@ =~= Seq::new((i + 1) as nat, |k: int| bit_at(bytes@, k)));
            i = i + 1;
        }
        Ok(BitList { bits })
    }

    /// Decodes a list with its end marker from untrusted bytes.
    pub fn decode_ssz_checked(bytes: &[u8]) -> (r: Result<Self, String>)
        ensures
            crate::ssz::view_outcome(r) == bitlist_from_bytes(bytes@, LIMIT as nat),
    {
        Self::decode_ssz(bytes)
    }

    /// The tree root of the list.
    pub fn hash_tree_root(&self) -> (r: [u8; 32])
        ensures
            Bytes32(r) == bitlist_root(self@, LIMIT as nat),
    {
        let packed = pack(&self.bits);
        let leaves = crate::ssz::hash::to_chunks(packed.as_slice());
        let limit: usize = LIMIT / 256 + (if LIMIT % 256 == 0 { 0usize } else { 1usize });
        let root = crate::ssz::hash::merkleize_limit(leaves.as_slice(), limit);
        crate::ssz::hash::mix_in_length(&root, self.bits.len()).0
    }
}

/// Bit `k` of a byte.
fn read_bit(v: u8, k: usize) -> (r: bool)
    requires
        k < 8,
    ensures
        r == ((v as int / weight(k as int)) % 2 == 1),
{
    let w: u8 = if k == 0 {
        1
    } else if k == 1 {
        2
    } else if k == 2 {
        4
    } else if k == 3 {
        8
    } else if k == 4 {
        16
    } else if k == 5 {
        32
    } else if k == 6 {
        64
    } else {
        128
    };
    (v / w) % 2 == 1
}

fn worth(bits: &Vec<bool>, start: usize, k: usize, w: u8) -> (r: u8)
    requires
        k < 8,
        w == weight(k as int),
        start <= bits@.len(),
    ensures
        r == bit_worth(bits@, start as int, k as int),
{
    if k < bits.len() - start && bits[start + k] {
        w
    } else {
        0
    }
}

/// Packs bits into bytes.
fn pack(bits: &Vec<bool>) -> (r: Vec<u8>)
    ensures
        r@ == packed_bits(bits@),
{
    let n: usize = bits.len();
    let count: usize = n / 8 + (if n % 8 == 0 { 0usize } else { 1usize });
    let mut out: Vec<u8> = Vec::new();
    let mut i: usize = 0;
    while i < count
        invariant
            i <= count,
            n == bits@.len(),
            count == (n + 7) / 8,
            out@ == Seq::new(i as nat, |k: int| packed_byte(bits@, 8 * k)),
        decreases count - i,
    {
        let start: usize = 8 * i;
        proof {
            lemma_packed_byte(bits@, start as int);
        }
        let low: u8 = worth(bits, start, 0, 1) + worth(bits, start, 1, 2) + worth(bits, start, 2, 4)
            + worth(bits, start, 3, 8);
        let high: u8 = worth(bits, start, 4, 16) + worth(bits, start, 5, 32) + worth(
            bits,
            start,
            6,
            64,
        );
        let top: u8 = worth(bits, start, 7, 128);
        out.push(low + high + top);
        assert(out@ =~= Seq::new((i + 1) as nat, |k: int| packed_byte(bits@, 8 * k)));
        i = i + 1;
    }
    out
}

} // verus!
