//! Fixed-length byte strings, and byte lists with a length limit.

use crate::ssz::hash;
use crate::ssz::SszElement;
use crate::text;
use vstd::prelude::*;

verus! {

/// A 32-byte string: block roots, state roots and every other tree root.
#[derive(Clone, Copy, Debug, Eq, PartialOrd, Ord, Hash)]
pub struct Bytes32(pub [u8; 32]);

/// A 52-byte string: a validator public key.
#[derive(Clone, Copy, Debug, PartialEq, Eq, PartialOrd, Ord, Hash)]
pub struct Bytes52(pub [u8; 52]);

/// A 3112-byte string: one signature.
#[derive(Clone, Copy, Debug, PartialEq, Eq, PartialOrd, Ord, Hash)]
pub struct Bytes3112(pub [u8; 3112]);

/// At most `LIMIT` bytes.
#[derive(Clone, Debug, PartialEq, Eq)]
pub struct ByteList<const LIMIT: usize> {
    pub data: Vec<u8>,
}

impl View for Bytes32 {
    type V = Seq<u8>;

    open spec fn view(&self) -> Seq<u8> {
        self.0@
    }
}

impl View for Bytes52 {
    type V = Seq<u8>;

    open spec fn view(&self) -> Seq<u8> {
        self.0@
    }
}

impl View for Bytes3112 {
    type V = Seq<u8>;

    open spec fn view(&self) -> Seq<u8> {
        self.0@
    }
}

impl<const LIMIT: usize> View for ByteList<LIMIT> {
    type V = Seq<u8>;

    open spec fn view(&self) -> Seq<u8> {
        self.data@
    }
}

impl PartialEq for Bytes32 {
    fn eq(&self, other: &Self) -> (r: bool) {
        let mut i: usize = 0;
        while i < 32
            invariant
                i <= 32,
                forall|j: int| 0 <= j < i ==> self.0@[j] == other.0@[j],
            decreases 32 - i,
        {
            if self.0[i] != other.0[i] {
                assert(self.0@[i as int] != other.0@[i as int]);
                return false;
            }
            i = i + 1;
        }
        proof {
            assert(self.0@ =~= other.0@);
            Bytes32::lemma_ext(*self, *other);
        }
        true
    }
}

impl vstd::std_specs::cmp::PartialEqSpecImpl for Bytes32 {
    open spec fn obeys_eq_spec() -> bool {
        true
    }

    open spec fn eq_spec(&self, other: &Self) -> bool {
        *self == *other
    }
}

/// `a` precedes `b` in the byte-wise (lexicographic) order.
pub open spec fn bytes_less(a: Seq<u8>, b: Seq<u8>) -> bool {
    exists|k: int| #[trigger] splits_less(a, b, k)
}

/// `a` and `b` agree before position `k` and `a` is smaller at `k`.
pub open spec fn splits_less(a: Seq<u8>, b: Seq<u8>, k: int) -> bool {
    &&& 0 <= k < a.len()
    &&& k < b.len()
    &&& a[k] < b[k]
    &&& forall|j: int| 0 <= j < k ==> a[j] == b[j]
}

impl Bytes32 {
    /// The 32-byte string whose bytes are `s`.
    pub open spec fn of(s: Seq<u8>) -> Bytes32 {
        choose|b: Bytes32| b@ == s
    }

    /// Two strings with the same bytes are the same string.
    pub proof fn lemma_ext(a: Bytes32, b: Bytes32)
        requires
            a@ == b@,
        ensures
            a == b,
    {
        assert forall|i: int| 0 <= i < 32 implies a.0[i] == b.0[i] by {
            assert(a.0@[i] == b.0@[i]);
        }
        assert(a.0 =~= b.0);
    }

    /// A string is the one made of its own bytes.
    pub proof fn lemma_of(b: Bytes32)
        ensures
            Bytes32::of(b@) == b,
            b@.len() == 32,
    {
        let c = Bytes32::of(b@);
        assert(c@ == b@);
        Bytes32::lemma_ext(c, b);
    }

    /// The all-zero string.
    pub open spec fn zero_value() -> Bytes32 {
        Bytes32::of(Seq::new(32, |i: int| 0u8))
    }

    /// The all-zero string.
    pub fn zero() -> (r: Self)
        ensures
            r == Self::zero_value(),
            r@ == Seq::new(32, |i: int| 0u8),
    {
        let r = Bytes32(
            [
                0u8, 0u8, 0u8, 0u8, 0u8, 0u8, 0u8, 0u8, 0u8, 0u8, 0u8, 0u8, 0u8, 0u8, 0u8, 0u8,
                0u8, 0u8, 0u8, 0u8, 0u8, 0u8, 0u8, 0u8, 0u8, 0u8, 0u8, 0u8, 0u8, 0u8, 0u8, 0u8,
            ],
        );
        assert(r@ =~= Seq::new(32, |i: int| 0u8));
        proof {
            Bytes32::lemma_of(r);
        }
        r
    }

    /// Copies 32 bytes.
    pub fn from_slice(s: &[u8]) -> (r: Self)
        requires
            s@.len() == 32,
        ensures
            r@ == s@,
            r == Self::of(s@),
    {
        let mut out: [u8; 32] = [0u8; 32];
        let mut i: usize = 0;
        while i < 32
            invariant
                i <= 32,
                s@.len() == 32,
                forall|j: int| 0 <= j < i ==> out@[j] == s@[j],
            decreases 32 - i,
        {
            out[i] = s[i];
            i = i + 1;
        }
        assert(out@ =~= s@);
        proof {
            Bytes32::lemma_of(Bytes32(out));
        }
        Bytes32(out)
    }

    /// The bytes as a slice.
    pub fn as_slice(&self) -> (r: &[u8])
        ensures
            r@ == self@,
    {
        self.0.as_slice()
    }

    /// True exactly for the all-zero string.
    pub fn is_zero(&self) -> (r: bool)
        ensures
            r == (*self == Self::zero_value()),
    {
        *self == Bytes32::zero()
    }

    /// Compares in byte-wise order.
    pub fn precedes(&self, other: &Bytes32) -> (r: bool)
        ensures
            r == bytes_less(self@, other@),
    {
        let mut i: usize = 0;
        while i < 32
            invariant
                i <= 32,
                forall|j: int| 0 <= j < i ==> self.0@[j] == other.0@[j],
            decreases 32 - i,
        {
            if self.0[i] < other.0[i] {
                assert(splits_less(self@, other@, i as int));
                return true;
            }
            if other.0[i] < self.0[i] {
                assert forall|k: int| !splits_less(self@, other@, k) by {
                    if splits_less(self@, other@, k) {
                        if k > i {
                            assert(self@[i as int] == other@[i as int]);
                        }
                    }
                }
                return false;
            }
            i = i + 1;
        }
        assert forall|k: int| !splits_less(self@, other@, k) by {}
        false
    }
}

impl Bytes52 {
    /// The 52-byte string whose bytes are `s`.
    pub open spec fn of(s: Seq<u8>) -> Bytes52 {
        choose|b: Bytes52| b@ == s
    }

    /// A string is the one made of its own bytes.
    pub proof fn lemma_of(b: Bytes52)
        ensures
            Bytes52::of(b@) == b,
            b@.len() == 52,
    {
        let c = Bytes52::of(b@);
        assert(c@ == b@);
        assert forall|i: int| 0 <= i < 52 implies c.0[i] == b.0[i] by {
            assert(c.0@[i] == b.0@[i]);
        }
        assert(c.0 =~= b.0);
    }

    /// The all-zero string.
    pub fn zero() -> (r: Self)
        ensures
            r@ == Seq::new(52, |i: int| 0u8),
    {
        let r = Bytes52([0u8; 52]);
        assert(r@ =~= Seq::new(52, |i: int| 0u8));
        r
    }

    /// Copies 52 bytes.
    pub fn from_slice(s: &[u8]) -> (r: Self)
        requires
            s@.len() == 52,
        ensures
            r@ == s@,
            r == Self::of(s@),
    {
        let mut out: [u8; 52] = [0u8; 52];
        let mut i: usize = 0;
        while i < 52
            invariant
                i <= 52,
                s@.len() == 52,
                forall|j: int| 0 <= j < i ==> out@[j] == s@[j],
            decreases 52 - i,
        {
            out[i] = s[i];
            i = i + 1;
        }
        assert(out@ =~= s@);
        proof {
            Bytes52::lemma_of(Bytes52(out));
        }
        Bytes52(out)
    }

    /// The bytes as a slice.
    pub fn as_slice(&self) -> (r: &[u8])
        ensures
            r@ == self@,
    {
        self.0.as_slice()
    }

    /// True exactly when both strings hold the same bytes.
    pub fn same_bytes(&self, other: &Bytes52) -> (r: bool)
        ensures
            r == (*self == *other),
    {
        let mut i: usize = 0;
        while i < 52
            invariant
                i <= 52,
                forall|j: int| 0 <= j < i ==> self.0@[j] == other.0@[j],
            decreases 52 - i,
        {
            if self.0[i] != other.0[i] {
                assert(self.0@[i as int] != other.0@[i as int]);
                return false;
            }
            i = i + 1;
        }
        proof {
            assert(self@ =~= other@);
            Bytes52::lemma_of(*self);
            Bytes52::lemma_of(*other);
        }
        true
    }
}

impl Bytes3112 {
    /// The 3112-byte string whose bytes are `s`.
    pub open spec fn of(s: Seq<u8>) -> Bytes3112 {
        choose|b: Bytes3112| b@ == s
    }

    /// A string is the one made of its own bytes.
    pub proof fn lemma_of(b: Bytes3112)
        ensures
            Bytes3112::of(b@) == b,
            b@.len() == 3112,
    {
        let c = Bytes3112::of(b@);
        assert(c@ == b@);
        assert forall|i: int| 0 <= i < 3112 implies c.0[i] == b.0[i] by {
            assert(c.0@[i] == b.0@[i]);
        }
        assert(c.0 =~= b.0);
    }

    /// The all-zero string.
    pub fn zero() -> (r: Self)
        ensures
            r@ == Seq::new(3112, |i: int| 0u8),
    {
        let r = Bytes3112([0u8; 3112]);
        assert(r@ =~= Seq::new(3112, |i: int| 0u8));
        r
    }

    /// Copies 3112 bytes.
    pub fn from_slice(s: &[u8]) -> (r: Self)
        requires
            s@.len() == 3112,
        ensures
            r@ == s@,
            r == Self::of(s@),
    {
        let mut out: [u8; 3112] = [0u8; 3112];
        let mut i: usize = 0;
        while i < 3112
            invariant
                i <= 3112,
                s@.len() == 3112,
                forall|j: int| 0 <= j < i ==> out@[j] == s@[j],
            decreases 3112 - i,
        {
            out[i] = s[i];
            i = i + 1;
        }
        assert(out@ =~= s@);
        proof {
            Bytes3112::lemma_of(Bytes3112(out));
        }
        Bytes3112(out)
    }

    /// The bytes as a slice.
    pub fn as_slice(&self) -> (r: &[u8])
        ensures
            r@ == self@,
    {
        self.0.as_slice()
    }
}

impl<const LIMIT: usize> ByteList<LIMIT> {
    /// What decoding gives.
    pub open spec fn decoded(b: Seq<u8>) -> Result<Seq<u8>, Seq<char>> {
        if b.len() > LIMIT {
            Err("ByteList exceeds its limit"@)
        } else {
            Ok(b)
        }
    }

    /// Takes the bytes when they are within the limit.
    pub fn new(data: Vec<u8>) -> (r: Result<Self, String>)
        ensures
            crate::ssz::view_outcome(r) == Self::decoded(data@),
    {
        if data.len() > LIMIT {
            return Err("ByteList exceeds its limit".to_string());
        }
        Ok(ByteList { data })
    }

    /// A copy of the list.
    pub fn duplicate(&self) -> (r: Self)
        ensures
            r@ == self@,
    {
        ByteList { data: vstd::slice::slice_to_vec(self.data.as_slice()) }
    }

    /// The bytes themselves.
    pub fn encode_ssz(&self) -> (r: Vec<u8>)
        ensures
            r@ == self@,
    {
        vstd::slice::slice_to_vec(self.data.as_slice())
    }

    /// Takes all bytes.
    pub fn decode_ssz(bytes: &[u8]) -> (r: Result<Self, String>)
        ensures
            crate::ssz::view_outcome(r) == Self::decoded(bytes@),
    {
        Self::new(vstd::slice::slice_to_vec(bytes))
    }

    /// Hashes the list.
    pub fn hash_tree_root(&self) -> (r: [u8; 32])
        ensures
            Bytes32(r) == hash::byte_list_root(self@, LIMIT as nat),
    {
        hash::byte_list_root_of(self.data.as_slice(), LIMIT).0
    }
}

impl Bytes32 {
    /// What decoding gives.
    pub open spec fn decoded(b: Seq<u8>) -> Result<Bytes32, Seq<char>> {
        if b.len() == 32 {
            Ok(Bytes32::of(b))
        } else {
            Err(text::length_mismatch("Bytes32"@, 32, b.len()))
        }
    }

    /// Decodes exactly 32 bytes.
    pub fn decode_ssz(bytes: &[u8]) -> (r: Result<Self, String>)
        ensures
            crate::ssz::plain_outcome(r) == Self::decoded(bytes@),
    {
        if bytes.len() != 32 {
            return Err(text::length_mismatch_text("Bytes32", 32, bytes.len()));
        }
        Ok(Bytes32::from_slice(bytes))
    }

    /// The bytes themselves.
    pub fn encode_ssz(&self) -> (r: Vec<u8>)
        ensures
            r@ == self@,
    {
        vstd::slice::slice_to_vec(self.as_slice())
    }

    /// A single chunk is its own root.
    pub fn hash_tree_root(&self) -> (r: [u8; 32])
        ensures
            Bytes32(r) == *self,
    {
        self.0
    }
}

impl SszElement for Bytes32 {
    type Model = Bytes32;

    open spec fn model(&self) -> Bytes32 {
        *self
    }

    open spec fn static_len() -> nat {
        32
    }

    open spec fn packed() -> bool {
        false
    }

    open spec fn encodable(m: Bytes32) -> bool {
        true
    }

    open spec fn to_bytes(m: Bytes32) -> Seq<u8> {
        m@
    }

    open spec fn from_bytes(b: Seq<u8>, checked: bool) -> Result<Bytes32, Seq<char>> {
        Bytes32::decoded(b)
    }

    open spec fn root_of(m: Bytes32) -> Bytes32 {
        m
    }

    fn element_len() -> (r: usize) {
        32
    }

    fn is_packed() -> (r: bool) {
        false
    }

    fn encode_element(&self) -> (r: Vec<u8>) {
        self.encode_ssz()
    }

    fn decode_element(bytes: &[u8], checked: bool) -> (r: Result<Self, String>) {
        Bytes32::decode_ssz(bytes)
    }

    fn element_root(&self) -> (r: Bytes32) {
        *self
    }

    proof fn lemma_static_len(m: Bytes32) {
        Bytes32::lemma_of(m);
    }

    proof fn lemma_packed_len() {
    }
}

impl From<[u8; 32]> for Bytes32 {
    fn from(b: [u8; 32]) -> (r: Self) {
        Bytes32(b)
    }
}

impl vstd::std_specs::convert::FromSpecImpl<[u8; 32]> for Bytes32 {
    open spec fn obeys_from_spec() -> bool {
        true
    }

    open spec fn from_spec(b: [u8; 32]) -> Self {
        Bytes32(b)
    }
}

impl From<[u8; 52]> for Bytes52 {
    fn from(b: [u8; 52]) -> (r: Self) {
        Bytes52(b)
    }
}

impl vstd::std_specs::convert::FromSpecImpl<[u8; 52]> for Bytes52 {
    open spec fn obeys_from_spec() -> bool {
        true
    }

    open spec fn from_spec(b: [u8; 52]) -> Self {
        Bytes52(b)
    }
}

} // verus!
