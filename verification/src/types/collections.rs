//! Lists with a length limit.

use crate::ssz::SszElement;
use crate::types::bytes::Bytes32;
use vstd::prelude::*;

verus! {

/// A list of at most `LIMIT` elements.
#[derive(Clone, Debug, PartialEq, Eq)]
pub struct SszList<T, const LIMIT: usize> {
    pub data: Vec<T>,
}

impl<T: SszElement, const LIMIT: usize> View for SszList<T, LIMIT> {
    type V = Seq<T::Model>;

    open spec fn view(&self) -> Seq<T::Model> {
        crate::ssz::models(self.data@)
    }
}

impl<T: SszElement, const LIMIT: usize> SszList<T, LIMIT> {
    /// Takes the elements when they are within the limit.
    pub fn new(data: Vec<T>) -> (r: Result<Self, String>)
        ensures
            match r {
                Ok(list) => data@.len() <= LIMIT && list.data@ == data@,
                Err(e) => data@.len() > LIMIT && e@ == "SszList exceeds its limit"@,
            },
    {
        if data.len() > LIMIT {
            return Err("SszList exceeds its limit".to_string());
        }
        Ok(SszList { data })
    }

    /// The list without elements.
    pub fn empty() -> (r: Self)
        ensures
            r@ == Seq::<T::Model>::empty(),
            r.data@ == Seq::<T>::empty(),
    {
        let r = SszList { data: Vec::new() };
        assert(crate::ssz::models(r.data@) =~= Seq::<T::Model>::empty());
        r
    }

    /// Encodes the list.
    pub fn encode_ssz(&self) -> (r: Vec<u8>)
        requires
            forall|i: int| 0 <= i < self@.len() ==> T::encodable(#[trigger] self@[i]),
        ensures
            r@ == crate::ssz::list_bytes::<T>(self@),
    {
        let n: usize = self.data.len();
        let ghost parts = crate::ssz::encoded_parts::<T>(self@);
        let mut body: Vec<u8> = Vec::new();
        let mut table: Vec<u8> = Vec::new();
        let mut at: u64 = (((n as u64) % 0x1_0000_0000) * 4) % 0x1_0000_0000;
        let mut i: usize = 0;
        proof {
            assert(parts.take(0) =~= Seq::empty());
            assert(((n as int % 0x1_0000_0000) * 4) % 0x1_0000_0000 == (4 * n as int)
                % 0x1_0000_0000) by {
                vstd::arithmetic::div_mod::lemma_mul_mod_noop_left(n as int, 4, 0x1_0000_0000);
            }
        }
        while i < n
            invariant
                i <= n,
                n == self.data@.len(),
                parts == crate::ssz::encoded_parts::<T>(self@),
                body@ == crate::ssz::joined(parts.take(i as int)),
                table@ == crate::ssz::offset_table(parts, i as nat),
                at == crate::ssz::part_start(parts, i as nat) % crate::ssz::offset_modulus(),
                forall|i: int| 0 <= i < self@.len() ==> T::encodable(#[trigger] self@[i]),
            decreases n - i,
        {
            assert(self@[i as int] == self.data@[i as int].model());
            let mut part = self.data[i].encode_element();
            let len: usize = part.len();
            proof {
                crate::ssz::lemma_joined_step(parts, i as nat);
                crate::ssz::lemma_offset_bytes_mod(crate::ssz::part_start(parts, i as nat));
                vstd::arithmetic::div_mod::lemma_add_mod_noop(
                    crate::ssz::part_start(parts, i as nat) as int,
                    len as int,
                    0x1_0000_0000,
                );
                vstd::arithmetic::div_mod::lemma_add_mod_noop(at as int, len as int, 0x1_0000_0000);
                vstd::arithmetic::div_mod::lemma_mod_twice(
                    crate::ssz::part_start(parts, i as nat) as int,
                    0x1_0000_0000,
                );
            }
            crate::ssz::put_offset(&mut table, at);
            at = crate::ssz::advance_offset(at, len);
            body.append(&mut part);
            i = i + 1;
        }
        assert(parts.take(n as int) =~= parts);
        if T::element_len() > 0 {
            body
        } else {
            table.append(&mut body);
            table
        }
    }

    fn decode_with(bytes: &[u8], checked: bool) -> (r: Result<Self, String>)
        ensures
            crate::ssz::view_outcome(r) == crate::ssz::list_from_bytes::<T>(bytes@, LIMIT as nat, checked),
    {
        let size: usize = T::element_len();
        let total: usize = bytes.len();
        let n: usize = if size > 0 {
            if total % size != 0 {
                return Err("SszList length is not a multiple of the element length".to_string());
            }
            total / size
        } else if total == 0 {
            0
        } else if total < 4 {
            return Err("SszList missing offset table".to_string());
        } else {
            let first: usize = crate::ssz::get_offset(bytes, 0);
            if first == 0 || first % 4 != 0 || first > total {
                return Err("SszList first offset is invalid".to_string());
            }
            first / 4
        };
        assert(crate::ssz::announced_count::<T>(bytes@) == Ok::<nat, Seq<char>>(n as nat));
        if n > LIMIT {
            return Err("SszList exceeds its limit".to_string());
        }
        proof {
            if size > 0 {
                vstd::arithmetic::div_mod::lemma_fundamental_div_mod(total as int, size as int);
                assert(n * size == size * n) by (nonlinear_arith);
            }
        }
        let mut data: Vec<T> = Vec::new();
        let mut i: usize = 0;
        assert(crate::ssz::models(data@) =~= Seq::<T::Model>::empty());
        while i < n
            invariant
                i <= n,
                size == T::static_len(),
                total == bytes@.len(),
                n <= LIMIT,
                size > 0 ==> n * size == total,
                size == 0 ==> 4 * n <= total,
                crate::ssz::announced_count::<T>(bytes@) == Ok::<nat, Seq<char>>(n as nat),
                crate::ssz::parse_prefix::<T>(bytes@, n as nat, i as nat, checked) == Ok::<
                    Seq<T::Model>,
                    Seq<char>,
                >(crate::ssz::models(data@)),
            decreases n - i,
        {
            proof {
                if size > 0 {
                    assert(i * size + size <= n * size && i * size >= 0 && i * size + size == (i + 1)
                        * size) by (nonlinear_arith)
                        requires
                            i + 1 <= n,
                            size > 0,
                    ;
                }
            }
            let start: usize = if size > 0 { i * size } else { crate::ssz::get_offset(bytes, 4 * i) };
            let end: usize = if size > 0 {
                i * size + size
            } else if i + 1 < n {
                crate::ssz::get_offset(bytes, 4 * (i + 1))
            } else {
                total
            };
            assert(start == crate::ssz::piece_start::<T>(bytes@, n as nat, i as int));
            assert(end == crate::ssz::piece_start::<T>(bytes@, n as nat, i + 1));
            if start > end || end > total {
                proof {
                    crate::ssz::lemma_prefix_error::<T>(
                        bytes@,
                        n as nat,
                        (i + 1) as nat,
                        n as nat,
                        checked,
                    );
                }
                return Err("SszList offsets are invalid".to_string());
            }
            let piece = vstd::slice::slice_subrange(bytes, start, end);
            match T::decode_element(piece, checked) {
                Ok(v) => {
                    let ghost before = data@;
                    data.push(v);
                    assert(crate::ssz::models(data@) =~= crate::ssz::models(before).push(
                        v.model(),
                    ));
                },
                Err(e) => {
                    proof {
                        crate::ssz::lemma_prefix_error::<T>(
                            bytes@,
                            n as nat,
                            (i + 1) as nat,
                            n as nat,
                            checked,
                        );
                    }
                    return Err(e);
                },
            }
            i = i + 1;
        }
        Ok(SszList { data })
    }

    /// Decodes a list; elements are decoded leniently.
    pub fn decode_ssz(bytes: &[u8]) -> (r: Result<Self, String>)
        ensures
            crate::ssz::view_outcome(r) == crate::ssz::list_from_bytes::<T>(bytes@, LIMIT as nat, false),
    {
        Self::decode_with(bytes, false)
    }

    /// Decodes a list from untrusted bytes.
    pub fn decode_ssz_checked(bytes: &[u8]) -> (r: Result<Self, String>)
        ensures
            crate::ssz::view_outcome(r) == crate::ssz::list_from_bytes::<T>(bytes@, LIMIT as nat, true),
    {
        Self::decode_with(bytes, true)
    }

    /// The tree root of the list.
    pub fn hash_tree_root(&self) -> (r: [u8; 32])
        ensures
            Bytes32(r) == crate::ssz::list_root::<T>(self@, LIMIT as nat),
    {
        let n: usize = self.data.len();
        if T::is_packed() {
            let mut body: Vec<u8> = Vec::new();
            let ghost parts = crate::ssz::encoded_parts::<T>(self@);
            assert(parts.take(0) =~= Seq::empty());
            let mut i: usize = 0;
            while i < n
                invariant
                    i <= n,
                    n == self.data@.len(),
                    T::packed(),
                    parts == crate::ssz::encoded_parts::<T>(self@),
                    body@ == crate::ssz::joined(parts.take(i as int)),
                decreases n - i,
            {
                assert(self@[i as int] == self.data@[i as int].model());
                proof {
                    crate::ssz::lemma_joined_step(parts, i as nat);
                    T::lemma_static_len(self@[i as int]);
                }
                let mut part = self.data[i].encode_element();
                body.append(&mut part);
                i = i + 1;
            }
            assert(parts.take(n as int) =~= parts);
            let leaves = crate::ssz::hash::to_chunks(body.as_slice());
            let size: usize = T::element_len();
            proof {
                T::lemma_packed_len();
            }
            let per_chunk: usize = 32 / size;
            assert(per_chunk >= 1 && (per_chunk == 1 || LIMIT as int / per_chunk as int <= LIMIT as int
                / 2)) by (nonlinear_arith)
                requires
                    per_chunk == 32usize / size,
                    0 < size <= 32,
                    LIMIT >= 0,
            ;
            assert(per_chunk == 1 ==> LIMIT % per_chunk == 0);
            let limit: usize = LIMIT / per_chunk + (if LIMIT % per_chunk == 0 { 0usize } else {
                1usize
            });
            let root = crate::ssz::hash::merkleize_limit(leaves.as_slice(), limit);
            crate::ssz::hash::mix_in_length(&root, n).0
        } else {
            let mut leaves: Vec<Bytes32> = Vec::new();
            let mut i: usize = 0;
            while i < n
                invariant
                    i <= n,
                    n == self.data@.len(),
                    leaves@ == Seq::new(i as nat, |k: int| T::root_of(self@[k])),
                decreases n - i,
            {
                assert(self@[i as int] == self.data@[i as int].model());
                leaves.push(self.data[i].element_root());
                assert(leaves@ =~= Seq::new((i + 1) as nat, |k: int| T::root_of(self@[k])));
                i = i + 1;
            }
            let root = crate::ssz::hash::merkleize_limit(leaves.as_slice(), LIMIT);
            crate::ssz::hash::mix_in_length(&root, n).0
        }
    }
}

impl<T: SszElement + Copy, const LIMIT: usize> SszList<T, LIMIT> {
    /// A copy of the list.
    pub fn duplicate(&self) -> (r: Self)
        ensures
            r.data@ == self.data@,
            r@ == self@,
    {
        SszList { data: vstd::slice::slice_to_vec(self.data.as_slice()) }
    }
}

} // verus!
