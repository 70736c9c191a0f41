//! The encoding of the consensus state.
//!
//! The fixed part has 232 bytes: genesis time (8), slot (8), latest header (112), justified
//! checkpoint (40), finalized checkpoint (40), and six offsets. The six lists follow in the
//! order history, justified slots, validators, balances, pending roots, pending votes.

use crate::containers::block::BlockHeader;
use crate::containers::checkpoint::Checkpoint;
use crate::containers::config::Config;
use crate::containers::state::{
    State, StateModel, HISTORICAL_ROOTS_LIMIT, JUSTIFICATION_VALIDATORS_LIMIT,
    VALIDATOR_REGISTRY_LIMIT,
};
use crate::containers::validator::Validator;
use crate::slot::Slot;
use crate::ssz::SszElement;
use crate::types::bitlist;
use crate::types::bitlist::BitList;
use crate::types::bytes::Bytes32;
use crate::types::collections::SszList;
use crate::types::uint::Uint64;
use vstd::prelude::*;

verus! {

/// The fixed fields of a state.
pub open spec fn fixed_fields(s: StateModel) -> Seq<u8> {
    crate::ssz::u64_bytes(s.config.genesis_time.0) + crate::ssz::u64_bytes(s.slot.0.0)
        + s.latest_block_header.bytes() + s.latest_justified.bytes() + s.latest_finalized.bytes()
}

/// Six offsets: the first is 232, and each list begins where the one before it ends.
pub open spec fn six_offsets(
    a: Seq<u8>,
    b: Seq<u8>,
    c: Seq<u8>,
    d: Seq<u8>,
    e: Seq<u8>,
) -> Seq<u8> {
    crate::ssz::offset_bytes(232) + crate::ssz::offset_bytes((232 + a.len()) as nat)
        + crate::ssz::offset_bytes((232 + a.len() + b.len()) as nat) + crate::ssz::offset_bytes(
        (232 + a.len() + b.len() + c.len()) as nat,
    ) + crate::ssz::offset_bytes((232 + a.len() + b.len() + c.len() + d.len()) as nat)
        + crate::ssz::offset_bytes(
        (232 + a.len() + b.len() + c.len() + d.len() + e.len()) as nat,
    )
}

/// Fixed fields, offsets and six lists.
pub open spec fn with_six_lists(
    fixed: Seq<u8>,
    a: Seq<u8>,
    b: Seq<u8>,
    c: Seq<u8>,
    d: Seq<u8>,
    e: Seq<u8>,
    f: Seq<u8>,
) -> Seq<u8> {
    fixed + six_offsets(a, b, c, d, e) + a + b + c + d + e + f
}

/// The six lists are found where the offsets say.
pub proof fn lemma_six_lists(
    fixed: Seq<u8>,
    a: Seq<u8>,
    b: Seq<u8>,
    c: Seq<u8>,
    d: Seq<u8>,
    e: Seq<u8>,
    f: Seq<u8>,
)
    requires
        fixed.len() == 208,
        with_six_lists(fixed, a, b, c, d, e, f).len() < crate::ssz::offset_modulus(),
    ensures
        ({
            let s = with_six_lists(fixed, a, b, c, d, e, f);
            let o1 = 232 + a.len() as int;
            let o2 = o1 + b.len();
            let o3 = o2 + c.len();
            let o4 = o3 + d.len();
            let o5 = o4 + e.len();
            &&& s.len() == o5 + f.len()
            &&& s.subrange(0, 208) == fixed
            &&& crate::ssz::offset_at(s, 208) == 232
            &&& crate::ssz::offset_at(s, 212) == o1
            &&& crate::ssz::offset_at(s, 216) == o2
            &&& crate::ssz::offset_at(s, 220) == o3
            &&& crate::ssz::offset_at(s, 224) == o4
            &&& crate::ssz::offset_at(s, 228) == o5
            &&& s.subrange(232, o1) == a
            &&& s.subrange(o1, o2) == b
            &&& s.subrange(o2, o3) == c
            &&& s.subrange(o3, o4) == d
            &&& s.subrange(o4, o5) == e
            &&& s.subrange(o5, s.len() as int) == f
        }),
{
    let s = with_six_lists(fixed, a, b, c, d, e, f);
    let o1 = (232 + a.len()) as nat;
    let o2 = o1 + b.len();
    let o3 = o2 + c.len();
    let o4 = o3 + d.len();
    let o5 = o4 + e.len();
    crate::ssz::lemma_offset_bytes_mod(232);
    crate::ssz::lemma_offset_bytes_mod(o1);
    crate::ssz::lemma_offset_bytes_mod(o2);
    crate::ssz::lemma_offset_bytes_mod(o3);
    crate::ssz::lemma_offset_bytes_mod(o4);
    crate::ssz::lemma_offset_bytes_mod(o5);
    assert(s.subrange(0, 208) =~= fixed);
    assert(s.subrange(208, 212) =~= crate::ssz::offset_bytes(232));
    assert(s.subrange(212, 216) =~= crate::ssz::offset_bytes(o1));
    assert(s.subrange(216, 220) =~= crate::ssz::offset_bytes(o2));
    assert(s.subrange(220, 224) =~= crate::ssz::offset_bytes(o3));
    assert(s.subrange(224, 228) =~= crate::ssz::offset_bytes(o4));
    assert(s.subrange(228, 232) =~= crate::ssz::offset_bytes(o5));
    crate::ssz::lemma_offset_read(s, 208, 232);
    crate::ssz::lemma_offset_read(s, 212, o1);
    crate::ssz::lemma_offset_read(s, 216, o2);
    crate::ssz::lemma_offset_read(s, 220, o3);
    crate::ssz::lemma_offset_read(s, 224, o4);
    crate::ssz::lemma_offset_read(s, 228, o5);
    assert(s.subrange(232, o1 as int) =~= a);
    assert(s.subrange(o1 as int, o2 as int) =~= b);
    assert(s.subrange(o2 as int, o3 as int) =~= c);
    assert(s.subrange(o3 as int, o4 as int) =~= d);
    assert(s.subrange(o4 as int, o5 as int) =~= e);
    assert(s.subrange(o5 as int, s.len() as int) =~= f);
}

/// Offset `i` of an encoded state; the seventh is the end.
pub open spec fn bound(b: Seq<u8>, i: int) -> int {
    if i < 6 {
        crate::ssz::offset_at(b, 208 + 4 * i) as int
    } else {
        b.len() as int
    }
}

/// The offsets are in order and within the input.
pub open spec fn bounds_ordered(b: Seq<u8>) -> bool {
    &&& bound(b, 0) <= bound(b, 1)
    &&& bound(b, 1) <= bound(b, 2)
    &&& bound(b, 2) <= bound(b, 3)
    &&& bound(b, 3) <= bound(b, 4)
    &&& bound(b, 4) <= bound(b, 5)
    &&& bound(b, 5) <= bound(b, 6)
}

/// The bytes of list `i`.
pub open spec fn field(b: Seq<u8>, i: int) -> Seq<u8> {
    b.subrange(bound(b, i), bound(b, i + 1))
}

impl StateModel {
    /// The encoding.
    pub open spec fn bytes(self) -> Seq<u8> {
        with_six_lists(
            fixed_fields(self),
            crate::ssz::list_bytes::<Bytes32>(self.historical_block_hashes),
            bitlist::bitlist_bytes(self.justified_slots),
            crate::ssz::list_bytes::<Validator>(self.validators),
            crate::ssz::list_bytes::<Uint64>(self.balances),
            crate::ssz::list_bytes::<Bytes32>(self.justifications_roots),
            bitlist::bitlist_bytes(self.justifications_validators),
        )
    }

    /// What decoding gives; checked decoding wants the first offset to be exact.
    pub open spec fn decoded(b: Seq<u8>, checked: bool) -> Result<StateModel, Seq<char>> {
        if b.len() < 232 {
            Err("State input shorter than fixed section"@)
        } else if checked && bound(b, 0) != 232 {
            Err("State first offset must equal fixed section length"@)
        } else if !bounds_ordered(b) {
            Err("State offsets are invalid"@)
        } else {
            match crate::ssz::list_from_bytes::<Bytes32>(
                field(b, 0),
                HISTORICAL_ROOTS_LIMIT as nat,
                checked,
            ) {
                Err(e) => Err(e),
                Ok(history) => match bitlist::bitlist_from_bytes(
                    field(b, 1),
                    HISTORICAL_ROOTS_LIMIT as nat,
                ) {
                    Err(e) => Err(e),
                    Ok(justified) => match crate::ssz::list_from_bytes::<Validator>(
                        field(b, 2),
                        VALIDATOR_REGISTRY_LIMIT as nat,
                        checked,
                    ) {
                        Err(e) => Err(e),
                        Ok(validators) => match crate::ssz::list_from_bytes::<Uint64>(
                            field(b, 3),
                            VALIDATOR_REGISTRY_LIMIT as nat,
                            checked,
                        ) {
                            Err(e) => Err(e),
                            Ok(balances) => match crate::ssz::list_from_bytes::<Bytes32>(
                                field(b, 4),
                                HISTORICAL_ROOTS_LIMIT as nat,
                                checked,
                            ) {
                                Err(e) => Err(e),
                                Ok(roots) => match bitlist::bitlist_from_bytes(
                                    field(b, 5),
                                    JUSTIFICATION_VALIDATORS_LIMIT as nat,
                                ) {
                                    Err(e) => Err(e),
                                    Ok(votes) => Ok(
                                        StateModel {
                                            config: Config {
                                                genesis_time: Uint64(crate::ssz::u64_at(b, 0)),
                                            },
                                            slot: Slot(Uint64(crate::ssz::u64_at(b, 8))),
                                            latest_block_header: BlockHeader::read(
                                                b.subrange(16, 128),
                                            ),
                                            latest_justified: Checkpoint::read(
                                                b.subrange(128, 168),
                                            ),
                                            latest_finalized: Checkpoint::read(
                                                b.subrange(168, 208),
                                            ),
                                            historical_block_hashes: history,
                                            justified_slots: justified,
                                            validators,
                                            balances,
                                            justifications_roots: roots,
                                            justifications_validators: votes,
                                        },
                                    ),
                                },
                            },
                        },
                    },
                },
            }
        }
    }

    /// Every list is within its limit.
    pub open spec fn within_limits(self) -> bool {
        &&& self.historical_block_hashes.len() <= HISTORICAL_ROOTS_LIMIT
        &&& self.justified_slots.len() <= HISTORICAL_ROOTS_LIMIT
        &&& self.validators.len() <= VALIDATOR_REGISTRY_LIMIT
        &&& self.balances.len() <= VALIDATOR_REGISTRY_LIMIT
        &&& self.justifications_roots.len() <= HISTORICAL_ROOTS_LIMIT
        &&& self.justifications_validators.len() <= JUSTIFICATION_VALIDATORS_LIMIT
    }

    /// A state within its limits always fits the offsets.
    pub proof fn lemma_encoded_size(self)
        requires
            self.within_limits(),
        ensures
            self.bytes().len() < crate::ssz::offset_modulus(),
            fixed_fields(self).len() == 208,
    {
        lemma_fixed_list_size::<Bytes32>(self.historical_block_hashes);
        lemma_fixed_list_size::<Validator>(self.validators);
        lemma_fixed_list_size::<Uint64>(self.balances);
        lemma_fixed_list_size::<Bytes32>(self.justifications_roots);
        bitlist::lemma_bitlist_roundtrip(self.justified_slots, HISTORICAL_ROOTS_LIMIT as nat);
        bitlist::lemma_bitlist_roundtrip(
            self.justifications_validators,
            JUSTIFICATION_VALIDATORS_LIMIT as nat,
        );
        crate::ssz::lemma_u64_len(self.config.genesis_time.0);
        crate::ssz::lemma_u64_len(self.slot.0.0);
        self.latest_block_header.law_roundtrip();
        self.latest_justified.law_roundtrip();
        self.latest_finalized.law_roundtrip();
        lemma_six_offsets_len(
            crate::ssz::list_bytes::<Bytes32>(self.historical_block_hashes),
            bitlist::bitlist_bytes(self.justified_slots),
            crate::ssz::list_bytes::<Validator>(self.validators),
            crate::ssz::list_bytes::<Uint64>(self.balances),
            crate::ssz::list_bytes::<Bytes32>(self.justifications_roots),
        );
    }

    /// Decoding gives back what was encoded.
    pub proof fn law_roundtrip(self, checked: bool)
        requires
            self.within_limits(),
        ensures
            StateModel::decoded(self.bytes(), checked) == Ok::<StateModel, Seq<char>>(self),
    {
        let b = self.bytes();
        let fixed = fixed_fields(self);
        self.lemma_encoded_size();
        let hist = crate::ssz::list_bytes::<Bytes32>(self.historical_block_hashes);
        let just = bitlist::bitlist_bytes(self.justified_slots);
        let vals = crate::ssz::list_bytes::<Validator>(self.validators);
        let bals = crate::ssz::list_bytes::<Uint64>(self.balances);
        let roots = crate::ssz::list_bytes::<Bytes32>(self.justifications_roots);
        let votes = bitlist::bitlist_bytes(self.justifications_validators);
        lemma_six_lists(fixed, hist, just, vals, bals, roots, votes);
        lemma_fixed_fields(self, b);
        lemma_roots_roundtrip(self.historical_block_hashes, checked);
        lemma_roots_roundtrip(self.justifications_roots, checked);
        assert forall|i: int| 0 <= i < self.validators.len() implies Validator::from_bytes(
            Validator::to_bytes(#[trigger] self.validators[i]),
            checked,
        ) == Ok::<Validator, Seq<char>>(self.validators[i]) by {
            self.validators[i].law_roundtrip();
        }
        crate::ssz::lemma_list_roundtrip::<Validator>(
            self.validators,
            VALIDATOR_REGISTRY_LIMIT as nat,
            checked,
        );
        assert forall|i: int| 0 <= i < self.balances.len() implies Uint64::from_bytes(
            Uint64::to_bytes(#[trigger] self.balances[i]),
            checked,
        ) == Ok::<Uint64, Seq<char>>(self.balances[i]) by {
            let n = self.balances[i].0;
            crate::ssz::lemma_u64_len(n);
            let nb = crate::ssz::u64_bytes(n);
            assert(nb.subrange(0, 8) =~= nb);
            crate::ssz::lemma_u64_read(nb, 0, n);
        }
        crate::ssz::lemma_list_roundtrip::<Uint64>(
            self.balances,
            VALIDATOR_REGISTRY_LIMIT as nat,
            checked,
        );
        bitlist::lemma_bitlist_roundtrip(self.justified_slots, HISTORICAL_ROOTS_LIMIT as nat);
        bitlist::lemma_bitlist_roundtrip(
            self.justifications_validators,
            JUSTIFICATION_VALIDATORS_LIMIT as nat,
        );
    }
}

proof fn lemma_roots_roundtrip(roots: Seq<Bytes32>, checked: bool)
    requires
        roots.len() <= HISTORICAL_ROOTS_LIMIT,
    ensures
        crate::ssz::list_from_bytes::<Bytes32>(
            crate::ssz::list_bytes::<Bytes32>(roots),
            HISTORICAL_ROOTS_LIMIT as nat,
            checked,
        ) == Ok::<Seq<Bytes32>, Seq<char>>(roots),
{
    lemma_fixed_list_size::<Bytes32>(roots);
    assert forall|i: int| 0 <= i < roots.len() implies Bytes32::from_bytes(
        Bytes32::to_bytes(#[trigger] roots[i]),
        checked,
    ) == Ok::<Bytes32, Seq<char>>(roots[i]) by {
        Bytes32::lemma_of(roots[i]);
    }
    crate::ssz::lemma_list_roundtrip::<Bytes32>(roots, HISTORICAL_ROOTS_LIMIT as nat, checked);
}

proof fn lemma_fixed_list_size<T: SszElement>(ms: Seq<T::Model>)
    requires
        T::static_len() > 0,
    ensures
        crate::ssz::list_bytes::<T>(ms).len() == ms.len() * T::static_len(),
{
    let parts = crate::ssz::encoded_parts::<T>(ms);
    assert forall|i: int| 0 <= i < parts.len() implies (#[trigger] parts[i]).len()
        == T::static_len() by {
        T::lemma_static_len(ms[i]);
    }
    crate::ssz::lemma_joined_fixed(parts, T::static_len(), ms.len());
    assert(parts.take(ms.len() as int) =~= parts);
}

proof fn lemma_six_offsets_len(a: Seq<u8>, b: Seq<u8>, c: Seq<u8>, d: Seq<u8>, e: Seq<u8>)
    ensures
        six_offsets(a, b, c, d, e).len() == 24,
{
    crate::ssz::lemma_offset_bytes_mod(232);
    crate::ssz::lemma_offset_bytes_mod((232 + a.len()) as nat);
    crate::ssz::lemma_offset_bytes_mod((232 + a.len() + b.len()) as nat);
    crate::ssz::lemma_offset_bytes_mod((232 + a.len() + b.len() + c.len()) as nat);
    crate::ssz::lemma_offset_bytes_mod((232 + a.len() + b.len() + c.len() + d.len()) as nat);
    crate::ssz::lemma_offset_bytes_mod(
        (232 + a.len() + b.len() + c.len() + d.len() + e.len()) as nat,
    );
}

/// The fixed fields are read back from the front of an encoding.
proof fn lemma_fixed_fields(s: StateModel, b: Seq<u8>)
    requires
        b.len() >= 208,
        b.subrange(0, 208) == fixed_fields(s),
    ensures
        crate::ssz::u64_at(b, 0) == s.config.genesis_time.0,
        crate::ssz::u64_at(b, 8) == s.slot.0.0,
        BlockHeader::read(b.subrange(16, 128)) == s.latest_block_header,
        Checkpoint::read(b.subrange(128, 168)) == s.latest_justified,
        Checkpoint::read(b.subrange(168, 208)) == s.latest_finalized,
{
    let f = fixed_fields(s);
    crate::ssz::lemma_u64_len(s.config.genesis_time.0);
    crate::ssz::lemma_u64_len(s.slot.0.0);
    s.latest_block_header.law_roundtrip();
    s.latest_justified.law_roundtrip();
    s.latest_finalized.law_roundtrip();
    assert(b.subrange(0, 8) =~= f.subrange(0, 8));
    assert(f.subrange(0, 8) =~= crate::ssz::u64_bytes(s.config.genesis_time.0));
    assert(b.subrange(8, 16) =~= f.subrange(8, 16));
    assert(f.subrange(8, 16) =~= crate::ssz::u64_bytes(s.slot.0.0));
    crate::ssz::lemma_u64_read(b, 0, s.config.genesis_time.0);
    crate::ssz::lemma_u64_read(b, 8, s.slot.0.0);
    assert(b.subrange(16, 128) =~= f.subrange(16, 128));
    assert(f.subrange(16, 128) =~= s.latest_block_header.bytes());
    assert(b.subrange(128, 168) =~= f.subrange(128, 168));
    assert(f.subrange(128, 168) =~= s.latest_justified.bytes());
    assert(b.subrange(168, 208) =~= f.subrange(168, 208));
    assert(f.subrange(168, 208) =~= s.latest_finalized.bytes());
}

/// Writes the six offsets and the six lists behind the fixed fields.
fn put_six_lists(
    out: &mut Vec<u8>,
    a: &Vec<u8>,
    b: &Vec<u8>,
    c: &Vec<u8>,
    d: &Vec<u8>,
    e: &Vec<u8>,
    f: &Vec<u8>,
)
    ensures
        final(out)@ == with_six_lists(old(out)@, a@, b@, c@, d@, e@, f@),
{
    let ghost fixed = out@;
    let o1: u64 = crate::ssz::advance_offset(232, a.len());
    let o2: u64 = crate::ssz::advance_offset(o1, b.len());
    let o3: u64 = crate::ssz::advance_offset(o2, c.len());
    let o4: u64 = crate::ssz::advance_offset(o3, d.len());
    let o5: u64 = crate::ssz::advance_offset(o4, e.len());
    proof {
        let m = 0x1_0000_0000int;
        let s1 = 232 + a@.len() as int;
        let s2 = s1 + b@.len();
        let s3 = s2 + c@.len();
        let s4 = s3 + d@.len();
        let s5 = s4 + e@.len();
        lemma_step(o1 as int, s1, b@.len() as int, m);
        lemma_step(o2 as int, s2, c@.len() as int, m);
        lemma_step(o3 as int, s3, d@.len() as int, m);
        lemma_step(o4 as int, s4, e@.len() as int, m);
        crate::ssz::lemma_offset_bytes_mod(s1 as nat);
        crate::ssz::lemma_offset_bytes_mod(s2 as nat);
        crate::ssz::lemma_offset_bytes_mod(s3 as nat);
        crate::ssz::lemma_offset_bytes_mod(s4 as nat);
        crate::ssz::lemma_offset_bytes_mod(s5 as nat);
    }
    crate::ssz::put_offset(out, 232);
    crate::ssz::put_offset(out, o1);
    crate::ssz::put_offset(out, o2);
    crate::ssz::put_offset(out, o3);
    crate::ssz::put_offset(out, o4);
    crate::ssz::put_offset(out, o5);
    assert(out@ =~= fixed + six_offsets(a@, b@, c@, d@, e@));
    crate::ssz::put_bytes(out, a.as_slice());
    crate::ssz::put_bytes(out, b.as_slice());
    crate::ssz::put_bytes(out, c.as_slice());
    crate::ssz::put_bytes(out, d.as_slice());
    crate::ssz::put_bytes(out, e.as_slice());
    crate::ssz::put_bytes(out, f.as_slice());
}

proof fn lemma_step(reduced: int, full: int, len: int, m: int)
    requires
        m > 0,
        reduced == full % m,
    ensures
        (reduced + len) % m == (full + len) % m,
{
    vstd::arithmetic::div_mod::lemma_add_mod_noop(full, len, m);
    vstd::arithmetic::div_mod::lemma_add_mod_noop(reduced, len, m);
    vstd::arithmetic::div_mod::lemma_mod_twice(full, m);
}

impl State {
    /// Encodes the state.
    pub fn encode_ssz(&self) -> (r: Vec<u8>)
        ensures
            r@ == self@.bytes(),
    {
        let hist = self.historical_block_hashes.encode_ssz();
        let justified = self.justified_slots.encode_ssz();
        let validators = self.validators.encode_ssz();
        let balances = self.balances.encode_ssz();
        let roots = self.justifications_roots.encode_ssz();
        let votes = self.justifications_validators.encode_ssz();
        let mut out: Vec<u8> = Vec::new();
        crate::ssz::put_u64(&mut out, self.config.genesis_time.0);
        crate::ssz::put_u64(&mut out, self.slot.0.0);
        crate::ssz::put_bytes(&mut out, self.latest_block_header.encode_ssz().as_slice());
        crate::ssz::put_bytes(&mut out, self.latest_justified.encode_ssz().as_slice());
        crate::ssz::put_bytes(&mut out, self.latest_finalized.encode_ssz().as_slice());
        assert(out@ =~= fixed_fields(self@));
        put_six_lists(&mut out, &hist, &justified, &validators, &balances, &roots, &votes);
        out
    }

    fn decode_with(bytes: &[u8], checked: bool) -> (r: Result<Self, String>)
        ensures
            crate::ssz::view_outcome(r) == StateModel::decoded(bytes@, checked),
    {
        let total: usize = bytes.len();
        if total < 232 {
            return Err("State input shorter than fixed section".to_string());
        }
        let o0: usize = crate::ssz::get_offset(bytes, 208);
        let o1: usize = crate::ssz::get_offset(bytes, 212);
        let o2: usize = crate::ssz::get_offset(bytes, 216);
        let o3: usize = crate::ssz::get_offset(bytes, 220);
        let o4: usize = crate::ssz::get_offset(bytes, 224);
        let o5: usize = crate::ssz::get_offset(bytes, 228);
        if checked && o0 != 232 {
            return Err("State first offset must equal fixed section length".to_string());
        }
        if o0 > o1 || o1 > o2 || o2 > o3 || o3 > o4 || o4 > o5 || o5 > total {
            return Err("State offsets are invalid".to_string());
        }
        let history = match decode_list(vstd::slice::slice_subrange(bytes, o0, o1), checked) {
            Ok(v) => v,
            Err(e) => {
                return Err(e);
            },
        };
        let justified = match BitList::decode_ssz(vstd::slice::slice_subrange(bytes, o1, o2)) {
            Ok(v) => v,
            Err(e) => {
                return Err(e);
            },
        };
        let validators = match decode_list(vstd::slice::slice_subrange(bytes, o2, o3), checked) {
            Ok(v) => v,
            Err(e) => {
                return Err(e);
            },
        };
        let balances = match decode_list(vstd::slice::slice_subrange(bytes, o3, o4), checked) {
            Ok(v) => v,
            Err(e) => {
                return Err(e);
            },
        };
        let roots = match decode_list(vstd::slice::slice_subrange(bytes, o4, o5), checked) {
            Ok(v) => v,
            Err(e) => {
                return Err(e);
            },
        };
        let votes = match BitList::decode_ssz(vstd::slice::slice_subrange(bytes, o5, total)) {
            Ok(v) => v,
            Err(e) => {
                return Err(e);
            },
        };
        Ok(
            State {
                config: Config { genesis_time: Uint64(crate::ssz::get_u64(bytes, 0)) },
                slot: Slot(Uint64(crate::ssz::get_u64(bytes, 8))),
                latest_block_header: BlockHeader::take_from(
                    vstd::slice::slice_subrange(bytes, 16, 128),
                ),
                latest_justified: Checkpoint::take_from(
                    vstd::slice::slice_subrange(bytes, 128, 168),
                ),
                latest_finalized: Checkpoint::take_from(
                    vstd::slice::slice_subrange(bytes, 168, 208),
                ),
                historical_block_hashes: history,
                justified_slots: justified,
                validators,
                balances,
                justifications_roots: roots,
                justifications_validators: votes,
            },
        )
    }

    /// Decodes a state. Input whose offsets do not delimit its lists is refused.
    pub fn decode_ssz(bytes: &[u8]) -> (r: Result<Self, String>)
        ensures
            crate::ssz::view_outcome(r) == StateModel::decoded(bytes@, false),
    {
        Self::decode_with(bytes, false)
    }

    /// Decodes a state from untrusted bytes.
    pub fn decode_ssz_checked(bytes: &[u8]) -> (r: Result<Self, String>)
        ensures
            crate::ssz::view_outcome(r) == StateModel::decoded(bytes@, true),
    {
        Self::decode_with(bytes, true)
    }
}

fn decode_list<T: SszElement, const LIMIT: usize>(bytes: &[u8], checked: bool) -> (r: Result<
    SszList<T, LIMIT>,
    String,
>)
    ensures
        crate::ssz::view_outcome(r) == crate::ssz::list_from_bytes::<T>(
            bytes@,
            LIMIT as nat,
            checked,
        ),
{
    if checked {
        SszList::decode_ssz_checked(bytes)
    } else {
        SszList::decode_ssz(bytes)
    }
}

} // verus!
