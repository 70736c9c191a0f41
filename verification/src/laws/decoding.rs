//! Which bytes are taken for a value, and for which.

use crate::containers::attestation::{
    AttestationData, AttestationModel, ProofModel, SignedAggregateModel, SignedAttestation,
};
use crate::containers::block;
use crate::containers::block::{BlockHeader, BlockModel, SignaturesModel};
use crate::containers::checkpoint::Checkpoint;
use crate::containers::state::StateModel;
use crate::containers::validator::Validator;
use crate::laws::layout::{lemma_bytes_of, number_in, offset_in};
use crate::ssz;
use crate::ssz::SszElement;
use crate::types::bitlist;
use crate::types::bytes::{Bytes3112, Bytes32, Bytes52};
use crate::types::uint::Uint64;
use vstd::prelude::*;

verus! {

proof fn lemma_offset_at(b: Seq<u8>, at: int)
    requires
        0 <= at,
        at + 4 <= b.len(),
    ensures
        ssz::offset_at(b, at) == offset_in(b, at),
{
    crate::laws::layout::law_offsets(0, b, at);
}

proof fn lemma_number_at(b: Seq<u8>, at: int)
    requires
        0 <= at,
        at + 8 <= b.len(),
    ensures
        ssz::u64_at(b, at) == number_in(b, at),
{
    crate::laws::layout::law_numbers(0, b, at);
}

/// A value of fixed size is read from exactly as many bytes as it has.
pub proof fn law_fixed_sizes(b: Seq<u8>)
    ensures
        AttestationData::decoded(b) is Ok <==> b.len() == 128,
        BlockHeader::decoded(b) is Ok <==> b.len() == 112,
        SignedAttestation::decoded(b) is Ok <==> b.len() == 3_248,
        Validator::decoded(b) is Ok <==> b.len() == 68,
{
}

/// A checkpoint is read from 32 bytes of root and the slot behind them.
pub proof fn law_checkpoint_is_read(b: Seq<u8>)
    requires
        b.len() >= 40,
    ensures
        Checkpoint::read(b).root@ == b.subrange(0, 32),
        Checkpoint::read(b).slot.num() == number_in(b, 32),
{
    lemma_bytes_of(b.subrange(0, 32));
    lemma_number_at(b, 32);
}

/// A vote is read from its slot, its head, its target and its source, in this order.
pub proof fn law_vote_is_read(b: Seq<u8>)
    requires
        b.len() >= 128,
    ensures
        ({
            let d = AttestationData::read(b);
            &&& d.slot.num() == number_in(b, 0)
            &&& d.head.root@ == b.subrange(8, 40)
            &&& d.head.slot.num() == number_in(b, 40)
            &&& d.target.root@ == b.subrange(48, 80)
            &&& d.target.slot.num() == number_in(b, 80)
            &&& d.source.root@ == b.subrange(88, 120)
            &&& d.source.slot.num() == number_in(b, 120)
        }),
{
    lemma_number_at(b, 0);
    law_checkpoint_is_read(b.subrange(8, 48));
    law_checkpoint_is_read(b.subrange(48, 88));
    law_checkpoint_is_read(b.subrange(88, 128));
    assert(b.subrange(8, 48).subrange(0, 32) =~= b.subrange(8, 40));
    assert(b.subrange(48, 88).subrange(0, 32) =~= b.subrange(48, 80));
    assert(b.subrange(88, 128).subrange(0, 32) =~= b.subrange(88, 120));
}

/// A header is read from its slot, its proposer and three roots, in this order.
pub proof fn law_header_is_read(b: Seq<u8>)
    requires
        b.len() >= 112,
    ensures
        ({
            let h = BlockHeader::read(b);
            &&& h.slot.num() == number_in(b, 0)
            &&& h.proposer_index.0.0 == number_in(b, 8)
            &&& h.parent_root@ == b.subrange(16, 48)
            &&& h.state_root@ == b.subrange(48, 80)
            &&& h.body_root@ == b.subrange(80, 112)
        }),
{
    lemma_number_at(b, 0);
    lemma_number_at(b, 8);
    lemma_bytes_of(b.subrange(16, 48));
    lemma_bytes_of(b.subrange(48, 80));
    lemma_bytes_of(b.subrange(80, 112));
}

/// A validator is read from its key, its index and its balance, in this order.
pub proof fn law_validator_is_read(b: Seq<u8>)
    requires
        b.len() >= 68,
    ensures
        Validator::read(b).pubkey == Bytes52::of(b.subrange(0, 52)),
        Validator::read(b).index.0.0 == number_in(b, 52),
        Validator::read(b).balance.0 == number_in(b, 60),
{
    lemma_number_at(b, 52);
    lemma_number_at(b, 60);
}

/// A bit list needs a marker in its last byte. It has eight bits for each byte before that one,
/// and as many more as stand below the marker; more than the limit are refused.
pub proof fn law_bits_are_read(b: Seq<u8>, limit: nat)
    ensures
        b.len() == 0 ==> bitlist::bitlist_from_bytes(b, limit) is Err,
        b.len() > 0 && b.last() == 0 ==> bitlist::bitlist_from_bytes(b, limit) is Err,
        bitlist::bitlist_from_bytes(b, limit) matches Ok(bits) ==> bits.len() <= limit && 8 * (
        b.len() - 1) <= bits.len() <= 8 * (b.len() - 1) + 7,
        b.len() > 0 && b.last() != 0 && 8 * (b.len() - 1) + 7 <= limit
            ==> bitlist::bitlist_from_bytes(b, limit) is Ok,
        b.len() > 0 && 8 * (b.len() - 1) > limit ==> bitlist::bitlist_from_bytes(b, limit) is Err,
{
    reveal(bitlist::bitlist_from_bytes);
    if b.len() > 0 && b.last() != 0 {
        lemma_top_bit(b.last());
    }
}

proof fn lemma_top_bit(v: u8)
    requires
        v != 0,
    ensures
        0 <= bitlist::top_bit(v) <= 7,
{
}

/// Where a list begins and ends is read from its offsets; an attestation's participants stand
/// behind its vote, up to the end.
pub proof fn law_attestation_is_read(b: Seq<u8>)
    ensures
        AttestationModel::decoded(b) matches Ok(a) ==> {
            let off = offset_in(b, 0);
            &&& 132 <= off <= b.len()
            &&& bitlist::bitlist_from_bytes(b.subrange(off, b.len() as int), 4_096) == Ok::<
                Seq<bool>,
                Seq<char>,
            >(a.aggregation_bits)
            &&& a.data == AttestationData::read(b.subrange(4, off))
        },
        b.len() >= 132 && 132 <= offset_in(b, 0) <= b.len() && bitlist::bitlist_from_bytes(
            b.subrange(offset_in(b, 0), b.len() as int),
            4_096,
        ) is Ok ==> AttestationModel::decoded(b) is Ok,
{
    if b.len() >= 132 {
        lemma_offset_at(b, 0);
    }
}

/// A proof is read from its participants and its bytes, each where its offset says; at most 4096
/// participants are taken.
pub proof fn law_proof_is_read(b: Seq<u8>)
    ensures
        ProofModel::decoded(b) matches Ok(p) ==> {
            &&& 8 <= b.len()
            &&& offset_in(b, 0) <= offset_in(b, 4) <= b.len()
            &&& bitlist::bitlist_from_bytes(
                b.subrange(offset_in(b, 0), offset_in(b, 4)),
                4_096,
            ) == Ok::<Seq<bool>, Seq<char>>(p.participants)
            &&& p.proof_data == b.subrange(offset_in(b, 4), b.len() as int)
            &&& p.proof_data.len() <= 1_048_576
        },
        b.len() >= 8 && offset_in(b, 0) <= offset_in(b, 4) <= b.len() && b.len() - offset_in(b, 4)
            <= 1_048_576 && bitlist::bitlist_from_bytes(
            b.subrange(offset_in(b, 0), offset_in(b, 4)),
            4_096,
        ) is Ok ==> ProofModel::decoded(b) is Ok,
{
    if b.len() >= 8 {
        lemma_offset_at(b, 0);
        lemma_offset_at(b, 4);
    }
}

/// An aggregate is read from its vote and, where the offset behind it says, its proof; checked,
/// the offset does not point before byte 132.
pub proof fn law_aggregate_is_read(b: Seq<u8>, checked: bool)
    ensures
        SignedAggregateModel::decoded(b, checked) matches Ok(a) ==> {
            let off = offset_in(b, 128);
            &&& 132 <= b.len()
            &&& off <= b.len()
            &&& checked ==> off >= 132
            &&& a.data == AttestationData::read(b)
            &&& ProofModel::decoded(b.subrange(off, b.len() as int)) == Ok::<
                ProofModel,
                Seq<char>,
            >(a.proof)
        },
        b.len() >= 132 && 132 <= offset_in(b, 128) <= b.len() && ProofModel::decoded(
            b.subrange(offset_in(b, 128), b.len() as int),
        ) is Ok ==> SignedAggregateModel::decoded(b, checked) is Ok,
{
    if b.len() >= 132 {
        lemma_offset_at(b, 128);
    }
}

/// A block is read from its slot, its proposer, its parent and its state root; its body stands
/// where the offset behind them says, which is byte 84 where it is checked.
pub proof fn law_block_is_read(b: Seq<u8>, checked: bool)
    ensures
        BlockModel::decoded(b, checked) matches Ok(m) ==> {
            let off = offset_in(b, 80);
            &&& 84 <= b.len()
            &&& off <= b.len()
            &&& checked ==> off == 84
            &&& m.slot.num() == number_in(b, 0)
            &&& m.proposer_index.0.0 == number_in(b, 8)
            &&& m.parent_root@ == b.subrange(16, 48)
            &&& m.state_root@ == b.subrange(48, 80)
            &&& block::body_decoded(b.subrange(off, b.len() as int), checked) == Ok::<
                Seq<AttestationModel>,
                Seq<char>,
            >(m.attestations)
        },
        b.len() >= 84 && offset_in(b, 80) == 84 && block::body_decoded(
            b.subrange(84, b.len() as int),
            checked,
        ) is Ok ==> BlockModel::decoded(b, checked) is Ok,
{
    if b.len() >= 84 {
        lemma_offset_at(b, 80);
        lemma_number_at(b, 0);
        lemma_number_at(b, 8);
        lemma_bytes_of(b.subrange(16, 48));
        lemma_bytes_of(b.subrange(48, 80));
    }
}

/// The signatures of a block are read from the proposer's, which has 3112 bytes, and the proofs
/// where the offset says, which is byte 3116 where it is checked.
pub proof fn law_signatures_are_read(b: Seq<u8>, checked: bool)
    ensures
        SignaturesModel::decoded(b, checked) matches Ok(s) ==> {
            &&& 3_116 <= b.len()
            &&& offset_in(b, 0) <= b.len()
            &&& checked ==> offset_in(b, 0) == 3_116
            &&& s.proposer_signature == Bytes3112::of(b.subrange(4, 3_116))
            &&& ssz::list_from_bytes::<crate::containers::attestation::AggregatedSignatureProof>(
                b.subrange(offset_in(b, 0), b.len() as int),
                4_096,
                checked,
            ) == Ok::<Seq<ProofModel>, Seq<char>>(s.attestation_signatures)
        },
{
    if b.len() >= 3_116 {
        lemma_offset_at(b, 0);
    }
}

/// A state is read from its fixed section of 232 bytes and six lists, which stand one behind the
/// other up to the end, each where its offset says.
pub proof fn law_state_is_read(b: Seq<u8>, checked: bool)
    ensures
        StateModel::decoded(b, checked) matches Ok(s) ==> {
            let o0 = offset_in(b, 208);
            let o1 = offset_in(b, 212);
            let o2 = offset_in(b, 216);
            let o3 = offset_in(b, 220);
            let o4 = offset_in(b, 224);
            let o5 = offset_in(b, 228);
            &&& 232 <= b.len()
            &&& checked ==> o0 == 232
            &&& o0 <= o1 <= o2 <= o3 <= o4 <= o5 <= b.len()
            &&& s.config.genesis_time.0 == number_in(b, 0)
            &&& s.slot.num() == number_in(b, 8)
            &&& s.latest_block_header == BlockHeader::read(b.subrange(16, 128))
            &&& s.latest_justified == Checkpoint::read(b.subrange(128, 168))
            &&& s.latest_finalized == Checkpoint::read(b.subrange(168, 208))
            &&& ssz::list_from_bytes::<Bytes32>(b.subrange(o0, o1), 262_144, checked) == Ok::<
                Seq<Bytes32>,
                Seq<char>,
            >(s.historical_block_hashes)
            &&& bitlist::bitlist_from_bytes(b.subrange(o1, o2), 262_144) == Ok::<
                Seq<bool>,
                Seq<char>,
            >(s.justified_slots)
            &&& ssz::list_from_bytes::<Validator>(b.subrange(o2, o3), 4_096, checked) == Ok::<
                Seq<Validator>,
                Seq<char>,
            >(s.validators)
            &&& ssz::list_from_bytes::<Uint64>(b.subrange(o3, o4), 4_096, checked) == Ok::<
                Seq<Uint64>,
                Seq<char>,
            >(s.balances)
            &&& ssz::list_from_bytes::<Bytes32>(b.subrange(o4, o5), 262_144, checked) == Ok::<
                Seq<Bytes32>,
                Seq<char>,
            >(s.justifications_roots)
            &&& bitlist::bitlist_from_bytes(
                b.subrange(o5, b.len() as int),
                1_073_741_824,
            ) == Ok::<Seq<bool>, Seq<char>>(s.justifications_validators)
        },
{
    if b.len() >= 232 {
        lemma_offset_at(b, 208);
        lemma_offset_at(b, 212);
        lemma_offset_at(b, 216);
        lemma_offset_at(b, 220);
        lemma_offset_at(b, 224);
        lemma_offset_at(b, 228);
        lemma_number_at(b, 0);
        lemma_number_at(b, 8);
    }
}

proof fn lemma_parsed<T: SszElement>(b: Seq<u8>, n: nat, k: nat, checked: bool, i: int)
    requires
        k <= n,
    ensures
        ssz::parse_prefix::<T>(b, n, k, checked) matches Ok(v) ==> {
            &&& v.len() == k
            &&& 0 <= i < k ==> {
                let start = ssz::piece_start::<T>(b, n, i);
                let end = ssz::piece_start::<T>(b, n, i + 1);
                &&& start <= end <= b.len()
                &&& T::from_bytes(b.subrange(start, end), checked) == Ok::<T::Model, Seq<char>>(
                    v[i],
                )
            }
        },
    decreases k,
{
    if k > 0 {
        lemma_parsed::<T>(b, n, (k - 1) as nat, checked, i);
        lemma_parsed::<T>(b, n, (k - 1) as nat, checked, 0);
    }
}

/// A list of elements of one size is cut into pieces of that size, with nothing left over, and
/// each piece is read as an element; more than the limit are refused.
pub proof fn law_rows_are_read<T: SszElement>(b: Seq<u8>, limit: nat, checked: bool, i: int)
    requires
        T::static_len() > 0,
    ensures
        ssz::list_from_bytes::<T>(b, limit, checked) matches Ok(v) ==> {
            let size = T::static_len() as int;
            &&& v.len() <= limit
            &&& size * v.len() == b.len()
            &&& 0 <= i < v.len() ==> T::from_bytes(b.subrange(i * size, (i + 1) * size), checked)
                == Ok::<T::Model, Seq<char>>(v[i])
        },
        b.len() % T::static_len() != 0 ==> ssz::list_from_bytes::<T>(b, limit, checked) is Err,
{
    let size = T::static_len();
    if b.len() % size == 0 {
        let n = b.len() / size;
        vstd::arithmetic::div_mod::lemma_fundamental_div_mod(b.len() as int, size as int);
        lemma_parsed::<T>(b, n, n, checked, i);
        lemma_parsed::<T>(b, n, n, checked, 0);
    }
}

/// A list of elements of varying size begins with their offsets, four bytes each. The first tells
/// how many there are, and each element reaches up to the next offset, the last one up to the end.
pub proof fn law_pieces_are_read<T: SszElement>(b: Seq<u8>, limit: nat, checked: bool, i: int)
    requires
        T::static_len() == 0,
    ensures
        ssz::list_from_bytes::<T>(b, limit, checked) matches Ok(v) ==> {
            &&& v.len() <= limit
            &&& b.len() == 0 ==> v.len() == 0
            &&& b.len() > 0 ==> 4 * v.len() == offset_in(b, 0) && v.len() > 0
            &&& 0 <= i < v.len() ==> {
                let start = offset_in(b, 4 * i);
                let end = if i + 1 < v.len() {
                    offset_in(b, 4 * (i + 1))
                } else {
                    b.len() as int
                };
                &&& start <= end <= b.len()
                &&& T::from_bytes(b.subrange(start, end), checked) == Ok::<T::Model, Seq<char>>(
                    v[i],
                )
            }
        },
        0 < b.len() < 4 ==> ssz::list_from_bytes::<T>(b, limit, checked) is Err,
        b.len() >= 4 && (offset_in(b, 0) == 0 || offset_in(b, 0) % 4 != 0 || offset_in(b, 0)
            > b.len()) ==> ssz::list_from_bytes::<T>(b, limit, checked) is Err,
{
    if b.len() >= 4 {
        lemma_offset_at(b, 0);
        let first = ssz::offset_at(b, 0);
        if first != 0 && first % 4 == 0 && first <= b.len() {
            let n = first / 4;
            lemma_parsed::<T>(b, n, n, checked, i);
            lemma_parsed::<T>(b, n, n, checked, 0);
            if 0 <= i < n {
                lemma_offset_at(b, 4 * i);
                if i + 1 < n {
                    lemma_offset_at(b, 4 * (i + 1));
                }
            }
        }
    }
}

} // verus!
