//! Where each field stands in an encoding.

use crate::containers::attestation::{
    AttestationData, AttestationModel, ProofModel, SignedAggregateModel, SignedAttestation,
};
use crate::containers::block;
use crate::containers::block::{
    BlockHeader, BlockModel, ProposalModel, SignaturesModel, SignedBlockModel,
};
use crate::containers::checkpoint::Checkpoint;
use crate::containers::config::Config;
use crate::containers::gossip::VoluntaryExit;
use crate::containers::req_resp::{BlocksByRangeRequest, Ping, Pong, Status};
use crate::containers::state::StateModel;
use crate::containers::validator::Validator;
use crate::ssz;
use crate::ssz::hash;
use crate::ssz::SszElement;
use crate::types::bitlist;
use crate::types::bytes::{Bytes3112, Bytes32, Bytes52};
use crate::types::uint::Uint64;
use vstd::prelude::*;

verus! {

/// The number in eight bytes from `at` on, the lowest byte first.
pub open spec fn number_in(b: Seq<u8>, at: int) -> int {
    b[at] + 0x100 * b[at + 1] + 0x1_0000 * b[at + 2] + 0x100_0000 * b[at + 3] + 0x1_0000_0000 * b[at
        + 4] + 0x100_0000_0000 * b[at + 5] + 0x1_0000_0000_0000 * b[at + 6]
        + 0x100_0000_0000_0000 * b[at + 7]
}

/// The number in four bytes from `at` on, the lowest byte first.
pub open spec fn offset_in(b: Seq<u8>, at: int) -> int {
    b[at] + 0x100 * b[at + 1] + 0x1_0000 * b[at + 2] + 0x100_0000 * b[at + 3]
}

/// Numbers stand in eight bytes, the lowest first, and are read from them.
pub proof fn law_numbers(n: u64, b: Seq<u8>, at: int)
    requires
        0 <= at,
        at + 8 <= b.len(),
    ensures
        ssz::u64_bytes(n).len() == 8,
        number_in(ssz::u64_bytes(n), 0) == n,
        ssz::u64_at(b, at) == number_in(b, at),
{
    let w = ssz::u64_bytes(n);
    ssz::lemma_u64_len(n);
    assert(w.subrange(0, 8) =~= w);
    ssz::lemma_u64_read(w, 0, n);
    reveal(ssz::u64_at);
}

/// Offsets stand in four bytes, the lowest first, and are read from them.
pub proof fn law_offsets(n: nat, b: Seq<u8>, at: int)
    requires
        0 <= at,
        at + 4 <= b.len(),
        n < 0x1_0000_0000,
    ensures
        ssz::offset_bytes(n).len() == 4,
        offset_in(ssz::offset_bytes(n), 0) == n,
        ssz::offset_at(b, at) == offset_in(b, at),
{
    let w = ssz::offset_bytes(n);
    ssz::lemma_offset_bytes_mod(n);
    assert(w.subrange(0, 4) =~= w);
    ssz::lemma_offset_read(w, 0, n);
    reveal(ssz::offset_at);
}

proof fn lemma_number(b: Seq<u8>, at: int, n: u64)
    requires
        0 <= at,
        at + 8 <= b.len(),
        b.subrange(at, at + 8) == ssz::u64_bytes(n),
    ensures
        number_in(b, at) == n,
{
    ssz::lemma_u64_read(b, at, n);
    law_numbers(n, b, at);
}

proof fn lemma_offset(b: Seq<u8>, at: int, n: nat)
    requires
        0 <= at,
        at + 4 <= b.len(),
        n < 0x1_0000_0000,
        b.subrange(at, at + 4) == ssz::offset_bytes(n),
    ensures
        offset_in(b, at) == n,
{
    ssz::lemma_offset_read(b, at, n);
    law_offsets(n, b, at);
}

/// A string of 32 bytes has the bytes that it is made of.
pub proof fn lemma_bytes_of(s: Seq<u8>)
    requires
        s.len() == 32,
    ensures
        Bytes32::of(s)@ == s,
{
    let z = Bytes32(
        [
            s[0], s[1], s[2], s[3], s[4], s[5], s[6], s[7],
            s[8], s[9], s[10], s[11], s[12], s[13], s[14], s[15],
            s[16], s[17], s[18], s[19], s[20], s[21], s[22], s[23],
            s[24], s[25], s[26], s[27], s[28], s[29], s[30], s[31],
        ],
    );
    assert(z@ =~= s);
    Bytes32::lemma_of(z);
    assert(Bytes32::of(s)@ == s);
}

/// A number's chunk is its eight bytes and 24 zero bytes.
pub proof fn law_number_chunk(n: u64)
    ensures
        ({
            let c = hash::number_chunk(n);
            &&& number_in(c@, 0) == n
            &&& forall|i: int| 8 <= i < 32 ==> c@[i] == 0
        }),
{
    let s = hash::chunk_bytes(ssz::u64_bytes(n), 0);
    ssz::lemma_u64_len(n);
    lemma_bytes_of(s);
    assert(hash::number_chunk(n)@ == s);
    assert(s.subrange(0, 8) =~= ssz::u64_bytes(n));
    lemma_number(s, 0, n);
}

/// A checkpoint: 32 bytes of root, then the slot.
pub proof fn law_checkpoint(c: Checkpoint)
    ensures
        c.bytes().len() == 40,
        c.bytes().subrange(0, 32) == c.root@,
        number_in(c.bytes(), 32) == c.slot.num(),
{
    let b = c.bytes();
    c.law_roundtrip();
    ssz::lemma_u64_len(c.slot.0.0);
    assert(b.subrange(0, 32) =~= c.root@);
    assert(b.subrange(32, 40) =~= ssz::u64_bytes(c.slot.0.0));
    lemma_number(b, 32, c.slot.0.0);
}

/// A vote: its slot, then head, target and source.
pub proof fn law_vote(d: AttestationData)
    ensures
        d.bytes().len() == 128,
        number_in(d.bytes(), 0) == d.slot.num(),
        d.bytes().subrange(8, 48) == d.head.bytes(),
        d.bytes().subrange(48, 88) == d.target.bytes(),
        d.bytes().subrange(88, 128) == d.source.bytes(),
{
    let b = d.bytes();
    ssz::lemma_u64_len(d.slot.0.0);
    d.head.law_roundtrip();
    d.target.law_roundtrip();
    d.source.law_roundtrip();
    assert(b.subrange(0, 8) =~= ssz::u64_bytes(d.slot.0.0));
    lemma_number(b, 0, d.slot.0.0);
    assert(b.subrange(8, 48) =~= d.head.bytes());
    assert(b.subrange(48, 88) =~= d.target.bytes());
    assert(b.subrange(88, 128) =~= d.source.bytes());
}

/// A header: slot, proposer, parent, state and body.
pub proof fn law_header(h: BlockHeader)
    ensures
        h.bytes().len() == 112,
        number_in(h.bytes(), 0) == h.slot.num(),
        number_in(h.bytes(), 8) == h.proposer_index.0.0,
        h.bytes().subrange(16, 48) == h.parent_root@,
        h.bytes().subrange(48, 80) == h.state_root@,
        h.bytes().subrange(80, 112) == h.body_root@,
{
    let b = h.bytes();
    h.law_roundtrip();
    ssz::lemma_u64_len(h.slot.0.0);
    ssz::lemma_u64_len(h.proposer_index.0.0);
    Bytes32::lemma_of(h.parent_root);
    Bytes32::lemma_of(h.state_root);
    Bytes32::lemma_of(h.body_root);
    assert(b.subrange(0, 8) =~= ssz::u64_bytes(h.slot.0.0));
    assert(b.subrange(8, 16) =~= ssz::u64_bytes(h.proposer_index.0.0));
    lemma_number(b, 0, h.slot.0.0);
    lemma_number(b, 8, h.proposer_index.0.0);
    assert(b.subrange(16, 48) =~= h.parent_root@);
    assert(b.subrange(48, 80) =~= h.state_root@);
    assert(b.subrange(80, 112) =~= h.body_root@);
}

/// A validator: 52 bytes of key, then the index and the balance.
pub proof fn law_validator(v: Validator)
    ensures
        v.bytes().len() == 68,
        v.bytes().subrange(0, 52) == v.pubkey@,
        number_in(v.bytes(), 52) == v.index.0.0,
        number_in(v.bytes(), 60) == v.balance.0,
{
    let b = v.bytes();
    v.law_roundtrip();
    Bytes52::lemma_of(v.pubkey);
    ssz::lemma_u64_len(v.index.0.0);
    ssz::lemma_u64_len(v.balance.0);
    assert(b.subrange(0, 52) =~= v.pubkey@);
    assert(b.subrange(52, 60) =~= ssz::u64_bytes(v.index.0.0));
    assert(b.subrange(60, 68) =~= ssz::u64_bytes(v.balance.0));
    lemma_number(b, 52, v.index.0.0);
    lemma_number(b, 60, v.balance.0);
}

/// A status: fork, finalized root and epoch, head root and slot.
pub proof fn law_status(s: Status)
    ensures
        s.bytes().len() == 112,
        s.bytes().subrange(0, 32) == s.fork_digest@,
        s.bytes().subrange(32, 64) == s.finalized_root@,
        number_in(s.bytes(), 64) == s.finalized_epoch.0,
        s.bytes().subrange(72, 104) == s.head_root@,
        number_in(s.bytes(), 104) == s.head_slot.0,
        forall|b: Seq<u8>| #[trigger] Status::decoded(b) is Ok <==> b.len() == 112,
{
    let b = s.bytes();
    s.law_roundtrip();
    Bytes32::lemma_of(s.fork_digest);
    Bytes32::lemma_of(s.finalized_root);
    Bytes32::lemma_of(s.head_root);
    ssz::lemma_u64_len(s.finalized_epoch.0);
    ssz::lemma_u64_len(s.head_slot.0);
    assert(b.subrange(0, 32) =~= s.fork_digest@);
    assert(b.subrange(32, 64) =~= s.finalized_root@);
    assert(b.subrange(64, 72) =~= ssz::u64_bytes(s.finalized_epoch.0));
    assert(b.subrange(72, 104) =~= s.head_root@);
    assert(b.subrange(104, 112) =~= ssz::u64_bytes(s.head_slot.0));
    lemma_number(b, 64, s.finalized_epoch.0);
    lemma_number(b, 104, s.head_slot.0);
}

/// Single numbers and rows of numbers: configurations, pings, range requests and exits.
pub proof fn law_number_rows(
    c: Config,
    ping: Ping,
    pong: Pong,
    r: BlocksByRangeRequest,
    x: VoluntaryExit,
)
    ensures
        c.bytes().len() == 8 && number_in(c.bytes(), 0) == c.genesis_time.0,
        ping.bytes().len() == 8 && number_in(ping.bytes(), 0) == ping.seq_number.0,
        pong.bytes().len() == 8 && number_in(pong.bytes(), 0) == pong.seq_number.0,
        r.bytes().len() == 24,
        number_in(r.bytes(), 0) == r.start_slot.0,
        number_in(r.bytes(), 8) == r.count.0,
        number_in(r.bytes(), 16) == r.step.0,
        x.bytes().len() == 16,
        number_in(x.bytes(), 0) == x.validator_index.0.0,
        number_in(x.bytes(), 8) == x.epoch.0,
        forall|b: Seq<u8>| #[trigger] BlocksByRangeRequest::decoded(b) is Ok <==> b.len() == 24,
{
    ssz::lemma_u64_len(c.genesis_time.0);
    assert(c.bytes().subrange(0, 8) =~= c.bytes());
    lemma_number(c.bytes(), 0, c.genesis_time.0);
    ssz::lemma_u64_len(ping.seq_number.0);
    assert(ping.bytes().subrange(0, 8) =~= ping.bytes());
    lemma_number(ping.bytes(), 0, ping.seq_number.0);
    ssz::lemma_u64_len(pong.seq_number.0);
    assert(pong.bytes().subrange(0, 8) =~= pong.bytes());
    lemma_number(pong.bytes(), 0, pong.seq_number.0);
    ssz::lemma_u64_len(r.start_slot.0);
    ssz::lemma_u64_len(r.count.0);
    ssz::lemma_u64_len(r.step.0);
    assert(r.bytes().subrange(0, 8) =~= ssz::u64_bytes(r.start_slot.0));
    assert(r.bytes().subrange(8, 16) =~= ssz::u64_bytes(r.count.0));
    assert(r.bytes().subrange(16, 24) =~= ssz::u64_bytes(r.step.0));
    lemma_number(r.bytes(), 0, r.start_slot.0);
    lemma_number(r.bytes(), 8, r.count.0);
    lemma_number(r.bytes(), 16, r.step.0);
    ssz::lemma_u64_len(x.validator_index.0.0);
    ssz::lemma_u64_len(x.epoch.0);
    assert(x.bytes().subrange(0, 8) =~= ssz::u64_bytes(x.validator_index.0.0));
    assert(x.bytes().subrange(8, 16) =~= ssz::u64_bytes(x.epoch.0));
    lemma_number(x.bytes(), 0, x.validator_index.0.0);
    lemma_number(x.bytes(), 8, x.epoch.0);
}

/// An attestation: the offset 132, the vote, then the voters.
pub proof fn law_attestation(a: AttestationModel)
    ensures
        a.bytes().len() >= 132,
        offset_in(a.bytes(), 0) == 132,
        a.bytes().subrange(4, 132) == a.data.bytes(),
        a.bytes().subrange(132, a.bytes().len() as int) == bitlist::bitlist_bytes(
            a.aggregation_bits,
        ),
{
    let b = a.bytes();
    law_vote(a.data);
    ssz::lemma_offset_bytes_mod(132);
    assert(b.subrange(0, 4) =~= ssz::offset_bytes(132));
    lemma_offset(b, 0, 132);
    assert(b.subrange(4, 132) =~= a.data.bytes());
    assert(b.subrange(132, b.len() as int) =~= bitlist::bitlist_bytes(a.aggregation_bits));
}

/// A signed vote: the validator, the vote, then the signature.
pub proof fn law_signed_vote(a: SignedAttestation)
    ensures
        a.bytes().len() == 3248,
        number_in(a.bytes(), 0) == a.validator_id.0,
        a.bytes().subrange(8, 136) == a.message.bytes(),
        a.bytes().subrange(136, 3248) == a.signature@,
        forall|b: Seq<u8>| #[trigger] SignedAttestation::decoded(b) is Ok <==> b.len() == 3248,
{
    let b = a.bytes();
    law_vote(a.message);
    Bytes3112::lemma_of(a.signature);
    ssz::lemma_u64_len(a.validator_id.0);
    assert(b.subrange(0, 8) =~= ssz::u64_bytes(a.validator_id.0));
    lemma_number(b, 0, a.validator_id.0);
    assert(b.subrange(8, 136) =~= a.message.bytes());
    assert(b.subrange(136, 3248) =~= a.signature@);
}

/// A proof and an aggregate: the voters before the proof, the vote before both.
pub proof fn law_aggregates(p: ProofModel, a: SignedAggregateModel)
    requires
        p.participants.len() <= 4_096,
    ensures
        ({
            let b = p.bytes();
            let mid = 8 + p.participants.len() / 8 + 1;
            &&& offset_in(b, 0) == 8
            &&& offset_in(b, 4) == mid
            &&& b.subrange(8, mid as int) == bitlist::bitlist_bytes(p.participants)
            &&& b.subrange(mid as int, b.len() as int) == p.proof_data
        }),
        offset_in(a.bytes(), 128) == 132,
        a.bytes().subrange(0, 128) == a.data.bytes(),
        a.bytes().subrange(132, a.bytes().len() as int) == a.proof.bytes(),
{
    let bits = bitlist::bitlist_bytes(p.participants);
    bitlist::lemma_bitlist_roundtrip(p.participants, 4_096);
    ssz::lemma_two_fields(bits, p.proof_data);
    law_offsets(8, p.bytes(), 0);
    law_offsets(8, p.bytes(), 4);
    let b = a.bytes();
    law_vote(a.data);
    ssz::lemma_offset_bytes_mod(132);
    assert(b.subrange(128, 132) =~= ssz::offset_bytes(132));
    lemma_offset(b, 128, 132);
    assert(b.subrange(0, 128) =~= a.data.bytes());
    assert(b.subrange(132, b.len() as int) =~= a.proof.bytes());
}

/// A block: slot, proposer, parent, state, the offset 84, then the body, which is the offset 4
/// and the votes.
pub proof fn law_block(m: BlockModel)
    ensures
        ({
            let b = m.bytes();
            &&& b.len() >= 88
            &&& number_in(b, 0) == m.slot.num()
            &&& number_in(b, 8) == m.proposer_index.0.0
            &&& b.subrange(16, 48) == m.parent_root@
            &&& b.subrange(48, 80) == m.state_root@
            &&& offset_in(b, 80) == 84
            &&& offset_in(b, 84) == 4
            &&& b.subrange(88, b.len() as int) == ssz::list_bytes::<
                crate::containers::attestation::Attestation,
            >(m.attestations)
        }),
        forall|b: Seq<u8>| #[trigger]
            BlockModel::decoded(b, true) is Ok ==> b.len() >= 88 && offset_in(b, 80) == 84
                && offset_in(b, 84) == 4,
{
    let b = m.bytes();
    ssz::lemma_u64_len(m.slot.0.0);
    ssz::lemma_u64_len(m.proposer_index.0.0);
    Bytes32::lemma_of(m.parent_root);
    Bytes32::lemma_of(m.state_root);
    ssz::lemma_offset_bytes_mod(84);
    ssz::lemma_offset_bytes_mod(4);
    assert(b.subrange(0, 8) =~= ssz::u64_bytes(m.slot.0.0));
    assert(b.subrange(8, 16) =~= ssz::u64_bytes(m.proposer_index.0.0));
    lemma_number(b, 0, m.slot.0.0);
    lemma_number(b, 8, m.proposer_index.0.0);
    assert(b.subrange(16, 48) =~= m.parent_root@);
    assert(b.subrange(48, 80) =~= m.state_root@);
    assert(b.subrange(80, 84) =~= ssz::offset_bytes(84));
    lemma_offset(b, 80, 84);
    assert(b.subrange(84, 88) =~= ssz::offset_bytes(4));
    lemma_offset(b, 84, 4);
    assert(b.subrange(88, b.len() as int) =~= ssz::list_bytes::<
        crate::containers::attestation::Attestation,
    >(m.attestations));
    assert forall|d: Seq<u8>| #[trigger] BlockModel::decoded(d, true) is Ok implies d.len() >= 88
        && offset_in(d, 80) == 84 && offset_in(d, 84) == 4 by {
        law_offsets(84, d, 80);
        let body = d.subrange(84, d.len() as int);
        assert(block::body_decoded(body, true) is Ok);
        law_offsets(4, body, 0);
    }
}

/// A proposal: the offset 140, the proposer's index, the proposer's vote, then the block.
pub proof fn law_proposal(m: ProposalModel, index: u64)
    requires
        crate::laws::transition::alone(m.proposer_attestation.aggregation_bits, index as int),
    ensures
        ({
            let b = m.bytes();
            &&& b.len() >= 140
            &&& offset_in(b, 0) == 140
            &&& number_in(b, 4) == index
            &&& b.subrange(12, 140) == m.proposer_attestation.data.bytes()
            &&& b.subrange(140, b.len() as int) == m.block.bytes()
        }),
{
    let b = m.bytes();
    let bits = m.proposer_attestation.aggregation_bits;
    assert(block::is_only_bit(bits, index as int)) by {
        assert(bits[index as int]);
    }
    block::lemma_only_bit(bits, index as int);
    ssz::lemma_offset_bytes_mod(140);
    ssz::lemma_u64_len(index);
    law_vote(m.proposer_attestation.data);
    assert(b.subrange(0, 4) =~= ssz::offset_bytes(140));
    lemma_offset(b, 0, 140);
    assert(b.subrange(4, 12) =~= ssz::u64_bytes(index));
    lemma_number(b, 4, index);
    assert(b.subrange(12, 140) =~= m.proposer_attestation.data.bytes());
    assert(b.subrange(140, b.len() as int) =~= m.block.bytes());
}

/// The signatures of a block: the offset 3116, the proposer's signature, then those of the
/// votes. A signed block: the proposal before the signatures.
pub proof fn law_signed_block(g: SignaturesModel, s: SignedBlockModel)
    requires
        s.message.bytes().len() < 0xffff_0000,
    ensures
        g.bytes().len() >= 3116,
        offset_in(g.bytes(), 0) == 3116,
        g.bytes().subrange(4, 3116) == g.proposer_signature@,
        g.bytes().subrange(3116, g.bytes().len() as int) == ssz::list_bytes::<
            crate::containers::attestation::AggregatedSignatureProof,
        >(g.attestation_signatures),
        ({
            let b = s.bytes();
            let mid = 8 + s.message.bytes().len() as int;
            &&& offset_in(b, 0) == 8
            &&& offset_in(b, 4) == mid
            &&& b.subrange(8, mid) == s.message.bytes()
            &&& b.subrange(mid, b.len() as int) == s.signature.bytes()
        }),
{
    let b = g.bytes();
    ssz::lemma_offset_bytes_mod(3116);
    Bytes3112::lemma_of(g.proposer_signature);
    assert(b.subrange(0, 4) =~= ssz::offset_bytes(3116));
    lemma_offset(b, 0, 3116);
    assert(b.subrange(4, 3116) =~= g.proposer_signature@);
    assert(b.subrange(3116, b.len() as int) =~= ssz::list_bytes::<
        crate::containers::attestation::AggregatedSignatureProof,
    >(g.attestation_signatures));
    ssz::lemma_two_fields(s.message.bytes(), s.signature.bytes());
    law_offsets(8, s.bytes(), 0);
    law_offsets(8, s.bytes(), 4);
}

/// A state: time, slot, header, justified and finalized checkpoint, six offsets, and the six
/// lists that they point to, one right behind the other: history, window, registry, balances,
/// pending targets and their voters.
pub proof fn law_state(s: StateModel)
    requires
        s.within_limits(),
    ensures
        ({
            let b = s.bytes();
            let o = |i: int| offset_in(b, 208 + 4 * i);
            &&& b.len() >= 232
            &&& number_in(b, 0) == s.config.genesis_time.0
            &&& number_in(b, 8) == s.slot.num()
            &&& b.subrange(16, 128) == s.latest_block_header.bytes()
            &&& b.subrange(128, 168) == s.latest_justified.bytes()
            &&& b.subrange(168, 208) == s.latest_finalized.bytes()
            &&& o(0) == 232
            &&& b.subrange(o(0), o(1)) == ssz::list_bytes::<Bytes32>(s.historical_block_hashes)
            &&& b.subrange(o(1), o(2)) == bitlist::bitlist_bytes(s.justified_slots)
            &&& b.subrange(o(2), o(3)) == ssz::list_bytes::<Validator>(s.validators)
            &&& b.subrange(o(3), o(4)) == ssz::list_bytes::<Uint64>(s.balances)
            &&& b.subrange(o(4), o(5)) == ssz::list_bytes::<Bytes32>(s.justifications_roots)
            &&& b.subrange(o(5), b.len() as int) == bitlist::bitlist_bytes(
                s.justifications_validators,
            )
        }),
{
    let b = s.bytes();
    s.lemma_encoded_size();
    crate::containers::state_codec::lemma_six_lists(
        crate::containers::state_codec::fixed_fields(s),
        ssz::list_bytes::<Bytes32>(s.historical_block_hashes),
        bitlist::bitlist_bytes(s.justified_slots),
        ssz::list_bytes::<Validator>(s.validators),
        ssz::list_bytes::<Uint64>(s.balances),
        ssz::list_bytes::<Bytes32>(s.justifications_roots),
        bitlist::bitlist_bytes(s.justifications_validators),
    );
    law_offsets(0, b, 208);
    law_offsets(0, b, 212);
    law_offsets(0, b, 216);
    law_offsets(0, b, 220);
    law_offsets(0, b, 224);
    law_offsets(0, b, 228);
    let fixed = crate::containers::state_codec::fixed_fields(s);
    ssz::lemma_u64_len(s.config.genesis_time.0);
    ssz::lemma_u64_len(s.slot.0.0);
    law_header(s.latest_block_header);
    law_checkpoint(s.latest_justified);
    law_checkpoint(s.latest_finalized);
    assert(b.subrange(0, 8) =~= b.subrange(0, 208).subrange(0, 8));
    assert(fixed.subrange(0, 8) =~= ssz::u64_bytes(s.config.genesis_time.0));
    lemma_number(b, 0, s.config.genesis_time.0);
    assert(b.subrange(8, 16) =~= b.subrange(0, 208).subrange(8, 16));
    assert(fixed.subrange(8, 16) =~= ssz::u64_bytes(s.slot.0.0));
    lemma_number(b, 8, s.slot.0.0);
    assert(b.subrange(16, 128) =~= b.subrange(0, 208).subrange(16, 128));
    assert(fixed.subrange(16, 128) =~= s.latest_block_header.bytes());
    assert(b.subrange(128, 168) =~= b.subrange(0, 208).subrange(128, 168));
    assert(fixed.subrange(128, 168) =~= s.latest_justified.bytes());
    assert(b.subrange(168, 208) =~= b.subrange(0, 208).subrange(168, 208));
    assert(fixed.subrange(168, 208) =~= s.latest_finalized.bytes());
}

/// The items of a list of fixed size stand one right behind the other.
pub proof fn law_fixed_list<T: SszElement>(ms: Seq<T::Model>, i: int)
    requires
        T::static_len() > 0,
        0 <= i < ms.len(),
    ensures
        ssz::list_bytes::<T>(ms).len() == ms.len() * T::static_len(),
        ssz::list_bytes::<T>(ms).subrange(
            i * T::static_len() as int,
            i * T::static_len() as int + T::static_len() as int,
        ) == T::to_bytes(ms[i]),
{
    let parts = ssz::encoded_parts::<T>(ms);
    let len = T::static_len();
    assert forall|k: int| 0 <= k < parts.len() implies (#[trigger] parts[k]).len() == len by {
        T::lemma_static_len(ms[k]);
    }
    ssz::lemma_joined_fixed(parts, len, i as nat);
    ssz::lemma_joined_fixed(parts, len, parts.len());
    ssz::lemma_joined_part(parts, i as nat, parts.len());
    ssz::lemma_joined_step(parts, i as nat);
}

/// The items of a list of varying sizes stand one right behind the other behind a table of one
/// offset for each.
pub proof fn law_varying_list<T: SszElement>(ms: Seq<T::Model>, i: int)
    requires
        T::static_len() == 0,
        0 <= i < ms.len(),
        ssz::list_bytes::<T>(ms).len() < 0x1_0000_0000,
    ensures
        ({
            let b = ssz::list_bytes::<T>(ms);
            let start = offset_in(b, 4 * i);
            &&& offset_in(b, 0) == 4 * ms.len()
            &&& b.subrange(start, start + T::to_bytes(ms[i]).len()) == T::to_bytes(ms[i])
            &&& i + 1 < ms.len() ==> offset_in(b, 4 * (i + 1)) == start + T::to_bytes(ms[i]).len()
            &&& i + 1 == ms.len() ==> b.len() == start + T::to_bytes(ms[i]).len()
        }),
{
    let parts = ssz::encoded_parts::<T>(ms);
    let b = ssz::list_bytes::<T>(ms);
    let n = parts.len();
    let all = ssz::joined(parts);
    ssz::lemma_joined_step(parts, i as nat);
    ssz::lemma_offset_table_len(parts, n);
    lemma_entry(parts, b, 0);
    lemma_entry(parts, b, i as nat);
    assert(parts.take(0) =~= Seq::empty());
    ssz::lemma_joined_part(parts, i as nat, n);
    let start = ssz::part_start(parts, i as nat) as int;
    let end = start + parts[i].len();
    let from = ssz::joined(parts.take(i)).len() as int;
    assert(b.subrange(start, end) =~= all.subrange(from, from + parts[i].len()));
    if i + 1 < n {
        lemma_entry(parts, b, (i + 1) as nat);
    } else {
        assert(parts.take(i + 1) =~= parts);
    }
}

proof fn lemma_entry(parts: Seq<Seq<u8>>, b: Seq<u8>, k: nat)
    requires
        k < parts.len(),
        b == ssz::offset_table(parts, parts.len()) + ssz::joined(parts),
        b.len() < 0x1_0000_0000,
    ensures
        offset_in(b, 4 * k as int) == ssz::part_start(parts, k),
{
    let n = parts.len();
    ssz::lemma_offset_entry(parts, k, n);
    ssz::lemma_joined_part(parts, k, n);
    ssz::lemma_joined_step(parts, k);
    let table = ssz::offset_table(parts, n);
    assert(b.subrange(4 * k as int, 4 * k as int + 4) =~= table.subrange(
        4 * k as int,
        4 * k as int + 4,
    ));
    lemma_offset(b, 4 * k as int, ssz::part_start(parts, k));
}

/// The bits of a list stand in bytes, eight to a byte and the lowest first, and a set bit marks
/// their end.
pub proof fn law_bits(bits: Seq<bool>, i: int)
    requires
        0 <= i <= bits.len(),
    ensures
        ({
            let b = bitlist::bitlist_bytes(bits);
            let w = b[i / 8] as int;
            let k = i % 8;
            let digit = if k == 0 {
                w
            } else if k == 1 {
                w / 2
            } else if k == 2 {
                w / 4
            } else if k == 3 {
                w / 8
            } else if k == 4 {
                w / 16
            } else if k == 5 {
                w / 32
            } else if k == 6 {
                w / 64
            } else {
                w / 128
            } % 2;
            &&& b.len() == bits.len() / 8 + 1
            &&& i < bits.len() ==> (digit == 1 <==> bits[i])
            &&& i == bits.len() ==> digit == 1
        }),
{
    bitlist::lemma_bitlist_roundtrip(bits, bits.len());
    bitlist::lemma_bit_of(bits, i);
}

} // verus!
