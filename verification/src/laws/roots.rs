//! What the tree roots commit to: which field stands in which leaf.

use crate::containers::attestation::{
    AggregatedSignatureProof, Attestation, AttestationData, AttestationModel, ProofModel,
    SignedAggregateModel, SignedAttestation,
};
use crate::containers::block::{BlockHeader, BlockModel, ProposalModel, SignaturesModel, SignedBlockModel};
use crate::containers::checkpoint::Checkpoint;
use crate::containers::config::Config;
use crate::containers::state::StateModel;
use crate::containers::validator::Validator;
use crate::ssz::hash;
use crate::types::bitlist;
use crate::types::bytes::Bytes32;
use vstd::arithmetic::power2;
use vstd::prelude::*;

verus! {

/// The node above two nodes: the digest of their 64 bytes, the left ones first.
pub open spec fn above(left: Bytes32, right: Bytes32) -> Bytes32 {
    Bytes32::of(hash::sha256(left@ + right@))
}

/// The node above four leaves.
pub open spec fn above_four(a: Bytes32, b: Bytes32, c: Bytes32, d: Bytes32) -> Bytes32 {
    above(above(a, b), above(c, d))
}

/// The leaf of all zero bytes, which fills the tree up.
pub open spec fn blank() -> Bytes32 {
    Bytes32::of(Seq::new(32, |i: int| 0u8))
}

proof fn lemma_blank()
    ensures
        blank() == Bytes32::zero_value(),
{
}

proof fn lemma_depths()
    ensures
        hash::tree_depth(1) == 0,
        hash::tree_depth(2) == 1,
        hash::tree_depth(3) == 2,
        hash::tree_depth(4) == 2,
        hash::tree_depth(5) == 3,
        hash::tree_depth(10) == 4,
        power2::pow2(0) == 1,
        power2::pow2(1) == 2,
        power2::pow2(2) == 4,
        power2::pow2(3) == 8,
{
    reveal_with_fuel(hash::tree_depth, 6);
    power2::lemma2_to64();
}

/// A tree is the node above its two halves; the first half holds the first leaves, and blank
/// leaves fill up what is missing.
pub proof fn law_tree_splits(leaves: Seq<Bytes32>, depth: nat)
    requires
        depth > 0,
        leaves.len() <= power2::pow2(depth),
    ensures
        ({
            let half = power2::pow2((depth - 1) as nat) as int;
            let cut = if leaves.len() < half { leaves.len() as int } else { half };
            hash::tree_root(leaves, depth) == above(
                hash::tree_root(leaves.subrange(0, cut), (depth - 1) as nat),
                hash::tree_root(leaves.subrange(cut, leaves.len() as int), (depth - 1) as nat),
            )
        }),
{
    let half = power2::pow2((depth - 1) as nat) as int;
    if leaves.len() <= half {
        assert(leaves.subrange(0, leaves.len() as int) =~= leaves);
        assert(leaves.subrange(leaves.len() as int, leaves.len() as int) =~= Seq::<
            Bytes32,
        >::empty());
    }
}

/// A tree without levels is its leaf; without a leaf it is blank.
pub proof fn law_tree_of_one(leaf: Bytes32)
    ensures
        hash::tree_root(seq![leaf], 0) == leaf,
        hash::tree_root(Seq::empty(), 0) == blank(),
        hash::merkle_root(seq![leaf], 1) == leaf,
{
    lemma_blank();
    lemma_depths();
}

/// The tree is sized for the limit of the list, however many leaves it has: each doubling of
/// the limit adds one level, and the leaves stay on the left.
pub proof fn law_limit_sizes_the_tree(leaves: Seq<Bytes32>, limit: nat)
    requires
        leaves.len() <= limit,
        limit > 0,
    ensures
        hash::merkle_root(leaves, 2 * limit) == above(
            hash::merkle_root(leaves, limit),
            hash::merkle_root(Seq::empty(), limit),
        ),
{
    let d = hash::tree_depth(limit);
    assert((2 * limit + 1) / 2 == limit);
    assert(hash::tree_depth(2 * limit) == d + 1);
    hash::lemma_tree_depth_holds(limit);
}

proof fn lemma_level(l: Seq<Bytes32>, depth: nat, half: int)
    requires
        depth > 0,
        power2::pow2((depth - 1) as nat) == half,
    ensures
        l.len() <= half ==> hash::tree_root(l, depth) == above(
            hash::tree_root(l, (depth - 1) as nat),
            hash::tree_root(Seq::<Bytes32>::empty(), (depth - 1) as nat),
        ),
        l.len() > half ==> hash::tree_root(l, depth) == above(
            hash::tree_root(l.subrange(0, half), (depth - 1) as nat),
            hash::tree_root(l.subrange(half, l.len() as int), (depth - 1) as nat),
        ),
{
}

proof fn lemma_pair(a: Bytes32, b: Bytes32)
    ensures
        hash::tree_root(seq![a, b], 1) == above(a, b),
        hash::tree_root(seq![a], 1) == above(a, blank()),
        hash::tree_root(Seq::<Bytes32>::empty(), 1) == above(blank(), blank()),
        hash::tree_root(seq![a], 0) == a,
{
    lemma_depths();
    lemma_blank();
    let l = seq![a, b];
    lemma_level(l, 1, 1);
    lemma_level(seq![a], 1, 1);
    lemma_level(Seq::<Bytes32>::empty(), 1, 1);
    assert(l.subrange(0, 1) =~= seq![a]);
    assert(l.subrange(1, 2) =~= seq![b]);
    assert(seq![a][0] == a && seq![b][0] == b);
}

proof fn lemma_quad(a: Bytes32, b: Bytes32, c: Bytes32, d: Bytes32)
    ensures
        hash::tree_root(seq![a, b, c, d], 2) == above_four(a, b, c, d),
        hash::tree_root(seq![a, b, c], 2) == above_four(a, b, c, blank()),
        hash::tree_root(seq![a, b], 2) == above_four(a, b, blank(), blank()),
        hash::tree_root(seq![a], 2) == above_four(a, blank(), blank(), blank()),
        hash::tree_root(Seq::<Bytes32>::empty(), 2) == above_four(
            blank(),
            blank(),
            blank(),
            blank(),
        ),
{
    lemma_depths();
    let l4 = seq![a, b, c, d];
    let l3 = seq![a, b, c];
    let l2 = seq![a, b];
    let l1 = seq![a];
    let l0 = Seq::<Bytes32>::empty();
    lemma_level(l4, 2, 2);
    lemma_level(l3, 2, 2);
    lemma_level(l2, 2, 2);
    lemma_level(l1, 2, 2);
    lemma_level(l0, 2, 2);
    assert(l4.subrange(0, 2) =~= seq![a, b]);
    assert(l4.subrange(2, 4) =~= seq![c, d]);
    assert(l3.subrange(0, 2) =~= seq![a, b]);
    assert(l3.subrange(2, 3) =~= seq![c]);
    lemma_pair(a, b);
    lemma_pair(c, d);
}

/// Three leaves, and a blank one.
pub proof fn law_three_leaves(a: Bytes32, b: Bytes32, c: Bytes32)
    ensures
        hash::container_root(seq![a, b, c]) == above_four(a, b, c, blank()),
{
    lemma_depths();
    lemma_quad(a, b, c, c);
}

/// Five leaves, and three blank ones.
pub proof fn law_five_leaves(a: Bytes32, b: Bytes32, c: Bytes32, d: Bytes32, e: Bytes32)
    ensures
        hash::container_root(seq![a, b, c, d, e]) == above(
            above_four(a, b, c, d),
            above_four(e, blank(), blank(), blank()),
        ),
{
    lemma_depths();
    let l = seq![a, b, c, d, e];
    lemma_level(l, 3, 4);
    assert(l.subrange(0, 4) =~= seq![a, b, c, d]);
    assert(l.subrange(4, 5) =~= seq![e]);
    lemma_quad(a, b, c, d);
    lemma_quad(e, e, e, e);
}

/// Ten leaves, and six blank ones.
pub proof fn law_ten_leaves(l: Seq<Bytes32>)
    requires
        l.len() == 10,
    ensures
        hash::container_root(l) == above(
            above(above_four(l[0], l[1], l[2], l[3]), above_four(l[4], l[5], l[6], l[7])),
            above(
                above_four(l[8], l[9], blank(), blank()),
                above_four(blank(), blank(), blank(), blank()),
            ),
        ),
{
    lemma_depths();
    lemma_level(l, 4, 8);
    let left = l.subrange(0, 8);
    let right = l.subrange(8, 10);
    lemma_level(left, 3, 4);
    lemma_level(right, 3, 4);
    assert(left.subrange(0, 4) =~= seq![l[0], l[1], l[2], l[3]]);
    assert(left.subrange(4, 8) =~= seq![l[4], l[5], l[6], l[7]]);
    assert(right =~= seq![l[8], l[9]]);
    lemma_quad(l[0], l[1], l[2], l[3]);
    lemma_quad(l[4], l[5], l[6], l[7]);
    lemma_quad(l[8], l[9], l[9], l[9]);
}

/// The state root commits to each of the ten consensus fields in its own place: the
/// configuration, the slot, the latest header and the justified checkpoint stand in the first
/// four leaves, the finalized checkpoint, the history, the window and the registry in the next
/// four, the pending targets and their voters behind them. The balances stand in none.
pub proof fn law_state_root_commits_to_every_field(s: StateModel)
    ensures
        s.root_value() == above(
            above(
                above_four(
                    hash::number_chunk(s.config.genesis_time.0),
                    hash::number_chunk(s.slot.0.0),
                    s.latest_block_header.root_value(),
                    above(s.latest_justified.root, hash::number_chunk(s.latest_justified.slot.0.0)),
                ),
                above_four(
                    above(s.latest_finalized.root, hash::number_chunk(s.latest_finalized.slot.0.0)),
                    crate::ssz::list_root::<Bytes32>(s.historical_block_hashes, 262_144),
                    bitlist::bitlist_root(s.justified_slots, 262_144),
                    crate::ssz::list_root::<Validator>(s.validators, 4_096),
                ),
            ),
            above(
                above_four(
                    crate::ssz::list_root::<Bytes32>(s.justifications_roots, 262_144),
                    bitlist::bitlist_root(s.justifications_validators, 1_073_741_824),
                    blank(),
                    blank(),
                ),
                above_four(blank(), blank(), blank(), blank()),
            ),
        ),
{
    let l = seq![
        s.config.root_value(),
        hash::number_chunk(s.slot.0.0),
        s.latest_block_header.root_value(),
        s.latest_justified.root_value(),
        above(s.latest_finalized.root, hash::number_chunk(s.latest_finalized.slot.0.0)),
        crate::ssz::list_root::<Bytes32>(s.historical_block_hashes, 262_144),
        bitlist::bitlist_root(s.justified_slots, 262_144),
        crate::ssz::list_root::<Validator>(s.validators, 4_096),
        crate::ssz::list_root::<Bytes32>(s.justifications_roots, 262_144),
        bitlist::bitlist_root(s.justifications_validators, 1_073_741_824),
    ];
    assert(s.root_value() == hash::container_root(l));
    law_ten_leaves(l);
}

/// A header's root commits to its slot, its proposer, its parent, its state and its body, in
/// this order.
pub proof fn law_header_root(h: BlockHeader)
    ensures
        h.root_value() == above(
            above_four(
                hash::number_chunk(h.slot.0.0),
                hash::number_chunk(h.proposer_index.0.0),
                h.parent_root,
                h.state_root,
            ),
            above_four(h.body_root, blank(), blank(), blank()),
        ),
{
    law_five_leaves(
        hash::number_chunk(h.slot.0.0),
        hash::number_chunk(h.proposer_index.0.0),
        h.parent_root,
        h.state_root,
        h.body_root,
    );
}

/// A block's root commits to its slot, its proposer, its parent, its state and the list of its
/// votes, in this order.
pub proof fn law_block_root(b: BlockModel)
    ensures
        b.root_value() == above(
            above_four(
                hash::number_chunk(b.slot.0.0),
                hash::number_chunk(b.proposer_index.0.0),
                b.parent_root,
                b.state_root,
            ),
            above_four(
                crate::ssz::list_root::<Attestation>(b.attestations, 4_096),
                blank(),
                blank(),
                blank(),
            ),
        ),
        b.header().slot == b.slot,
        b.header().proposer_index == b.proposer_index,
        b.header().parent_root == b.parent_root,
        b.header().state_root == b.state_root,
        b.header().body_root == crate::ssz::list_root::<Attestation>(b.attestations, 4_096),
{
    law_five_leaves(
        hash::number_chunk(b.slot.0.0),
        hash::number_chunk(b.proposer_index.0.0),
        b.parent_root,
        b.state_root,
        crate::ssz::list_root::<Attestation>(b.attestations, 4_096),
    );
}

/// The roots of checkpoints, configurations and votes commit to their fields in this order.
pub proof fn law_small_roots(c: Checkpoint, g: Config, d: AttestationData, a: AttestationModel)
    ensures
        c.root_value() == above(c.root, hash::number_chunk(c.slot.0.0)),
        g.root_value() == hash::number_chunk(g.genesis_time.0),
        d.root_value() == above_four(
            hash::number_chunk(d.slot.0.0),
            above(d.head.root, hash::number_chunk(d.head.slot.0.0)),
            above(d.target.root, hash::number_chunk(d.target.slot.0.0)),
            above(d.source.root, hash::number_chunk(d.source.slot.0.0)),
        ),
        a.root_value() == above(
            bitlist::bitlist_root(a.aggregation_bits, 4_096),
            a.data.root_value(),
        ),
{
}

/// The roots of signed votes and signed blocks commit to what was signed first and to the
/// signature behind it.
pub proof fn law_signed_roots(
    v: SignedAttestation,
    p: ProofModel,
    a: SignedAggregateModel,
    m: ProposalModel,
    g: SignaturesModel,
    s: SignedBlockModel,
)
    ensures
        v.root_value() == above_four(
            hash::number_chunk(v.validator_id.0),
            v.message.root_value(),
            hash::vector_root(v.signature@),
            blank(),
        ),
        p.root_value() == above(
            bitlist::bitlist_root(p.participants, 4_096),
            hash::byte_list_root(p.proof_data, 1_048_576),
        ),
        a.root_value() == above(a.data.root_value(), p_root(a.proof)),
        m.root_value() == above(m.block.root_value(), m.proposer_attestation.root_value()),
        g.root_value() == above(
            crate::ssz::list_root::<AggregatedSignatureProof>(g.attestation_signatures, 4_096),
            hash::vector_root(g.proposer_signature@),
        ),
        s.root_value() == above(s.message.root_value(), s.signature.root_value()),
{
    law_three_leaves(
        hash::number_chunk(v.validator_id.0),
        v.message.root_value(),
        hash::vector_root(v.signature@),
    );
}

/// The root of a proof.
pub open spec fn p_root(p: ProofModel) -> Bytes32 {
    above(
        bitlist::bitlist_root(p.participants, 4_096),
        hash::byte_list_root(p.proof_data, 1_048_576),
    )
}

/// A validator's root commits to its key, its index and its balance, in this order.
pub proof fn law_validator_root(v: Validator)
    ensures
        v.root_value() == above_four(
            hash::vector_root(v.pubkey@),
            hash::number_chunk(v.index.0.0),
            hash::number_chunk(v.balance.0),
            blank(),
        ),
{
    law_three_leaves(
        hash::vector_root(v.pubkey@),
        hash::number_chunk(v.index.0.0),
        hash::number_chunk(v.balance.0),
    );
}

/// The root of a list is the node above the tree over its items, in their order and sized for
/// the limit, and the number of items.
pub proof fn law_list_roots(
    roots: Seq<Bytes32>,
    registry: Seq<Validator>,
    votes: Seq<AttestationModel>,
    limit: nat,
)
    ensures
        crate::ssz::list_root::<Bytes32>(roots, limit) == above(
            hash::merkle_root(roots, limit),
            hash::number_chunk(roots.len() as u64),
        ),
        crate::ssz::list_root::<Validator>(registry, limit) == above(
            hash::merkle_root(registry.map_values(|v: Validator| v.root_value()), limit),
            hash::number_chunk(registry.len() as u64),
        ),
        crate::ssz::list_root::<Attestation>(votes, limit) == above(
            hash::merkle_root(votes.map_values(|a: AttestationModel| a.root_value()), limit),
            hash::number_chunk(votes.len() as u64),
        ),
{
    assert(Seq::new(
        roots.len(),
        |i: int| <Bytes32 as crate::ssz::SszElement>::root_of(roots[i]),
    ) =~= roots);
    assert(Seq::new(
        registry.len(),
        |i: int| <Validator as crate::ssz::SszElement>::root_of(registry[i]),
    ) =~= registry.map_values(|v: Validator| v.root_value()));
    assert(Seq::new(
        votes.len(),
        |i: int| <Attestation as crate::ssz::SszElement>::root_of(votes[i]),
    ) =~= votes.map_values(|a: AttestationModel| a.root_value()));
}

} // verus!
