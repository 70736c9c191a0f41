//! Which votes the store counts, where its head and its safe target lie, and which checkpoint
//! it votes for.

use crate::containers::attestation::AttestationModel;
use crate::containers::block::SignedBlockModel;
use crate::containers::justification;
use crate::containers::state::StateModel;
use crate::fork_choice;
use crate::fork_choice::ForkChoiceModel;
use crate::slot::Slot;
use crate::types::bytes;
use crate::types::bytes::Bytes32;
use vstd::prelude::*;

verus! {

/// The validator takes part in the attestation.
pub open spec fn takes_part(a: AttestationModel, v: usize) -> bool {
    v < a.aggregation_bits.len() && a.aggregation_bits[v as int]
}

/// Both maps say the same of the validator.
pub open spec fn same_vote(a: Map<usize, Bytes32>, b: Map<usize, Bytes32>, v: usize) -> bool {
    a.contains_key(v) == b.contains_key(v) && (b.contains_key(v) ==> a[v] == b[v])
}

/// What a block carries, in the order in which it counts: the votes in its body, then the vote
/// of its proposer.
pub open spec fn carried(signed: SignedBlockModel) -> Seq<AttestationModel> {
    signed.message.block.attestations.push(signed.message.proposer_attestation)
}

/// Of the first `k` attestations, number `i` is the last one for a known head that the
/// validator takes part in.
pub open spec fn speaks_last(
    blocks: Map<Bytes32, SignedBlockModel>,
    list: Seq<AttestationModel>,
    k: int,
    v: usize,
    i: int,
) -> bool {
    &&& 0 <= i < k
    &&& takes_part(list[i], v)
    &&& blocks.contains_key(list[i].data.head.root)
    &&& forall|j: int|
        i < j < k && #[trigger] takes_part(list[j], v) ==> !blocks.contains_key(
            list[j].data.head.root,
        )
}

/// The validator takes part in none of the first `k` attestations for a known head.
pub open spec fn is_silent(
    blocks: Map<Bytes32, SignedBlockModel>,
    list: Seq<AttestationModel>,
    k: int,
    v: usize,
) -> bool {
    forall|j: int|
        0 <= j < k && #[trigger] takes_part(list[j], v) ==> !blocks.contains_key(
            list[j].data.head.root,
        )
}

proof fn lemma_list_votes(
    blocks: Map<Bytes32, SignedBlockModel>,
    votes: Map<usize, Bytes32>,
    list: Seq<AttestationModel>,
    k: nat,
    v: usize,
)
    requires
        k <= list.len(),
    ensures
        ({
            let after = fork_choice::votes_of_block(blocks, votes, list, k);
            &&& forall|i: int| #[trigger]
                speaks_last(blocks, list, k as int, v, i) ==> after.contains_key(v) && after[v]
                    == list[i].data.head.root
            &&& is_silent(blocks, list, k as int, v) ==> same_vote(after, votes, v)
        }),
    decreases k,
{
    let after = fork_choice::votes_of_block(blocks, votes, list, k);
    if k > 0 {
        let p = (k - 1) as nat;
        lemma_list_votes(blocks, votes, list, p, v);
        let before = fork_choice::votes_of_block(blocks, votes, list, p);
        let a = list[p as int];
        assert forall|i: int| #[trigger]
            speaks_last(blocks, list, k as int, v, i) implies after.contains_key(v) && after[v]
            == list[i].data.head.root by {
            if i < p {
                assert(speaks_last(blocks, list, p as int, v, i));
                if takes_part(a, v) {
                    assert(takes_part(list[p as int], v));
                }
            }
        }
        if is_silent(blocks, list, k as int, v) {
            assert(is_silent(blocks, list, p as int, v));
            if takes_part(a, v) {
                assert(takes_part(list[p as int], v));
            }
        }
    }
}

/// A block's votes count at once. Behind the import, every validator that takes part in an
/// attestation of the block for a known head has the head of the last such attestation as its
/// counted vote, the proposer's own coming last; the block itself is known by then. Every other
/// validator keeps the vote that it had.
pub proof fn law_block_votes_count(
    m: ForkChoiceModel,
    signed: SignedBlockModel,
    post: StateModel,
    v: usize,
)
    ensures
        ({
            let next = fork_choice::imported(m, signed, post);
            let known = m.blocks.insert(signed.message.block.root_value(), signed);
            let list = carried(signed);
            &&& forall|i: int| #[trigger]
                speaks_last(known, list, list.len() as int, v, i) ==> next.votes.contains_key(v)
                    && next.votes[v] == list[i].data.head.root
            &&& is_silent(known, list, list.len() as int, v) ==> same_vote(next.votes, m.votes, v)
        }),
{
    let b = signed.message.block;
    let known = m.blocks.insert(b.root_value(), signed);
    let list = carried(signed);
    let n = b.attestations.len();
    lemma_list_votes(known, m.votes, list, list.len(), v);
    lemma_same_votes(known, m.votes, list, b.attestations, n);
    assert(list[n as int] == signed.message.proposer_attestation);
}

proof fn lemma_same_votes(
    blocks: Map<Bytes32, SignedBlockModel>,
    votes: Map<usize, Bytes32>,
    a: Seq<AttestationModel>,
    b: Seq<AttestationModel>,
    k: nat,
)
    requires
        k <= a.len(),
        k <= b.len(),
        forall|i: int| 0 <= i < k ==> a[i] == b[i],
    ensures
        fork_choice::votes_of_block(blocks, votes, a, k) == fork_choice::votes_of_block(
            blocks,
            votes,
            b,
            k,
        ),
    decreases k,
{
    if k > 0 {
        lemma_same_votes(blocks, votes, a, b, (k - 1) as nat);
    }
}

/// Pending attestations wait for their heads, the last one of each validator; a vote for an
/// unknown head is dropped. Nothing but the waiting votes changes.
pub proof fn law_pending_votes_wait(m: ForkChoiceModel, pending: Seq<AttestationModel>, v: usize)
    ensures
        ({
            let next = fork_choice::with_pending(m, pending, pending.len());
            let n = pending.len() as int;
            &&& forall|i: int| #[trigger]
                speaks_last(m.blocks, pending, n, v, i) ==> next.new_votes.contains_key(v)
                    && next.new_votes[v] == pending[i].data.head.root
            &&& is_silent(m.blocks, pending, n, v) ==> same_vote(next.new_votes, m.new_votes, v)
            &&& next.votes == m.votes
            &&& next.head == m.head
            &&& next.blocks == m.blocks
        }),
{
    lemma_list_votes(m.blocks, m.new_votes, pending, pending.len(), v);
}

/// A vote for a known block goes to that block for every participant and for nobody else; a
/// vote for an unknown block changes nothing.
pub proof fn law_vote_goes_to_its_block(
    blocks: Map<Bytes32, SignedBlockModel>,
    votes: Map<usize, Bytes32>,
    participants: Seq<bool>,
    root: Bytes32,
    v: usize,
)
    ensures
        ({
            let after = fork_choice::vote_for(blocks, votes, participants, root);
            let moves = blocks.contains_key(root) && v < participants.len()
                && participants[v as int];
            &&& moves ==> after.contains_key(v) && after[v] == root
            &&& !moves ==> same_vote(after, votes, v)
        }),
{
}

/// Accepting the waiting votes counts each of them in place of the validator's earlier vote,
/// keeps the other votes, and leaves none waiting.
pub proof fn law_accepted_votes_replace(m: ForkChoiceModel, v: usize)
    ensures
        ({
            let next = fork_choice::accepted(m);
            &&& m.new_votes.contains_key(v) ==> next.votes.contains_key(v) && next.votes[v]
                == m.new_votes[v]
            &&& !m.new_votes.contains_key(v) ==> same_vote(next.votes, m.votes, v)
            &&& !next.new_votes.contains_key(v)
            &&& next.blocks == m.blocks
            &&& next.latest_justified == m.latest_justified
            &&& next.latest_finalized == m.latest_finalized
        }),
{
}

/// `path` goes up the tree: each block is followed by its parent, which is not the zero root.
pub open spec fn goes_up(parents: Map<Bytes32, Bytes32>, path: Seq<Bytes32>) -> bool {
    &&& path.len() > 0
    &&& forall|i: int|
        0 <= i < path.len() - 1 ==> {
            &&& parents.contains_key(#[trigger] path[i])
            &&& parents[path[i]] == path[i + 1]
            &&& path[i + 1] != Bytes32::zero_value()
        }
}

/// The block `anc` is met on the way up from `node`. The zero root is met above the first
/// block.
pub open spec fn lies_under(
    parents: Map<Bytes32, Bytes32>,
    node: Bytes32,
    anc: Bytes32,
) -> bool {
    exists|path: Seq<Bytes32>| #[trigger] goes_up(parents, path) && path[0] == node && (path.last()
        == anc || (anc == Bytes32::zero_value() && parents.contains_key(path.last())
        && parents[path.last()] == anc))
}

proof fn lemma_path_is_branch(parents: Map<Bytes32, Bytes32>, path: Seq<Bytes32>, i: int)
    requires
        goes_up(parents, path),
        0 <= i < path.len(),
    ensures
        fork_choice::branch(parents, path[0], i as nat) == Some(path[i]),
    decreases i,
{
    if i > 0 {
        lemma_path_is_branch(parents, path, i - 1);
        assert(parents.contains_key(path[i - 1]));
    }
}

proof fn lemma_branch_is_path(parents: Map<Bytes32, Bytes32>, node: Bytes32, n: nat) -> (path: Seq<
    Bytes32,
>)
    requires
        fork_choice::branch(parents, node, n) is Some,
    ensures
        goes_up(parents, path),
        path.len() == n + 1,
        path[0] == node,
        path.last() == fork_choice::branch(parents, node, n).unwrap(),
    decreases n,
{
    if n == 0 {
        seq![node]
    } else {
        let short = lemma_branch_is_path(parents, node, (n - 1) as nat);
        let path = short.push(fork_choice::branch(parents, node, n).unwrap());
        assert forall|i: int| 0 <= i < path.len() - 1 implies {
            &&& parents.contains_key(#[trigger] path[i])
            &&& parents[path[i]] == path[i + 1]
            &&& path[i + 1] != Bytes32::zero_value()
        } by {
            if i < short.len() - 1 {
                assert(path[i] == short[i] && path[i + 1] == short[i + 1]);
                assert(parents.contains_key(short[i]));
            } else {
                assert(path[i] == short.last());
            }
        }
        path
    }
}

/// One block descends from another exactly when the other is met on the way up from it.
pub proof fn law_descent_is_a_way_up(
    parents: Map<Bytes32, Bytes32>,
    node: Bytes32,
    anc: Bytes32,
)
    ensures
        fork_choice::descends(parents, node, anc) <==> lies_under(parents, node, anc),
{
    if fork_choice::descends(parents, node, anc) {
        let n = choose|n: nat| #[trigger] fork_choice::met_at(parents, node, anc, n);
        let path = lemma_branch_is_path(parents, node, n);
        assert(goes_up(parents, path));
    }
    if lies_under(parents, node, anc) {
        let path = choose|path: Seq<Bytes32>| #[trigger]
            goes_up(parents, path) && path[0] == node && (path.last() == anc || (anc
                == Bytes32::zero_value() && parents.contains_key(path.last())
                && parents[path.last()] == anc));
        lemma_path_is_branch(parents, path, path.len() - 1);
        assert(fork_choice::met_at(parents, node, anc, (path.len() - 1) as nat));
    }
}

/// The validators whose counted vote is for a block or for something below it.
pub open spec fn backers(
    parents: Map<Bytes32, Bytes32>,
    votes: Map<usize, Bytes32>,
    root: Bytes32,
) -> Set<usize> {
    Set::new(|v: usize| votes.contains_key(v) && lies_under(parents, votes[v], root))
}

/// The weight of a block is the number of validators whose counted vote is for it or for
/// something below it.
pub proof fn law_weight_counts_backers(
    parents: Map<Bytes32, Bytes32>,
    votes: Map<usize, Bytes32>,
    root: Bytes32,
)
    ensures
        fork_choice::weight(parents, votes, root) == backers(parents, votes, root).len(),
{
    assert forall|v: usize| fork_choice::supporters(parents, votes, root).contains(v) <==> backers(
        parents,
        votes,
        root,
    ).contains(v) by {
        if votes.contains_key(v) {
            law_descent_is_a_way_up(parents, votes[v], root);
        }
    }
    assert(fork_choice::supporters(parents, votes, root) =~= backers(parents, votes, root));
}

/// The root `a` is smaller than `b`: they agree up to some byte, which is smaller in `a`.
pub open spec fn is_smaller(a: Bytes32, b: Bytes32) -> bool {
    exists|i: int|
        0 <= i < 32 && #[trigger] a@[i] < b@[i] && forall|j: int|
            0 <= j < i ==> #[trigger] a@[j] == b@[j]
}

proof fn lemma_smaller(a: Bytes32, b: Bytes32)
    ensures
        bytes::bytes_less(a@, b@) <==> is_smaller(a, b),
{
    Bytes32::lemma_of(a);
    Bytes32::lemma_of(b);
    if bytes::bytes_less(a@, b@) {
        let i = choose|i: int| bytes::splits_less(a@, b@, i);
        assert(a@[i] < b@[i]);
    }
    if is_smaller(a, b) {
        let i = choose|i: int|
            0 <= i < 32 && #[trigger] a@[i] < b@[i] && forall|j: int|
                0 <= j < i ==> #[trigger] a@[j] == b@[j];
        assert(bytes::splits_less(a@, b@, i));
    }
}

/// The block `a` outweighs `b`: more backers, or as many and the smaller root.
pub open spec fn outweighs(m: ForkChoiceModel, a: Bytes32, b: Bytes32) -> bool {
    let wa = backers(m.parents, m.votes, a).len();
    let wb = backers(m.parents, m.votes, b).len();
    wa > wb || (wa == wb && is_smaller(a, b))
}

/// `path` goes down the tree and takes, at each block, the child that outweighs all others.
pub open spec fn goes_down_heaviest(m: ForkChoiceModel, path: Seq<Bytes32>) -> bool {
    &&& path.len() > 0
    &&& forall|i: int|
        0 <= i < path.len() - 1 ==> {
            &&& m.children.contains_key(#[trigger] path[i])
            &&& m.children[path[i]].contains(path[i + 1])
            &&& forall|c: Bytes32| #[trigger]
                m.children[path[i]].contains(c) && c != path[i + 1] ==> outweighs(
                    m,
                    path[i + 1],
                    c,
                )
        }
}

proof fn lemma_best_outweighs(m: ForkChoiceModel, list: Seq<Bytes32>, c: Bytes32)
    requires
        list.contains(c),
        c != fork_choice::best_of(m, list),
    ensures
        outweighs(m, fork_choice::best_of(m, list), c),
{
    let best = fork_choice::best_of(m, list);
    fork_choice::law_best_child_is_preferred(m, list);
    let i = choose|i: int| 0 <= i < list.len() && list[i] == c;
    assert(!fork_choice::preferred(m, list[i], best));
    law_weight_counts_backers(m.parents, m.votes, best);
    law_weight_counts_backers(m.parents, m.votes, c);
    justification::lemma_order_total(best, c);
    lemma_smaller(best, c);
    lemma_smaller(c, best);
}

proof fn lemma_descent_goes_down(m: ForkChoiceModel, from: Bytes32, steps: nat) -> (path: Seq<
    Bytes32,
>)
    requires
        fork_choice::tree_wf(m),
        m.blocks.contains_key(from),
    ensures
        goes_down_heaviest(m, path),
        path[0] == from,
        path.last() == fork_choice::descend(m, from, steps),
        m.blocks.contains_key(path.last()),
    decreases steps,
{
    if steps == 0 || !m.children.contains_key(from) || m.children[from].len() == 0 {
        seq![from]
    } else {
        let kids = m.children[from];
        let best = fork_choice::best_of(m, kids);
        fork_choice::law_best_child_is_preferred(m, kids);
        assert(m.children[from].contains(best));
        assert(m.parents.contains_key(best));
        assert(m.blocks.dom().contains(best));
        let rest = lemma_descent_goes_down(m, best, (steps - 1) as nat);
        let path = seq![from] + rest;
        assert forall|i: int| 0 <= i < path.len() - 1 implies {
            &&& m.children.contains_key(#[trigger] path[i])
            &&& m.children[path[i]].contains(path[i + 1])
            &&& forall|c: Bytes32| #[trigger]
                m.children[path[i]].contains(c) && c != path[i + 1] ==> outweighs(
                    m,
                    path[i + 1],
                    c,
                )
        } by {
            if i == 0 {
                assert(path[1] == rest[0]);
                assert forall|c: Bytes32| #[trigger]
                    m.children[from].contains(c) && c != best implies outweighs(m, best, c) by {
                    lemma_best_outweighs(m, kids, c);
                }
            } else {
                assert(path[i] == rest[i - 1] && path[i + 1] == rest[i]);
            }
        }
        assert(path.last() == rest.last());
        path
    }
}

/// The head of a store follows its votes: it is reached from the justified block by going down
/// to the child that outweighs all others, and the head's slot is its own.
pub open spec fn head_follows_votes(m: ForkChoiceModel) -> bool {
    &&& exists|path: Seq<Bytes32>| #[trigger]
        goes_down_heaviest(m, path) && path[0] == m.latest_justified.root && path.last() == m.head
    &&& m.blocks.contains_key(m.head)
    &&& m.head_slot == m.blocks[m.head].message.block.slot.0.0
}

proof fn lemma_only_head_moves(m: ForkChoiceModel, next: ForkChoiceModel)
    requires
        fork_choice::tree_wf(m),
        m.blocks.contains_key(m.latest_justified.root),
        next.head == fork_choice::found_head(m),
        next.head_slot == fork_choice::slot_of(m, next.head),
        next.blocks == m.blocks,
        next.parents == m.parents,
        next.children == m.children,
        next.votes == m.votes,
        next.latest_justified == m.latest_justified,
    ensures
        head_follows_votes(next),
        m.blocks.contains_key(fork_choice::found_head(m)),
{
    let path = lemma_descent_goes_down(m, m.latest_justified.root, m.children.dom().len());
    assert forall|i: int| 0 <= i < path.len() - 1 implies {
        &&& next.children.contains_key(#[trigger] path[i])
        &&& next.children[path[i]].contains(path[i + 1])
        &&& forall|c: Bytes32| #[trigger]
            next.children[path[i]].contains(c) && c != path[i + 1] ==> outweighs(
                next,
                path[i + 1],
                c,
            )
    } by {
        assert(m.children.contains_key(path[i]));
        assert forall|c: Bytes32| #[trigger]
            next.children[path[i]].contains(c) && c != path[i + 1] implies outweighs(
            next,
            path[i + 1],
            c,
        ) by {
            assert(m.children[path[i]].contains(c));
            assert(outweighs(m, path[i + 1], c));
        }
    }
    assert(goes_down_heaviest(next, path));
}

/// Behind an imported block, accepted votes and a proposal the head follows the votes, wherever
/// the justified block is known.
pub proof fn law_head_follows_votes(
    m: ForkChoiceModel,
    signed: SignedBlockModel,
    post: StateModel,
)
    requires
        fork_choice::tree_wf(m),
    ensures
        ({
            let next = fork_choice::imported(m, signed, post);
            next.blocks.contains_key(next.latest_justified.root) ==> head_follows_votes(next)
        }),
        m.blocks.contains_key(m.latest_justified.root) ==> head_follows_votes(
            fork_choice::accepted(m),
        ),
        m.blocks.contains_key(m.latest_justified.root) ==> head_follows_votes(
            fork_choice::proposed(m),
        ),
{
    let mid = fork_choice::with_block(m, signed, post);
    fork_choice::lemma_with_block_wf(m, signed, post);
    let next = fork_choice::imported(m, signed, post);
    if mid.blocks.contains_key(mid.latest_justified.root) {
        let found = fork_choice::found_head(mid);
        let moved = ForkChoiceModel {
            head: found,
            head_slot: fork_choice::slot_of(mid, found),
            ..mid
        };
        lemma_only_head_moves(mid, moved);
        lemma_only_head_moves(mid, next);
    }
    if m.blocks.contains_key(m.latest_justified.root) {
        let ready = ForkChoiceModel {
            votes: m.votes.union_prefer_right(m.new_votes),
            new_votes: Map::empty(),
            ..m
        };
        let found = fork_choice::found_head(ready);
        let moved = ForkChoiceModel {
            head: found,
            head_slot: fork_choice::slot_of(ready, found),
            ..ready
        };
        lemma_only_head_moves(ready, moved);
        lemma_only_head_moves(ready, fork_choice::accepted(m));
        let here = fork_choice::found_head(m);
        let there = ForkChoiceModel { head: here, head_slot: fork_choice::slot_of(m, here), ..m };
        lemma_only_head_moves(m, there);
        lemma_only_head_moves(m, fork_choice::proposed(m));
    }
}

/// A proposal is built on a head that follows the votes.
pub proof fn law_head_of_proposals(m: ForkChoiceModel)
    requires
        fork_choice::tree_wf(m),
        m.blocks.contains_key(m.latest_justified.root),
    ensures
        head_follows_votes(fork_choice::proposed(m)),
{
    let here = fork_choice::found_head(m);
    let there = ForkChoiceModel { head: here, head_slot: fork_choice::slot_of(m, here), ..m };
    lemma_only_head_moves(m, there);
    lemma_only_head_moves(m, fork_choice::proposed(m));
}

/// Where the justified block is unknown, the head stays if it is known; otherwise an imported
/// block becomes the head exactly when its slot is later than the head's.
pub proof fn law_head_without_justified_block(
    m: ForkChoiceModel,
    signed: SignedBlockModel,
    post: StateModel,
)
    requires
        !fork_choice::imported(m, signed, post).blocks.contains_key(
            fork_choice::imported(m, signed, post).latest_justified.root,
        ),
    ensures
        ({
            let next = fork_choice::imported(m, signed, post);
            let b = signed.message.block;
            let known = m.blocks.contains_key(m.head) || m.head == b.root_value();
            &&& known || b.slot.num() <= m.head_slot ==> next.head == m.head
            &&& !known && b.slot.num() > m.head_slot ==> next.head == b.root_value()
                && next.head_slot == b.slot.num()
        }),
{
}

/// An import records the block under its root, its state beside it and its parent above it, and
/// lists it last among its parent's children. Nothing recorded for other blocks changes, and
/// neither do the waiting votes and the number of validators.
pub proof fn law_import_records_the_block(
    m: ForkChoiceModel,
    signed: SignedBlockModel,
    post: StateModel,
    other: Bytes32,
)
    ensures
        ({
            let next = fork_choice::imported(m, signed, post);
            let b = signed.message.block;
            let root = b.root_value();
            &&& next.blocks.contains_key(root) && next.blocks[root] == signed
            &&& next.states.contains_key(root) && next.states[root] == post
            &&& next.parents.contains_key(root) && next.parents[root] == b.parent_root
            &&& next.children.contains_key(b.parent_root)
            &&& next.children[b.parent_root].last() == root
            &&& next.children[b.parent_root].drop_last() == (if m.children.contains_key(
                b.parent_root,
            ) {
                m.children[b.parent_root]
            } else {
                Seq::empty()
            })
            &&& other != root ==> {
                &&& next.blocks.contains_key(other) == m.blocks.contains_key(other)
                &&& next.blocks[other] == m.blocks[other]
                &&& next.states.contains_key(other) == m.states.contains_key(other)
                &&& next.states[other] == m.states[other]
                &&& next.parents.contains_key(other) == m.parents.contains_key(other)
                &&& next.parents[other] == m.parents[other]
            }
            &&& other != b.parent_root ==> {
                &&& next.children.contains_key(other) == m.children.contains_key(other)
                &&& next.children[other] == m.children[other]
            }
            &&& next.new_votes == m.new_votes
            &&& next.validator_count == m.validator_count
        }),
{
    let next = fork_choice::imported(m, signed, post);
    let b = signed.message.block;
    let kids = next.children[b.parent_root];
    let old_kids = if m.children.contains_key(b.parent_root) {
        m.children[b.parent_root]
    } else {
        Seq::empty()
    };
    assert(kids == old_kids.push(b.root_value()));
    assert(kids.drop_last() =~= old_kids);
}

/// The checkpoints of the store are the latest that an imported state carried: a checkpoint of
/// a later slot takes over, any other leaves the store's own. What was justified before a later
/// checkpoint took over is kept as the previous one.
pub proof fn law_later_checkpoints_take_over(
    m: ForkChoiceModel,
    signed: SignedBlockModel,
    post: StateModel,
)
    ensures
        ({
            let next = fork_choice::imported(m, signed, post);
            &&& m.latest_justified.slot.num() < post.latest_justified.slot.num()
                ==> next.latest_justified == post.latest_justified && next.previous_justified
                == m.latest_justified
            &&& m.latest_justified.slot.num() >= post.latest_justified.slot.num()
                ==> next.latest_justified == m.latest_justified && next.previous_justified
                == m.previous_justified
            &&& m.latest_finalized.slot.num() < post.latest_finalized.slot.num()
                ==> next.latest_finalized == post.latest_finalized
            &&& m.latest_finalized.slot.num() >= post.latest_finalized.slot.num()
                ==> next.latest_finalized == m.latest_finalized
        }),
{
}

/// A reorganization is counted exactly when the old head is not met on the way up from the new
/// one.
pub proof fn law_reorgs_are_counted(
    m: ForkChoiceModel,
    signed: SignedBlockModel,
    post: StateModel,
)
    requires
        m.reorgs_total < u64::MAX,
    ensures
        ({
            let next = fork_choice::imported(m, signed, post);
            let grown = exists|path: Seq<Bytes32>| #[trigger]
                goes_up(next.parents, path) && path[0] == next.head && path.last() == m.head;
            &&& grown ==> next.reorgs_total == m.reorgs_total
            &&& !grown ==> next.reorgs_total == m.reorgs_total + 1
        }),
        ({
            let next = fork_choice::accepted(m);
            let grown = exists|path: Seq<Bytes32>| #[trigger]
                goes_up(next.parents, path) && path[0] == next.head && path.last() == m.head;
            &&& grown ==> next.reorgs_total == m.reorgs_total
            &&& !grown ==> next.reorgs_total == m.reorgs_total + 1
        }),
{
    let next = fork_choice::imported(m, signed, post);
    lemma_on_branch(next.parents, next.head, m.head);
    let after = fork_choice::accepted(m);
    lemma_on_branch(after.parents, after.head, m.head);
}

/// The block is met on the way up from `head`, or is `head` itself.
pub open spec fn is_above(parents: Map<Bytes32, Bytes32>, head: Bytes32, root: Bytes32) -> bool {
    exists|path: Seq<Bytes32>|
        #[trigger] goes_up(parents, path) && path[0] == head && path.last() == root
}

/// The depth of a reorganization is the number of blocks of the old branch that the new head
/// does not have above it: the way up from the old head passes that many of them, and then comes
/// to a block that the new head has above it, or ends.
pub proof fn law_reorg_depth(
    parents: Map<Bytes32, Bytes32>,
    old_head: Bytes32,
    new_head: Bytes32,
    d: nat,
) -> (path: Seq<Bytes32>)
    requires
        fork_choice::is_reorg_depth(parents, old_head, new_head, d),
    ensures
        goes_up(parents, path),
        path[0] == old_head,
        path.len() == d + 1,
        forall|i: int| 0 <= i < d ==> !is_above(parents, new_head, #[trigger] path[i]),
        is_above(parents, new_head, path.last()) || !parents.contains_key(path.last())
            || parents[path.last()] == Bytes32::zero_value(),
        new_head == old_head ==> d == 0,
{
    let path = lemma_branch_is_path(parents, old_head, d);
    assert forall|i: int| 0 <= i < d implies !is_above(parents, new_head, #[trigger] path[i]) by {
        lemma_path_is_branch(parents, path, i);
        lemma_on_branch(parents, new_head, path[i]);
    }
    lemma_on_branch(parents, new_head, path.last());
    if new_head == old_head && d > 0 {
        let short = seq![old_head];
        assert(goes_up(parents, short) && short.last() == path[0]);
        assert(is_above(parents, new_head, path[0]));
    }
    path
}

/// The list of blocks tells of each its slot, parent and proposer and how many validators back it
/// or a block under it; earlier slots stand first, and within a slot the smaller roots.
pub proof fn law_snapshots(
    m: ForkChoiceModel,
    list: Seq<fork_choice::ForkChoiceNodeSnapshot>,
    i: int,
    j: int,
)
    requires
        fork_choice::snapshots_ordered(list),
        forall|k: int| 0 <= k < list.len() ==> fork_choice::snapshot_of(m, #[trigger] list[k]),
        0 <= i < j < list.len(),
    ensures
        m.blocks.contains_key(list[i].root),
        list[i].slot == m.blocks[list[i].root].message.block.slot.num(),
        list[i].parent_root == m.blocks[list[i].root].message.block.parent_root,
        list[i].proposer_index == m.blocks[list[i].root].message.block.proposer_index.0.0,
        list[i].weight == backers(m.parents, m.votes, list[i].root).len(),
        list[i].slot <= list[j].slot,
        list[i].slot == list[j].slot ==> is_smaller(list[i].root, list[j].root),
{
    assert(fork_choice::snapshot_of(m, list[i]));
    assert(fork_choice::snapshot_before(list[i], list[j]));
    law_weight_counts_backers(m.parents, m.votes, list[i].root);
    lemma_smaller(list[i].root, list[j].root);
}

proof fn lemma_on_branch(parents: Map<Bytes32, Bytes32>, node: Bytes32, anc: Bytes32)
    ensures
        fork_choice::on_branch(parents, node, anc) <==> exists|path: Seq<Bytes32>| #[trigger]
            goes_up(parents, path) && path[0] == node && path.last() == anc,
{
    if fork_choice::on_branch(parents, node, anc) {
        let n = choose|n: nat| #[trigger] fork_choice::branch(parents, node, n) == Some(anc);
        let path = lemma_branch_is_path(parents, node, n);
        assert(goes_up(parents, path));
    }
    if exists|path: Seq<Bytes32>| #[trigger]
        goes_up(parents, path) && path[0] == node && path.last() == anc {
        let path = choose|path: Seq<Bytes32>| #[trigger]
            goes_up(parents, path) && path[0] == node && path.last() == anc;
        lemma_path_is_branch(parents, path, path.len() - 1);
    }
}

/// The block has the backing of two thirds of the validators and lies under the anchor.
pub open spec fn two_thirds_back(m: ForkChoiceModel, root: Bytes32, anchor: Bytes32) -> bool {
    &&& m.blocks.contains_key(root)
    &&& lies_under(m.parents, root, anchor)
    &&& backers(m.parents, m.votes, root).len() * 3 >= m.validator_count * 2
}

/// With a known finalized block and at least one validator, the safe target is the finalized
/// block or a later block under it that two thirds of the validators back, and no such block
/// has a later slot, nor the same slot and a smaller root.
pub proof fn law_safe_target_has_two_thirds(m: ForkChoiceModel, safe: Bytes32)
    requires
        fork_choice::is_safe_target(m, safe),
        m.validator_count > 0,
        m.blocks.contains_key(m.latest_finalized.root),
    ensures
        ({
            let anchor = m.latest_finalized.root;
            let slot = |r: Bytes32| m.blocks[r].message.block.slot.num();
            &&& m.blocks.contains_key(safe)
            &&& safe == anchor || two_thirds_back(m, safe, anchor)
            &&& slot(safe) >= slot(anchor)
            &&& forall|r: Bytes32| #[trigger]
                two_thirds_back(m, r, anchor) ==> slot(r) < slot(safe) || (slot(r) == slot(safe)
                    && !is_smaller(r, safe))
        }),
{
    let anchor = m.latest_finalized.root;
    law_weight_counts_backers(m.parents, m.votes, safe);
    law_descent_is_a_way_up(m.parents, safe, anchor);
    assert forall|r: Bytes32| #[trigger] two_thirds_back(m, r, anchor) implies {
        ||| m.blocks[r].message.block.slot.num() < m.blocks[safe].message.block.slot.num()
        ||| m.blocks[r].message.block.slot.num() == m.blocks[safe].message.block.slot.num()
            && !is_smaller(r, safe)
    } by {
        law_weight_counts_backers(m.parents, m.votes, r);
        law_descent_is_a_way_up(m.parents, r, anchor);
        assert(fork_choice::is_supported(m, r));
        lemma_smaller(r, safe);
    }
}

/// A block with two thirds behind it that lies under the finalized block and ahead of all
/// others of that kind is the safe target; without such a block it is the finalized one. Where
/// the finalized block is unknown the justified one takes its place, and without validators the
/// head is the safe target.
pub proof fn law_safe_target_is_owed(m: ForkChoiceModel, safe: Bytes32)
    requires
        fork_choice::is_safe_target(m, safe),
    ensures
        m.validator_count == 0 ==> safe == m.head,
        m.validator_count > 0 && m.blocks.contains_key(m.latest_finalized.root) && (forall|
            r: Bytes32,
        |
            !#[trigger] two_thirds_back(m, r, m.latest_finalized.root)) ==> safe
            == m.latest_finalized.root,
        m.validator_count > 0 && !m.blocks.contains_key(m.latest_finalized.root)
            && m.blocks.contains_key(m.latest_justified.root) ==> (safe == m.latest_justified.root
            || two_thirds_back(m, safe, m.latest_justified.root)),
        m.validator_count > 0 && !m.blocks.contains_key(m.latest_finalized.root)
            && m.blocks.contains_key(m.latest_justified.root) ==> forall|r: Bytes32| #[trigger]
            two_thirds_back(m, r, m.latest_justified.root) ==> m.blocks[r].message.block.slot.num()
                <= m.blocks[safe].message.block.slot.num(),
{
    law_weight_counts_backers(m.parents, m.votes, safe);
    law_descent_is_a_way_up(m.parents, safe, m.latest_finalized.root);
    law_descent_is_a_way_up(m.parents, safe, m.latest_justified.root);
    law_descent_is_a_way_up(m.parents, safe, fork_choice::safe_anchor(m));
    if fork_choice::is_supported(m, safe) {
        assert(two_thirds_back(m, safe, fork_choice::safe_anchor(m)));
    }
    if m.validator_count > 0 && !m.blocks.contains_key(m.latest_finalized.root)
        && m.blocks.contains_key(m.latest_justified.root) {
        assert forall|r: Bytes32| #[trigger]
            two_thirds_back(m, r, m.latest_justified.root) implies m.blocks[r].message.block.slot.num()
            <= m.blocks[safe].message.block.slot.num() by {
            law_weight_counts_backers(m.parents, m.votes, r);
            law_descent_is_a_way_up(m.parents, r, m.latest_justified.root);
            assert(fork_choice::is_supported(m, r));
        }
    }
}

/// `path` is the branch of the head, from the head up; all its blocks are known.
pub open spec fn is_head_branch(m: ForkChoiceModel, path: Seq<Bytes32>) -> bool {
    &&& goes_up(m.parents, path)
    &&& path[0] == m.head
    &&& forall|i: int| 0 <= i < path.len() ==> m.blocks.contains_key(#[trigger] path[i])
}

/// The slot of a known block.
pub open spec fn block_slot(m: ForkChoiceModel, root: Bytes32) -> int {
    m.blocks[root].message.block.slot.num()
}

/// The slot of the safe target; that of the head where the safe target is unknown.
pub open spec fn safe_slot(m: ForkChoiceModel) -> int {
    if m.blocks.contains_key(m.safe_target) {
        block_slot(m, m.safe_target)
    } else {
        m.head_slot as int
    }
}

/// The branch ends at the block: its parent is the zero root.
pub open spec fn is_first(m: ForkChoiceModel, root: Bytes32) -> bool {
    m.parents.contains_key(root) && m.parents[root] == Bytes32::zero_value()
}

/// A slot that lies `d` slots behind finality can be justified: at most five slots, a square,
/// or a product of two neighbours.
pub open spec fn may_be_justified(d: int) -> bool {
    ||| 0 <= d <= 5
    ||| exists|k: nat| #[trigger] (k * k) == d
    ||| exists|k: nat| #[trigger] (k * (k + 1)) == d
}

/// Going back from the head, at most three blocks, stops at block `k` of its branch: all blocks
/// before it lie above the safe target, and it does not, or the three steps are used up, or the
/// branch ends there.
pub open spec fn stops_at(m: ForkChoiceModel, path: Seq<Bytes32>, k: int) -> bool {
    &&& 0 <= k < path.len()
    &&& k <= 3
    &&& forall|i: int| 0 <= i < k ==> block_slot(m, #[trigger] path[i]) > safe_slot(m)
    &&& block_slot(m, path[k]) <= safe_slot(m) || k == 3 || is_first(m, path[k])
}

proof fn lemma_back_to_safe(m: ForkChoiceModel, path: Seq<Bytes32>, k: int, i: int)
    requires
        is_head_branch(m, path),
        stops_at(m, path, k),
        0 <= i <= k,
    ensures
        fork_choice::back_to_safe(
            m,
            path[i],
            fork_choice::slot_or_head(m, m.safe_target),
            (3 - i) as nat,
        ) == Some(path[k]),
    decreases k - i,
{
    if i < k {
        lemma_back_to_safe(m, path, k, i + 1);
        assert(m.parents.contains_key(path[i]));
        assert(m.blocks.contains_key(path[i]));
    } else {
        assert(m.blocks.contains_key(path[k]));
    }
}

proof fn lemma_back_to_justifiable(
    m: ForkChoiceModel,
    path: Seq<Bytes32>,
    finalized: Slot,
    i: int,
    j: int,
    steps: nat,
)
    requires
        is_head_branch(m, path),
        0 <= i <= j < path.len(),
        j - i <= steps,
        forall|x: int|
            i <= x < j ==> block_slot(m, #[trigger] path[x]) >= finalized.num()
                && !may_be_justified(block_slot(m, path[x]) - finalized.num()),
        block_slot(m, path[j]) < finalized.num() || may_be_justified(
            block_slot(m, path[j]) - finalized.num(),
        ) || is_first(m, path[j]),
    ensures
        fork_choice::back_to_justifiable(m, path[i], finalized, steps) == (if block_slot(m, path[j])
            < finalized.num() {
            None::<Bytes32>
        } else {
            Some(path[j])
        }),
    decreases j - i,
{
    assert(m.blocks.contains_key(path[i]));
    let d = block_slot(m, path[i]) - finalized.num();
    if d >= 0 {
        assert(crate::slot::justifiable_distance(d as nat) <==> may_be_justified(d));
    }
    if i < j {
        assert(m.parents.contains_key(path[i]));
        lemma_back_to_justifiable(m, path, finalized, i + 1, j, (steps - 1) as nat);
    }
}

/// The vote goes to the branch of the head: from the first block, within three steps, that does
/// not lie above the safe target, back to the first block that can be justified after the
/// finalized slot. When that block is older than the justified checkpoint, the vote goes to the
/// justified checkpoint. There is no target when the branch falls below the finalized slot
/// before a block can be justified.
pub proof fn law_target_of_the_vote(
    m: ForkChoiceModel,
    finalized: Slot,
    path: Seq<Bytes32>,
    k: int,
    j: int,
)
    requires
        is_head_branch(m, path),
        stops_at(m, path, k),
        k <= j < path.len(),
        j - k <= m.blocks.dom().len(),
        forall|x: int|
            k <= x < j ==> block_slot(m, #[trigger] path[x]) >= finalized.num()
                && !may_be_justified(block_slot(m, path[x]) - finalized.num()),
        block_slot(m, path[j]) < finalized.num() || may_be_justified(
            block_slot(m, path[j]) - finalized.num(),
        ) || is_first(m, path[j]),
    ensures
        block_slot(m, path[j]) < finalized.num() ==> fork_choice::vote_target(m, finalized) is None,
        block_slot(m, path[j]) >= finalized.num() && block_slot(m, path[j])
            >= m.latest_justified.slot.num() ==> {
            &&& fork_choice::vote_target(m, finalized) matches Some(t)
            &&& t.root == path[j]
            &&& t.slot.num() == block_slot(m, path[j])
        },
        block_slot(m, path[j]) >= finalized.num() && block_slot(m, path[j])
            < m.latest_justified.slot.num() ==> fork_choice::vote_target(m, finalized) == Some(
            m.latest_justified,
        ),
{
    lemma_back_to_safe(m, path, k, 0);
    lemma_back_to_justifiable(m, path, finalized, k, j, m.blocks.dom().len());
    assert(m.blocks.contains_key(path[j]));
}

/// Every block has a later slot than its parent.
pub open spec fn slots_ascend(m: ForkChoiceModel) -> bool {
    forall|r: Bytes32| #[trigger]
        m.blocks.contains_key(r) && m.parents.contains_key(r) && m.blocks.contains_key(m.parents[r])
            ==> block_slot(m, m.parents[r]) < block_slot(m, r)
}

proof fn lemma_justifiable_is_older(
    m: ForkChoiceModel,
    root: Bytes32,
    finalized: Slot,
    steps: nat,
)
    requires
        slots_ascend(m),
    ensures
        fork_choice::back_to_justifiable(m, root, finalized, steps) matches Some(r)
            ==> m.blocks.contains_key(r) && m.blocks.contains_key(root) && block_slot(m, r)
            <= block_slot(m, root),
    decreases steps,
{
    if m.blocks.contains_key(root) && m.parents.contains_key(root) && steps > 0 {
        lemma_justifiable_is_older(m, m.parents[root], finalized, (steps - 1) as nat);
    }
}

/// When one of the head and the three blocks above it does not lie above the safe target, the
/// vote's target lies neither above the safe target nor above the justified checkpoint,
/// whichever is later.
pub proof fn law_target_is_safe(
    m: ForkChoiceModel,
    finalized: Slot,
    path: Seq<Bytes32>,
    k: int,
)
    requires
        slots_ascend(m),
        is_head_branch(m, path),
        0 <= k < path.len(),
        k <= 3,
        block_slot(m, path[k]) <= safe_slot(m),
    ensures
        fork_choice::vote_target(m, finalized) matches Some(t) ==> t.slot.num() <= safe_slot(m)
            || t.slot.num() <= m.latest_justified.slot.num(),
    decreases k,
{
    if exists|i: int| 0 <= i < k && block_slot(m, #[trigger] path[i]) <= safe_slot(m) {
        let i = choose|i: int| 0 <= i < k && block_slot(m, #[trigger] path[i]) <= safe_slot(m);
        law_target_is_safe(m, finalized, path, i);
    } else {
        assert(stops_at(m, path, k));
        lemma_back_to_safe(m, path, k, 0);
        lemma_justifiable_is_older(m, path[k], finalized, m.blocks.dom().len());
    }
}

} // verus!
