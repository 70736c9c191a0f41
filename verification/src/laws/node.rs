//! What the node does with votes, blocks and its command line.

use crate::app::settings::SettingsModel;
use crate::containers::attestation::AttestationModel;
use crate::containers::block::SignedBlockModel;
use crate::containers::justification;
use crate::containers::pq_verifier::PqSignatureVerifier;
use crate::containers::state;
use crate::containers::state::StateModel;
use crate::fork_choice;
use crate::fork_choice::ForkChoiceModel;
use crate::laws::finality;
use crate::laws::fork_choice::{head_follows_votes, same_vote, speaks_last, is_silent, takes_part};
use crate::networking::gossipsub::lean::message::MessageModel;
use crate::node;
use crate::node::{NodeConfigModel, NodeModel};
use crate::types::bytes::Bytes32;
use vstd::prelude::*;

verus! {

proof fn lemma_set_bits(bits: Seq<bool>, k: nat)
    requires
        k <= bits.len(),
    ensures
        node::set_bits(bits, k) == justification::count_set(bits.take(k as int)),
    decreases k,
{
    if k > 0 {
        lemma_set_bits(bits, (k - 1) as nat);
        assert(bits.take(k as int).drop_last() =~= bits.take(k - 1));
    } else {
        assert(bits.take(0) =~= Seq::empty());
    }
}

/// An attestation has as many participants as validators whose bit is set.
pub proof fn law_participants_are_voters(a: AttestationModel)
    ensures
        node::participants(a) == finality::voters(a.aggregation_bits).len(),
{
    let bits = a.aggregation_bits;
    lemma_set_bits(bits, bits.len());
    assert(bits.take(bits.len() as int) =~= bits);
    finality::law_count_is_the_number_of_voters(bits);
}

/// The datum of `x` occurs in the list before the datum of `y` does.
pub open spec fn occurs_before(s: Seq<AttestationModel>, x: Bytes32, y: Bytes32) -> bool {
    exists|a: int|
        0 <= a < s.len() && (#[trigger] s[a]).data.root_value() == x && forall|b: int|
            0 <= b <= a ==> (#[trigger] s[b]).data.root_value() != y
}

proof fn lemma_groups_cover(s: Seq<AttestationModel>, k: nat, b: int)
    requires
        k <= s.len(),
        0 <= b < k,
    ensures
        exists|x: int|
            0 <= x < node::grouped(s, k).len() && (#[trigger] node::grouped(
                s,
                k,
            )[x]).data.root_value() == s[b].data.root_value(),
    decreases k,
{
    let j = (k - 1) as nat;
    let before = node::grouped(s, j);
    let now = node::grouped(s, k);
    let a = s[k - 1];
    let p = node::place_of(before, a.data.root_value(), 0) as int;
    node::lemma_place(before, a.data.root_value(), 0);
    if b < j {
        lemma_groups_cover(s, j, b);
        let x = choose|x: int|
            0 <= x < before.len() && (#[trigger] before[x]).data.root_value()
                == s[b].data.root_value();
        assert(now[x].data.root_value() == s[b].data.root_value());
    } else if p < before.len() {
        assert(now[p].data.root_value() == a.data.root_value());
    } else {
        assert(now[before.len() as int] == a);
    }
}

proof fn lemma_groups_in_order(s: Seq<AttestationModel>, k: nat, x: int, y: int)
    requires
        k <= s.len(),
        0 <= x < y < node::grouped(s, k).len(),
    ensures
        occurs_before(
            s.take(k as int),
            node::grouped(s, k)[x].data.root_value(),
            node::grouped(s, k)[y].data.root_value(),
        ),
    decreases k,
{
    let j = (k - 1) as nat;
    let before = node::grouped(s, j);
    let now = node::grouped(s, k);
    let a = s[k - 1];
    let short = s.take(j as int);
    let long = s.take(k as int);
    node::lemma_place(before, a.data.root_value(), 0);
    let rx = now[x].data.root_value();
    let ry = now[y].data.root_value();
    if y < before.len() {
        lemma_groups_in_order(s, j, x, y);
        let i = choose|i: int|
            0 <= i < short.len() && (#[trigger] short[i]).data.root_value() == rx && forall|b: int|
                0 <= b <= i ==> (#[trigger] short[b]).data.root_value() != ry;
        assert(long[i].data.root_value() == rx);
        assert forall|b: int| 0 <= b <= i implies (#[trigger] long[b]).data.root_value() != ry by {
            assert(long[b] == short[b]);
        }
    } else {
        assert(now[y] == a);
        assert(now[x] == before[x]);
        lemma_group_occurs(s, j, x);
        let i = choose|i: int| 0 <= i < j && (#[trigger] s[i]).data.root_value() == rx;
        assert(long[i].data.root_value() == rx);
        assert forall|b: int| 0 <= b <= i implies (#[trigger] long[b]).data.root_value() != ry by {
            lemma_groups_cover(s, j, b);
            let z = choose|z: int|
                0 <= z < before.len() && (#[trigger] before[z]).data.root_value()
                    == s[b].data.root_value();
            assert(before[z].data.root_value() != a.data.root_value());
        }
    }
}

proof fn lemma_group_occurs(s: Seq<AttestationModel>, k: nat, x: int)
    requires
        k <= s.len(),
        0 <= x < node::grouped(s, k).len(),
    ensures
        exists|i: int|
            0 <= i < k && (#[trigger] s[i]).data.root_value() == node::grouped(
                s,
                k,
            )[x].data.root_value(),
    decreases k,
{
    let j = (k - 1) as nat;
    let before = node::grouped(s, j);
    let a = s[k - 1];
    node::lemma_place(before, a.data.root_value(), 0);
    if x < before.len() {
        lemma_group_occurs(s, j, x);
        let i = choose|i: int|
            0 <= i < j && (#[trigger] s[i]).data.root_value() == before[x].data.root_value();
        assert(s[i].data.root_value() == node::grouped(s, k)[x].data.root_value());
    } else {
        assert(s[k - 1] == a);
    }
}

proof fn lemma_ranks_are_stable(groups: Seq<AttestationModel>, k: nat, i: int, j: int)
    requires
        k <= groups.len(),
        0 <= i < j < node::ranked(groups, k).len(),
        node::participants(node::ranked(groups, k)[i]) == node::participants(
            node::ranked(groups, k)[j],
        ),
    ensures
        exists|x: int, y: int|
            0 <= x < y < k && #[trigger] groups[x] == node::ranked(groups, k)[i]
                && #[trigger] groups[y] == node::ranked(groups, k)[j],
    decreases k,
{
    if k > 0 {
        let h = (k - 1) as nat;
        let before = node::ranked(groups, h);
        let a = groups[k - 1];
        let now = node::ranked(groups, k);
        let c = node::participants(a);
        let p = node::rank_of(before, c, 0) as int;
        node::lemma_rank(before, c, 0);
        node::lemma_ranked_order(groups, h);
        node::lemma_ranked_elements(groups, h, a);
        if i == p {
            assert(now[j] == before[j - 1]);
            if j - 1 > p {
                assert(node::participants(before[p]) >= node::participants(before[j - 1]));
            }
            assert(node::participants(before[p]) < c);
        } else if j == p {
            assert(now[i] == before[i]);
            node::lemma_ranked_elements(groups, h, before[i]);
            assert(before.contains(before[i]));
            let short = groups.take(h as int);
            let x = choose|x: int| 0 <= x < short.len() && short[x] == before[i];
            assert(groups[x] == now[i] && groups[k - 1] == now[j]);
        } else {
            let bi = if i < p { i } else { i - 1 };
            let bj = if j < p { j } else { j - 1 };
            assert(now[i] == before[bi] && now[j] == before[bj]);
            lemma_ranks_are_stable(groups, h, bi, bj);
            let (x, y) = choose|x: int, y: int|
                0 <= x < y < h && #[trigger] groups[x] == before[bi] && #[trigger] groups[y]
                    == before[bj];
            assert(groups[x] == now[i] && groups[y] == now[j]);
        }
    } else {
        node::lemma_ranked_elements(groups, 0, groups[0]);
    }
}

/// Aggregates with more voters come first; of two with as many, the one whose datum occurred
/// first.
pub proof fn law_order_of_aggregates(s: Seq<AttestationModel>, i: int, j: int)
    requires
        0 <= i < j < node::aggregated(s).len(),
    ensures
        ({
            let x = node::aggregated(s)[i];
            let y = node::aggregated(s)[j];
            let cx = finality::voters(x.aggregation_bits).len();
            let cy = finality::voters(y.aggregation_bits).len();
            cx > cy || (cx == cy && occurs_before(s, x.data.root_value(), y.data.root_value()))
        }),
{
    let out = node::aggregated(s);
    let groups = node::grouped(s, s.len());
    node::law_aggregates_are_ordered(s);
    law_participants_are_voters(out[i]);
    law_participants_are_voters(out[j]);
    assert(node::participants(out[i]) >= node::participants(out[j]));
    if node::participants(out[i]) == node::participants(out[j]) {
        lemma_ranks_are_stable(groups, groups.len(), i, j);
        let (x, y) = choose|x: int, y: int|
            0 <= x < y < groups.len() && #[trigger] groups[x] == out[i] && #[trigger] groups[y]
                == out[j];
        lemma_groups_in_order(s, s.len(), x, y);
        assert(s.take(s.len() as int) =~= s);
    }
}

/// Of the attestations, number `i` is the last one for a known target that the validator takes
/// part in.
pub open spec fn asks_last(
    blocks: Map<Bytes32, SignedBlockModel>,
    list: Seq<AttestationModel>,
    k: int,
    v: usize,
    i: int,
) -> bool {
    &&& 0 <= i < k
    &&& takes_part(list[i], v)
    &&& blocks.contains_key(list[i].data.target.root)
    &&& forall|j: int|
        i < j < k && #[trigger] takes_part(list[j], v) ==> !blocks.contains_key(
            list[j].data.target.root,
        )
}

/// The validator takes part in none of the attestations for a known target.
pub open spec fn asks_nothing(
    blocks: Map<Bytes32, SignedBlockModel>,
    list: Seq<AttestationModel>,
    k: int,
    v: usize,
) -> bool {
    forall|j: int|
        0 <= j < k && #[trigger] takes_part(list[j], v) ==> !blocks.contains_key(
            list[j].data.target.root,
        )
}

proof fn lemma_waiting_votes(
    m: ForkChoiceModel,
    list: Seq<AttestationModel>,
    k: nat,
    v: usize,
)
    requires
        k <= list.len(),
    ensures
        ({
            let after = node::with_waiting(m, list, k).new_votes;
            &&& forall|i: int| #[trigger]
                asks_last(m.blocks, list, k as int, v, i) ==> after.contains_key(v) && after[v]
                    == list[i].data.target.root
            &&& asks_nothing(m.blocks, list, k as int, v) ==> same_vote(after, m.new_votes, v)
        }),
    decreases k,
{
    if k > 0 {
        let p = (k - 1) as nat;
        lemma_waiting_votes(m, list, p, v);
        node::lemma_waiting(m, list, p);
        let after = node::with_waiting(m, list, k).new_votes;
        let a = list[p as int];
        assert forall|i: int| #[trigger]
            asks_last(m.blocks, list, k as int, v, i) implies after.contains_key(v) && after[v]
            == list[i].data.target.root by {
            if i < p {
                assert(asks_last(m.blocks, list, p as int, v, i));
                if takes_part(a, v) {
                    assert(takes_part(list[p as int], v));
                }
            }
        }
        if asks_nothing(m.blocks, list, k as int, v) {
            assert(asks_nothing(m.blocks, list, p as int, v));
            if takes_part(a, v) {
                assert(takes_part(list[p as int], v));
            }
        }
    }
}

/// What an interval does with the votes that were pending. In every interval they wait for
/// their targets, the last one of each validator. In the third interval of the slot the safe
/// target is looked for; in the fourth the waiting votes are counted, each in place of the
/// validator's earlier one, and none is left waiting. In the other intervals nothing else
/// changes.
pub proof fn law_intervals(
    m: ForkChoiceModel,
    votes: Seq<AttestationModel>,
    interval: u64,
    after: ForkChoiceModel,
    v: usize,
)
    requires
        node::interval_passes(m, votes, interval, after),
        m.new_votes.dom().finite(),
    ensures
        ({
            let n = votes.len() as int;
            &&& interval != 3 ==> {
                &&& after.votes == m.votes
                &&& after.head == m.head
                &&& forall|i: int| #[trigger]
                    asks_last(m.blocks, votes, n, v, i) ==> after.new_votes.contains_key(v)
                        && after.new_votes[v] == votes[i].data.target.root
                &&& asks_nothing(m.blocks, votes, n, v) ==> same_vote(
                    after.new_votes,
                    m.new_votes,
                    v,
                )
            }
            &&& interval != 3 && interval != 2 ==> after.safe_target == m.safe_target
            &&& interval == 2 ==> fork_choice::is_safe_target(
                (ForkChoiceModel { safe_target: m.safe_target, ..after }),
                after.safe_target,
            )
            &&& interval == 3 ==> {
                &&& forall|i: int| #[trigger]
                    asks_last(m.blocks, votes, n, v, i) ==> after.votes.contains_key(v)
                        && after.votes[v] == votes[i].data.target.root
                &&& asks_nothing(m.blocks, votes, n, v) && m.new_votes.contains_key(v)
                    ==> after.votes.contains_key(v) && after.votes[v] == m.new_votes[v]
                &&& asks_nothing(m.blocks, votes, n, v) && !m.new_votes.contains_key(v)
                    ==> same_vote(after.votes, m.votes, v)
                &&& !after.new_votes.contains_key(v)
            }
            &&& after.blocks == m.blocks
            &&& after.latest_justified == m.latest_justified
            &&& after.latest_finalized == m.latest_finalized
        }),
{
    let waiting = node::with_waiting(m, votes, votes.len());
    node::lemma_waiting(m, votes, votes.len());
    lemma_waiting_votes(m, votes, votes.len(), v);
    lemma_waiting_finite(m, votes, votes.len());
    if interval == 3 {
        if waiting.new_votes.dom().len() == 0 {
            assert(waiting.new_votes.dom() =~= Set::empty());
            if m.new_votes.contains_key(v) && asks_nothing(
                m.blocks,
                votes,
                votes.len() as int,
                v,
            ) {
                assert(waiting.new_votes.dom().contains(v));
            }
            assert(!waiting.new_votes.dom().contains(v));
        }
        crate::laws::fork_choice::law_accepted_votes_replace(waiting, v);
    }
    if interval == 2 {
        assert((ForkChoiceModel { safe_target: m.safe_target, ..after }) =~= waiting);
    }
}

proof fn lemma_waiting_finite(m: ForkChoiceModel, votes: Seq<AttestationModel>, k: nat)
    requires
        m.new_votes.dom().finite(),
    ensures
        node::with_waiting(m, votes, k).new_votes.dom().finite(),
    decreases k,
{
    if k > 0 {
        lemma_waiting_finite(m, votes, (k - 1) as nat);
        let before = node::with_waiting(m, votes, (k - 1) as nat);
        let bits = votes[k - 1].aggregation_bits;
        lemma_vote_finite(before.blocks, before.new_votes, bits, votes[k - 1].data.target.root);
    }
}

proof fn lemma_vote_finite(
    blocks: Map<Bytes32, SignedBlockModel>,
    votes: Map<usize, Bytes32>,
    bits: Seq<bool>,
    root: Bytes32,
)
    requires
        votes.dom().finite(),
    ensures
        fork_choice::vote_for(blocks, votes, bits, root).dom().finite(),
    decreases bits.len(),
{
    let after = fork_choice::vote_for(blocks, votes, bits, root);
    if !blocks.contains_key(root) {
    } else if bits.len() == 0 {
        assert(after.dom() =~= votes.dom());
    } else {
        let short = bits.drop_last();
        lemma_vote_finite(blocks, votes, short, root);
        let rest = fork_choice::vote_for(blocks, votes, short, root);
        let last = bits.len() - 1;
        if last <= usize::MAX {
            let id = last as usize;
            assert(after.dom().subset_of(rest.dom().insert(id)));
            vstd::set_lib::lemma_set_subset_finite(rest.dom().insert(id), after.dom());
        } else {
            assert(after.dom() =~= rest.dom());
        }
    }
}

/// A proposal counts the pending votes for their heads, the last one of each validator; where
/// there is none the waiting vote, and where that is missing too the earlier one stays. Where
/// the justified block is known, the head from which the block is built follows these votes.
pub proof fn law_proposal_counts_pending_votes(
    m: ForkChoiceModel,
    votes: Seq<AttestationModel>,
    after: ForkChoiceModel,
    v: usize,
)
    requires
        node::proposes_with(m, votes, after),
        m.new_votes.dom().finite(),
        fork_choice::tree_wf(m),
    ensures
        forall|i: int| #[trigger]
            speaks_last(m.blocks, votes, votes.len() as int, v, i) ==> after.votes.contains_key(v)
                && after.votes[v] == votes[i].data.head.root,
        is_silent(m.blocks, votes, votes.len() as int, v) && m.new_votes.contains_key(v)
            ==> after.votes.contains_key(v) && after.votes[v] == m.new_votes[v],
        is_silent(m.blocks, votes, votes.len() as int, v) && !m.new_votes.contains_key(v)
            ==> same_vote(after.votes, m.votes, v),
        m.blocks.contains_key(m.latest_justified.root) ==> head_follows_votes(after),
{
    let waiting = fork_choice::with_pending(m, votes, votes.len());
    let (mid, next) = choose|mid: ForkChoiceModel, next: ForkChoiceModel| #[trigger]
        fork_choice::accepts_votes(waiting, mid) && #[trigger] fork_choice::accepts_votes(mid, next)
            && after == fork_choice::proposed(next);
    crate::laws::fork_choice::law_pending_votes_wait(m, votes, v);
    lemma_pending_finite(m.blocks, m.new_votes, votes, votes.len());
    assert(waiting.new_votes.dom().finite());
    lemma_accepting(waiting, mid, v);
    assert(mid.new_votes.dom() =~= Set::empty()) by {
        assert forall|u: usize| !mid.new_votes.dom().contains(u) by {
            lemma_accepting(waiting, mid, u);
        }
    }
    assert(next == mid);
    if m.blocks.contains_key(m.latest_justified.root) {
        assert(fork_choice::tree_wf(next));
        crate::laws::fork_choice::law_head_of_proposals(next);
    }
}

proof fn lemma_accepting(m: ForkChoiceModel, next: ForkChoiceModel, v: usize)
    requires
        fork_choice::accepts_votes(m, next),
        m.new_votes.dom().finite(),
    ensures
        m.new_votes.contains_key(v) ==> next.votes.contains_key(v) && next.votes[v]
            == m.new_votes[v],
        !m.new_votes.contains_key(v) ==> same_vote(next.votes, m.votes, v),
        !next.new_votes.contains_key(v),
        next.blocks == m.blocks,
        next.states == m.states,
        next.parents == m.parents,
        next.children == m.children,
        next.latest_justified == m.latest_justified,
{
    if m.new_votes.dom().len() == 0 {
        assert(m.new_votes.dom() =~= Set::empty());
        assert(!m.new_votes.dom().contains(v));
    }
    crate::laws::fork_choice::law_accepted_votes_replace(m, v);
}

proof fn lemma_pending_finite(
    blocks: Map<Bytes32, SignedBlockModel>,
    votes: Map<usize, Bytes32>,
    list: Seq<AttestationModel>,
    k: nat,
)
    requires
        votes.dom().finite(),
    ensures
        fork_choice::votes_of_block(blocks, votes, list, k).dom().finite(),
    decreases k,
{
    if k > 0 {
        lemma_pending_finite(blocks, votes, list, (k - 1) as nat);
        lemma_vote_finite(
            blocks,
            fork_choice::votes_of_block(blocks, votes, list, (k - 1) as nat),
            list[k - 1].aggregation_bits,
            list[k - 1].data.head.root,
        );
    }
}

/// The first block whose state fits begins the tree: it is the head, the safe target and the
/// root of every checkpoint, whose slots are those of the state. A block whose state does not
/// fit changes nothing; a state fits when its own root or the one in its latest header is the
/// root that the block claims.
pub proof fn law_first_block(
    signed: SignedBlockModel,
    post: StateModel,
    before: Option<ForkChoiceModel>,
    after: Option<ForkChoiceModel>,
)
    requires
        node::takes_block(before, signed, post, after),
    ensures
        ({
            let b = signed.message.block;
            let root = b.root_value();
            let fits = post.root_value() == b.state_root || post.latest_block_header.state_root
                == b.state_root;
            &&& !fits ==> after == before
            &&& fits && before is None ==> {
                &&& after matches Some(m)
                &&& m.head == root && m.safe_target == root
                &&& m.head_slot == b.slot.num()
                &&& m.latest_justified.root == root && m.latest_justified.slot
                    == post.latest_justified.slot
                &&& m.latest_finalized.root == root && m.latest_finalized.slot
                    == post.latest_finalized.slot
                &&& m.previous_justified == m.latest_justified
                &&& forall|r: Bytes32| #[trigger] m.blocks.contains_key(r) <==> r == root
                &&& m.blocks[root] == signed && m.states[root] == post
                &&& m.parents[root] == b.parent_root
                &&& m.reorgs_total == 0
                &&& forall|v: usize| !#[trigger] m.votes.contains_key(v)
                &&& forall|v: usize| !#[trigger] m.new_votes.contains_key(v)
            }
            &&& fits && before is Some ==> {
                &&& after matches Some(m)
                &&& m.blocks.contains_key(root) && m.blocks[root] == signed
                &&& m.states.contains_key(root) && m.states[root] == post
            }
        }),
{
    if let Some(m) = before {
        crate::laws::fork_choice::law_import_records_the_block(
            m,
            signed,
            post,
            signed.message.block.root_value(),
        );
    }
}

/// What the node does with a gossip message. A vote of a validator is kept as an attestation
/// with that validator as its only voter, behind those that were pending; nothing else changes.
/// An aggregate, and bytes that are no message, change nothing. A block that can be imported
/// becomes the head of the table; the state behind it becomes the state, and the root that it
/// finalizes becomes the finalized root. A block that cannot changes nothing.
pub proof fn law_gossip_is_handled(
    before: NodeModel,
    topic: Seq<char>,
    payload: Seq<u8>,
    verifier: PqSignatureVerifier,
    after: NodeModel,
)
    requires
        node::gossip_handled(before, topic, payload, verifier, after),
    ensures
        MessageModel::decoded(topic, payload) is Err ==> after == before,
        MessageModel::decoded(topic, payload) matches Ok(MessageModel::AggregatedAttestation(_))
            ==> after == before,
        MessageModel::decoded(topic, payload) matches Ok(MessageModel::Attestation(a)) ==> {
            &&& after.state == before.state && after.table == before.table && after.fork_choice
                == before.fork_choice
            &&& a.validator_id.0 >= 4_096 ==> after.pending == before.pending
            &&& a.validator_id.0 < 4_096 ==> {
                &&& after.pending.len() == before.pending.len() + 1
                &&& after.pending.drop_last() == before.pending
                &&& after.pending.last().data == a.message
                &&& crate::laws::transition::alone(
                    after.pending.last().aggregation_bits,
                    a.validator_id.0 as int,
                )
            }
        },
        MessageModel::decoded(topic, payload) matches Ok(
            MessageModel::AttestationSubnet { attestation: a, .. },
        ) ==> {
            &&& after.state == before.state && after.table == before.table && after.fork_choice
                == before.fork_choice
            &&& a.validator_id.0 >= 4_096 ==> after.pending == before.pending
            &&& a.validator_id.0 < 4_096 ==> {
                &&& after.pending.len() == before.pending.len() + 1
                &&& after.pending.drop_last() == before.pending
                &&& after.pending.last().data == a.message
                &&& crate::laws::transition::alone(
                    after.pending.last().aggregation_bits,
                    a.validator_id.0 as int,
                )
            }
        },
        MessageModel::decoded(topic, payload) matches Ok(MessageModel::Block(signed)) ==> {
            let root = signed.message.block.root_value();
            &&& state::import_verdict(verifier, before.state, signed) is Err ==> after == before
            &&& state::import_verdict(verifier, before.state, signed) matches Ok(next) ==> {
                &&& after.state == next
                &&& after.table.blocks.contains_key(root) && after.table.blocks[root] == signed
                &&& forall|r: Bytes32|
                    r != root && #[trigger] before.table.blocks.contains_key(r)
                        ==> after.table.blocks.contains_key(r) && after.table.blocks[r]
                        == before.table.blocks[r]
                &&& after.table.head == Some(root)
                &&& after.table.finalized == Some(next.latest_finalized.root)
                &&& after.pending == before.pending
                &&& node::takes_block(before.fork_choice, signed, next, after.fork_choice)
            }
        },
{
    match MessageModel::decoded(topic, payload) {
        Ok(MessageModel::Attestation(a)) => {
            crate::laws::transition::law_lone_votes(a.validator_id.0, a.message);
            assert(after.pending.drop_last() =~= before.pending || a.validator_id.0 >= 4_096);
        },
        Ok(MessageModel::AttestationSubnet { attestation: a, .. }) => {
            crate::laws::transition::law_lone_votes(a.validator_id.0, a.message);
            assert(after.pending.drop_last() =~= before.pending || a.validator_id.0 >= 4_096);
        },
        _ => {},
    }
}

/// The command line goes before the file. What it gives replaces the setting; bootnodes are
/// added behind those of the file. What it does not give, and every setting that it cannot
/// give, stays.
pub proof fn law_command_line_goes_first(
    s: SettingsModel,
    c: NodeConfigModel,
    index: Option<u64>,
)
    ensures
        ({
            let o = node::overridden(s, c, index);
            &&& c.checkpoint_sync_url is Some ==> o.checkpoint_sync_url == c.checkpoint_sync_url
            &&& c.checkpoint_sync_url is None ==> o.checkpoint_sync_url == s.checkpoint_sync_url
            &&& c.listen_addr matches Some(x) ==> o.listen_addr == x
            &&& c.listen_addr is None ==> o.listen_addr == s.listen_addr
            &&& c.bootnodes matches Some(x) ==> o.bootnodes == s.bootnodes + x
            &&& c.bootnodes is None ==> o.bootnodes == s.bootnodes
            &&& c.metrics_port matches Some(x) ==> o.metrics_port == x
            &&& c.metrics_port is None ==> o.metrics_port == s.metrics_port
            &&& c.api_port matches Some(x) ==> o.http_port == x
            &&& c.api_port is None ==> o.http_port == s.http_port
            &&& c.node_key_path is Some ==> o.node_key_path == c.node_key_path
            &&& c.node_key_path is None ==> o.node_key_path == s.node_key_path
            &&& c.is_aggregator matches Some(x) ==> o.is_aggregator == x
            &&& c.is_aggregator is None ==> o.is_aggregator == s.is_aggregator
            &&& c.attestation_committee_count matches Some(x) ==> o.attestation_committee_count == x
            &&& c.attestation_committee_count is None ==> o.attestation_committee_count
                == s.attestation_committee_count
            &&& c.node_id is Some ==> o.metrics_node_name == c.node_id
            &&& c.node_id is None ==> o.metrics_node_name == s.metrics_node_name
            &&& index matches Some(x) ==> o.local_validator_index == x
            &&& index is None ==> o.local_validator_index == s.local_validator_index
            &&& o.metrics == s.metrics
            &&& o.metrics_address == s.metrics_address
            &&& o.http_api == s.http_api
            &&& o.http_address == s.http_address
            &&& o.discovery_interval_secs == s.discovery_interval_secs
            &&& o.score_decay_interval_secs == s.score_decay_interval_secs
            &&& o.score_decay_amount == s.score_decay_amount
            &&& o.ban_threshold == s.ban_threshold
            &&& o.trusted_peers == s.trusted_peers
            &&& o.allowed_topics == s.allowed_topics
            &&& o.topic_scores == s.topic_scores
            &&& o.topic_validators == s.topic_validators
            &&& o.max_gossip_bytes == s.max_gossip_bytes
            &&& o.max_reqresp_bytes == s.max_reqresp_bytes
            &&& o.validator_count == s.validator_count
            &&& o.storage_dir == s.storage_dir
            &&& o.validator_config_path == s.validator_config_path
            &&& o.metrics_client_name == s.metrics_client_name
        }),
{
}

} // verus!
