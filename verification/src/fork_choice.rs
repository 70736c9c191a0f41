//! Fork choice: which of the known blocks is the head of the chain.
//!
//! The store holds a tree of blocks and the latest vote of each validator. The head is found
//! by walking from the justified block to a leaf, always to the child with the most votes in
//! its subtree.

use crate::containers::attestation::{
    Attestation, AttestationModel, VALIDATOR_REGISTRY_LIMIT,
};
use crate::containers::block::{SignedBlockModel, SignedBlockWithAttestation};
use crate::containers::checkpoint::Checkpoint;
use crate::containers::state::{State, StateModel};
use crate::keyed_map;
use crate::keyed_map::{NumberMap, RootMap};
use crate::slot;
use crate::slot::Slot;
use crate::types::bitlist::BitList;
use crate::types::bytes;
use crate::types::bytes::Bytes32;
use crate::types::uint::Uint64;
use vstd::prelude::*;

verus! {

/// How far the vote target may lie behind the head, in blocks.
pub const JUSTIFICATION_LOOKBACK_SLOTS: u64 = 3;

/// The block `n` steps up from `node`. The walk ends at a block without a known parent and
/// before a zero parent.
pub open spec fn branch(parents: Map<Bytes32, Bytes32>, node: Bytes32, n: nat) -> Option<Bytes32>
    decreases n,
{
    if n == 0 {
        Some(node)
    } else {
        match branch(parents, node, (n - 1) as nat) {
            Some(m) => if parents.contains_key(m) && parents[m] != Bytes32::zero_value() {
                Some(parents[m])
            } else {
                None
            },
            None => None,
        }
    }
}

/// `ancestor` is met `n` steps up from `node`; the zero root is met above a block that names
/// it as its parent.
pub open spec fn met_at(
    parents: Map<Bytes32, Bytes32>,
    node: Bytes32,
    ancestor: Bytes32,
    n: nat,
) -> bool {
    match branch(parents, node, n) {
        Some(m) => m == ancestor || (ancestor == Bytes32::zero_value() && parents.contains_key(m)
            && parents[m] == Bytes32::zero_value()),
        None => false,
    }
}

/// `node` is `ancestor` or lies below it.
pub open spec fn descends(
    parents: Map<Bytes32, Bytes32>,
    node: Bytes32,
    ancestor: Bytes32,
) -> bool {
    exists|n: nat| #[trigger] met_at(parents, node, ancestor, n)
}

/// `ancestor` is on the branch that ends in `node`.
pub open spec fn on_branch(
    parents: Map<Bytes32, Bytes32>,
    node: Bytes32,
    ancestor: Bytes32,
) -> bool {
    exists|n: nat| #[trigger] branch(parents, node, n) == Some(ancestor)
}

proof fn lemma_branch_shift(parents: Map<Bytes32, Bytes32>, node: Bytes32, a: nat, k: nat)
    ensures
        branch(parents, node, a + k) == (match branch(parents, node, a) {
            Some(m) => branch(parents, m, k),
            None => None,
        }),
    decreases k,
{
    if k > 0 {
        lemma_branch_shift(parents, node, a, (k - 1) as nat);
        assert(a + k - 1 == a + (k - 1) as nat);
    }
}

proof fn lemma_branch_prefix(parents: Map<Bytes32, Bytes32>, node: Bytes32, i: nat, n: nat)
    requires
        i <= n,
        branch(parents, node, n) is Some,
    ensures
        branch(parents, node, i) is Some,
        i < n ==> parents.contains_key(branch(parents, node, i).unwrap()),
    decreases n - i,
{
    if i < n {
        lemma_branch_prefix(parents, node, i + 1, n);
    }
}

/// What is on a branch is found within as many steps as there are blocks.
proof fn lemma_branch_short(parents: Map<Bytes32, Bytes32>, node: Bytes32, n: nat) -> (m: nat)
    requires
        parents.dom().finite(),
        branch(parents, node, n) is Some,
    ensures
        m <= parents.dom().len(),
        branch(parents, node, m) == branch(parents, node, n),
    decreases n,
{
    if n <= parents.dom().len() {
        n
    } else {
        let nodes = Seq::new(n, |i: int| branch(parents, node, i as nat).unwrap());
        assert forall|i: int| 0 <= i < n implies parents.dom().contains(#[trigger] nodes[i]) by {
            lemma_branch_prefix(parents, node, i as nat, n);
        }
        if nodes.no_duplicates() {
            nodes.unique_seq_to_set();
            assert(nodes.to_set().subset_of(parents.dom()));
            vstd::set_lib::lemma_len_subset(nodes.to_set(), parents.dom());
            assert(false);
        }
        let (i, j) = choose|i: int, j: int|
            0 <= i < nodes.len() && 0 <= j < nodes.len() && i != j && nodes[i] == nodes[j];
        let (a, b) = if i < j {
            (i as nat, j as nat)
        } else {
            (j as nat, i as nat)
        };
        lemma_branch_prefix(parents, node, a, n);
        lemma_branch_prefix(parents, node, b, n);
        assert(branch(parents, node, a) == Some(nodes[a as int]));
        assert(branch(parents, node, b) == Some(nodes[b as int]));
        let k = (n - b) as nat;
        lemma_branch_shift(parents, node, a, k);
        lemma_branch_shift(parents, node, b, k);
        assert(branch(parents, node, a + k) == branch(parents, node, n));
        lemma_branch_short(parents, node, a + k)
    }
}

proof fn lemma_met_short(
    parents: Map<Bytes32, Bytes32>,
    node: Bytes32,
    ancestor: Bytes32,
    n: nat,
) -> (m: nat)
    requires
        parents.dom().finite(),
        met_at(parents, node, ancestor, n),
    ensures
        m <= parents.dom().len(),
        met_at(parents, node, ancestor, m),
{
    lemma_branch_short(parents, node, n)
}

/// Every block descends from itself.
pub proof fn law_descends_from_itself(parents: Map<Bytes32, Bytes32>, node: Bytes32)
    ensures
        descends(parents, node, node),
{
    assert(met_at(parents, node, node, 0));
}

/// Descent is transitive.
pub proof fn law_descent_is_transitive(
    parents: Map<Bytes32, Bytes32>,
    low: Bytes32,
    mid: Bytes32,
    high: Bytes32,
)
    requires
        mid != Bytes32::zero_value(),
        descends(parents, low, mid),
        descends(parents, mid, high),
    ensures
        descends(parents, low, high),
{
    let a = choose|a: nat| met_at(parents, low, mid, a);
    let b = choose|b: nat| met_at(parents, mid, high, b);
    assert(branch(parents, low, a) == Some(mid));
    lemma_branch_shift(parents, low, a, b);
    assert(met_at(parents, low, high, a + b));
}

/// The validators whose latest vote lies in the subtree of `root`.
pub open spec fn supporters(
    parents: Map<Bytes32, Bytes32>,
    votes: Map<usize, Bytes32>,
    root: Bytes32,
) -> Set<usize> {
    votes.dom().filter(|v: usize| descends(parents, votes[v], root))
}

/// The number of validators whose latest vote lies in the subtree of `root`.
pub open spec fn weight(
    parents: Map<Bytes32, Bytes32>,
    votes: Map<usize, Bytes32>,
    root: Bytes32,
) -> nat {
    supporters(parents, votes, root).len()
}

/// The value of a [`ForkChoiceStore`].
#[verifier::ext_equal]
pub struct ForkChoiceModel {
    pub head: Bytes32,
    pub safe_target: Bytes32,
    pub head_slot: u64,
    pub latest_justified: Checkpoint,
    pub previous_justified: Checkpoint,
    pub latest_finalized: Checkpoint,
    pub reorgs_total: u64,
    pub validator_count: usize,
    pub blocks: Map<Bytes32, SignedBlockModel>,
    pub states: Map<Bytes32, StateModel>,
    pub parents: Map<Bytes32, Bytes32>,
    pub children: Map<Bytes32, Seq<Bytes32>>,
    pub votes: Map<usize, Bytes32>,
    pub new_votes: Map<usize, Bytes32>,
}

/// The votes of the participants go to `root`; other votes stay.
pub open spec fn with_votes(
    votes: Map<usize, Bytes32>,
    participants: Seq<bool>,
    root: Bytes32,
) -> Map<usize, Bytes32> {
    Map::new(
        |v: usize| votes.contains_key(v) || (v < participants.len() && participants[v as int]),
        |v: usize|
            if v < participants.len() && participants[v as int] {
                root
            } else {
                votes[v]
            },
    )
}

/// The votes with one attestation counted for `root`, if the store knows that block.
pub open spec fn vote_for(
    blocks: Map<Bytes32, SignedBlockModel>,
    votes: Map<usize, Bytes32>,
    participants: Seq<bool>,
    root: Bytes32,
) -> Map<usize, Bytes32> {
    if blocks.contains_key(root) {
        with_votes(votes, participants, root)
    } else {
        votes
    }
}

/// The votes with the first `k` attestations of a block counted for their heads.
pub open spec fn votes_of_block(
    blocks: Map<Bytes32, SignedBlockModel>,
    votes: Map<usize, Bytes32>,
    attestations: Seq<AttestationModel>,
    k: nat,
) -> Map<usize, Bytes32>
    decreases k,
{
    if k == 0 {
        votes
    } else {
        let a = attestations[k - 1];
        vote_for(
            blocks,
            votes_of_block(blocks, votes, attestations, (k - 1) as nat),
            a.aggregation_bits,
            a.data.head.root,
        )
    }
}

/// `a` is preferred to `b`: more votes in its subtree, or as many and the smaller root.
pub open spec fn preferred(m: ForkChoiceModel, a: Bytes32, b: Bytes32) -> bool {
    let wa = weight(m.parents, m.votes, a);
    let wb = weight(m.parents, m.votes, b);
    wa > wb || (wa == wb && bytes::bytes_less(a@, b@))
}

/// The preferred block of a nonempty list.
pub open spec fn best_of(m: ForkChoiceModel, list: Seq<Bytes32>) -> Bytes32
    decreases list.len(),
{
    if list.len() <= 1 {
        list[0]
    } else {
        let best = best_of(m, list.drop_last());
        if preferred(m, list.last(), best) {
            list.last()
        } else {
            best
        }
    }
}

/// The block reached from `current` by going to the preferred child, at most `steps` times.
pub open spec fn descend(m: ForkChoiceModel, current: Bytes32, steps: nat) -> Bytes32
    decreases steps,
{
    if steps == 0 || !m.children.contains_key(current) || m.children[current].len() == 0 {
        current
    } else {
        descend(m, best_of(m, m.children[current]), (steps - 1) as nat)
    }
}

/// Where the walk from the justified block ends; the current head when that block is unknown.
pub open spec fn found_head(m: ForkChoiceModel) -> Bytes32 {
    if m.blocks.contains_key(m.latest_justified.root) {
        descend(m, m.latest_justified.root, m.children.dom().len())
    } else {
        m.head
    }
}

/// The slot of a known block.
pub open spec fn slot_of(m: ForkChoiceModel, root: Bytes32) -> u64 {
    m.blocks[root].message.block.slot.0.0
}

/// The block under which the safe target is looked for.
pub open spec fn safe_anchor(m: ForkChoiceModel) -> Bytes32 {
    if m.blocks.contains_key(m.latest_finalized.root) {
        m.latest_finalized.root
    } else if m.blocks.contains_key(m.latest_justified.root) {
        m.latest_justified.root
    } else {
        m.head
    }
}

/// The slot of the anchor, or of the head when the anchor is unknown.
pub open spec fn slot_or_head(m: ForkChoiceModel, root: Bytes32) -> u64 {
    if m.blocks.contains_key(root) {
        slot_of(m, root)
    } else {
        m.head_slot
    }
}

/// Two thirds of the validators support a block under the anchor.
pub open spec fn is_supported(m: ForkChoiceModel, root: Bytes32) -> bool {
    &&& m.blocks.contains_key(root)
    &&& descends(m.parents, root, safe_anchor(m))
    &&& 3 * weight(m.parents, m.votes, root) >= 2 * m.validator_count
}

/// `a` lies ahead of `b`: a later slot, or the same slot and the smaller root.
pub open spec fn ahead(m: ForkChoiceModel, a: Bytes32, b: Bytes32) -> bool {
    let sa = slot_or_head(m, a);
    let sb = slot_or_head(m, b);
    sa > sb || (sa == sb && bytes::bytes_less(a@, b@))
}

/// `root` is the safe target: of the anchor and the supported blocks, the one ahead of all.
/// Without validators it is the head.
pub open spec fn is_safe_target(m: ForkChoiceModel, root: Bytes32) -> bool {
    if m.validator_count == 0 {
        root == m.head
    } else {
        let anchor = safe_anchor(m);
        &&& root == anchor || (is_supported(m, root) && ahead(m, root, anchor))
        &&& forall|r: Bytes32| #[trigger] is_supported(m, r) ==> !ahead(m, r, root)
    }
}

/// The old head is not on the branch of the new one.
pub open spec fn is_reorg(parents: Map<Bytes32, Bytes32>, old_head: Bytes32, new_head: Bytes32) -> bool {
    !on_branch(parents, new_head, old_head)
}

/// The store with its head moved to `root`.
pub open spec fn with_head(m: ForkChoiceModel, root: Bytes32, at: u64) -> ForkChoiceModel {
    ForkChoiceModel {
        head: root,
        head_slot: at,
        reorgs_total: if is_reorg(m.parents, m.head, root) {
            m.reorgs_total.wrapping_add(1)
        } else {
            m.reorgs_total
        },
        ..m
    }
}

/// The state of a block's header or the state itself carries the expected root.
pub open spec fn state_matches(s: StateModel, expected: Bytes32) -> bool {
    s.latest_block_header.state_root == expected || s.root_value() == expected
}

/// The store that a new block and its state are in, before the head is looked for.
pub open spec fn with_block(m: ForkChoiceModel, signed: SignedBlockModel, post: StateModel) -> ForkChoiceModel {
    let b = signed.message.block;
    let root = b.root_value();
    let blocks = m.blocks.insert(root, signed);
    let siblings = if m.children.contains_key(b.parent_root) {
        m.children[b.parent_root]
    } else {
        Seq::empty()
    };
    let vote = signed.message.proposer_attestation;
    let newer = post.latest_justified.slot.num() > m.latest_justified.slot.num();
    ForkChoiceModel {
        blocks,
        states: m.states.insert(root, post),
        parents: m.parents.insert(root, b.parent_root),
        children: m.children.insert(b.parent_root, siblings.push(root)),
        votes: vote_for(
            blocks,
            votes_of_block(blocks, m.votes, b.attestations, b.attestations.len()),
            vote.aggregation_bits,
            vote.data.head.root,
        ),
        previous_justified: if newer {
            m.latest_justified
        } else {
            m.previous_justified
        },
        latest_justified: if newer {
            post.latest_justified
        } else {
            m.latest_justified
        },
        latest_finalized: if post.latest_finalized.slot.num() > m.latest_finalized.slot.num() {
            post.latest_finalized
        } else {
            m.latest_finalized
        },
        ..m
    }
}

/// The store behind an imported block, before the safe target is looked for.
pub open spec fn imported(m: ForkChoiceModel, signed: SignedBlockModel, post: StateModel) -> ForkChoiceModel {
    let next = with_block(m, signed, post);
    let b = signed.message.block;
    let head = found_head(next);
    if next.blocks.contains_key(head) {
        with_head(next, head, slot_of(next, head))
    } else if b.slot.0.0 > next.head_slot {
        with_head(next, b.root_value(), b.slot.0.0)
    } else {
        with_head(next, next.head, next.head_slot)
    }
}

/// The store with the waiting votes counted, before the safe target is looked for.
pub open spec fn accepted(m: ForkChoiceModel) -> ForkChoiceModel {
    let next = ForkChoiceModel {
        votes: m.votes.union_prefer_right(m.new_votes),
        new_votes: Map::empty(),
        ..m
    };
    let head = found_head(next);
    if next.blocks.contains_key(head) {
        with_head(next, head, slot_of(next, head))
    } else {
        with_head(next, next.head, next.head_slot)
    }
}

/// The tree is consistent: every block has a state and a parent entry and is listed under its
/// parent, and only known blocks are listed.
pub open spec fn tree_wf(m: ForkChoiceModel) -> bool {
    &&& m.blocks.dom() == m.states.dom()
    &&& m.blocks.dom() == m.parents.dom()
    &&& forall|r: Bytes32| #[trigger]
        m.blocks.contains_key(r) ==> m.parents[r] == m.blocks[r].message.block.parent_root
            && m.blocks[r].message.block.root_value() == r
    &&& forall|r: Bytes32| #[trigger]
        m.parents.contains_key(r) ==> m.children.contains_key(m.parents[r])
            && m.children[m.parents[r]].contains(r)
    &&& forall|p: Bytes32, r: Bytes32|
        #![trigger m.children[p].contains(r)]
        m.children.contains_key(p) && m.children[p].contains(r) ==> m.parents.contains_key(r)
    &&& forall|p: Bytes32| #[trigger] m.children.contains_key(p) ==> m.children[p].len() > 0
}

/// A block is listed under a parent exactly when that is its parent.
pub open spec fn children_match_parents(m: ForkChoiceModel) -> bool {
    forall|p: Bytes32, r: Bytes32|
        #![trigger m.children[p].contains(r)]
        (m.children.contains_key(p) && m.children[p].contains(r)) <==> (m.parents.contains_key(r)
            && m.parents[r] == p)
}

/// A store over one block tree.
pub struct ForkChoiceStore {
    head: Bytes32,
    safe_target: Bytes32,
    head_slot: u64,
    latest_justified: Checkpoint,
    previous_justified: Checkpoint,
    latest_finalized: Checkpoint,
    reorgs_total: u64,
    validator_count: usize,
    blocks: RootMap<SignedBlockWithAttestation>,
    states: RootMap<State>,
    parents: RootMap<Bytes32>,
    children: RootMap<Vec<Bytes32>>,
    latest_votes: NumberMap<Bytes32>,
    latest_new_votes: NumberMap<Bytes32>,
}

/// What the store says of one block.
#[derive(Clone, Copy, Debug)]
pub struct ForkChoiceNodeSnapshot {
    /// Root of the block.
    pub root: Bytes32,
    /// Slot of the block.
    pub slot: u64,
    /// Root of the parent.
    pub parent_root: Bytes32,
    /// Proposer of the block.
    pub proposer_index: u64,
    /// Votes in the subtree of the block.
    pub weight: usize,
}

impl View for ForkChoiceStore {
    type V = ForkChoiceModel;

    closed spec fn view(&self) -> ForkChoiceModel {
        ForkChoiceModel {
            head: self.head,
            safe_target: self.safe_target,
            head_slot: self.head_slot,
            latest_justified: self.latest_justified,
            previous_justified: self.previous_justified,
            latest_finalized: self.latest_finalized,
            reorgs_total: self.reorgs_total,
            validator_count: self.validator_count,
            blocks: keyed_map::view_map(self.blocks@),
            states: keyed_map::view_map(self.states@),
            parents: self.parents@,
            children: keyed_map::view_map(self.children@),
            votes: self.latest_votes@,
            new_votes: self.latest_new_votes@,
        }
    }
}

/// Tells whether a state carries the expected root.
fn state_matches_block_root(state: &State, expected: Bytes32) -> (r: bool)
    ensures
        r == state_matches(state@, expected),
{
    state.latest_block_header.state_root == expected || Bytes32(state.hash_tree_root()) == expected
}

/// Counts an attestation for `root` when the store knows that block.
fn apply_vote_to(
    blocks: &RootMap<SignedBlockWithAttestation>,
    votes: &mut NumberMap<Bytes32>,
    participants: &BitList<VALIDATOR_REGISTRY_LIMIT>,
    root: Bytes32,
) -> (r: bool)
    requires
        blocks.wf(),
        old(votes).wf(),
    ensures
        final(votes).wf(),
        r == blocks@.contains_key(root),
        final(votes)@ == vote_for(
            keyed_map::view_map(blocks@),
            old(votes)@,
            participants@,
            root,
        ),
{
    if !blocks.contains(&root) {
        return false;
    }
    let ghost before = votes@;
    let n: usize = participants.len();
    let mut i: usize = 0;
    assert(before =~= with_votes(before, participants@.take(0), root));
    while i < n
        invariant
            i <= n,
            n == participants@.len(),
            votes.wf(),
            votes@ == with_votes(before, participants@.take(i as int), root),
        decreases n - i,
    {
        if participants.is_set(i) {
            votes.insert(i, root);
        }
        assert(votes@ =~= with_votes(before, participants@.take(i + 1), root));
        i = i + 1;
    }
    assert(participants@.take(n as int) =~= participants@);
    true
}

/// A copy of a list of roots.
fn copy_roots(v: &Vec<Bytes32>) -> (r: Vec<Bytes32>)
    ensures
        r@ == v@,
{
    vstd::slice::slice_to_vec(v.as_slice())
}

impl ForkChoiceStore {
    /// The maps are well formed and the tree is consistent.
    pub closed spec fn wf(&self) -> bool {
        &&& self.blocks.wf()
        &&& self.states.wf()
        &&& self.parents.wf()
        &&& self.children.wf()
        &&& self.latest_votes.wf()
        &&& self.latest_new_votes.wf()
        &&& tree_wf(self@)
    }

    /// The tree of a well-formed store is consistent.
    pub proof fn law_tree_is_consistent(&self)
        requires
            self.wf(),
        ensures
            tree_wf(self@),
            self@.blocks.dom().finite(),
            self@.children.dom().finite(),
            self@.votes.dom().finite(),
    {
        self.blocks.lemma_len();
        self.children.lemma_len();
        self.latest_votes.lemma_len();
        assert(self@.blocks.dom() =~= self.blocks@.dom());
        assert(self@.children.dom() =~= self.children@.dom());
    }

    /// A store with one block: the anchor.
    pub fn new(anchor_block: SignedBlockWithAttestation, anchor_state: State) -> (r: Result<
        Self,
        String,
    >)
        ensures
            match r {
                Ok(store) => {
                    let b = anchor_block@.message.block;
                    let root = b.root_value();
                    let at = Checkpoint { root, slot: anchor_state.latest_justified.slot };
                    &&& state_matches(anchor_state@, b.state_root)
                    &&& store.wf()
                    &&& store@.head == root
                    &&& store@.safe_target == root
                    &&& store@.head_slot == b.slot.0.0
                    &&& store@.latest_justified == at
                    &&& store@.previous_justified == at
                    &&& store@.latest_finalized == (Checkpoint {
                        root,
                        slot: anchor_state.latest_finalized.slot,
                    })
                    &&& store@.reorgs_total == 0
                    &&& store@.validator_count == anchor_state@.validators.len()
                    &&& store@.blocks == Map::<Bytes32, SignedBlockModel>::empty().insert(
                        root,
                        anchor_block@,
                    )
                    &&& store@.states == Map::<Bytes32, StateModel>::empty().insert(
                        root,
                        anchor_state@,
                    )
                    &&& store@.parents == Map::<Bytes32, Bytes32>::empty().insert(
                        root,
                        b.parent_root,
                    )
                    &&& store@.children == Map::<Bytes32, Seq<Bytes32>>::empty().insert(
                        b.parent_root,
                        seq![root],
                    )
                    &&& store@.votes == Map::<usize, Bytes32>::empty()
                    &&& store@.new_votes == Map::<usize, Bytes32>::empty()
                },
                Err(e) => !state_matches(anchor_state@, anchor_block@.message.block.state_root)
                    && e@ == "anchor block state root does not match post-state invariants"@,
            },
    {
        if !state_matches_block_root(&anchor_state, anchor_block.message.block.state_root) {
            return Err("anchor block state root does not match post-state invariants".to_string());
        }
        let root = Bytes32(anchor_block.message.block.hash_tree_root());
        let parent = anchor_block.message.block.parent_root;
        let at: u64 = anchor_block.message.block.slot.0.0;
        let justified = anchor_state.latest_justified;
        let finalized = anchor_state.latest_finalized;
        let count: usize = anchor_state.validators.data.len();
        let mut blocks: RootMap<SignedBlockWithAttestation> = RootMap::new();
        let mut states: RootMap<State> = RootMap::new();
        let mut parents: RootMap<Bytes32> = RootMap::new();
        let mut children: RootMap<Vec<Bytes32>> = RootMap::new();
        let ghost signed = anchor_block@;
        let ghost post = anchor_state@;
        blocks.insert(root, anchor_block);
        states.insert(root, anchor_state);
        parents.insert(root, parent);
        let mut first: Vec<Bytes32> = Vec::new();
        first.push(root);
        children.insert(parent, first);
        let mut store = ForkChoiceStore {
            head: root,
            safe_target: root,
            head_slot: at,
            latest_justified: justified,
            previous_justified: justified,
            latest_finalized: finalized,
            reorgs_total: 0,
            validator_count: count,
            blocks,
            states,
            parents,
            children,
            latest_votes: NumberMap::new(),
            latest_new_votes: NumberMap::new(),
        };
        proof {
            assert(store@.blocks =~= Map::<Bytes32, SignedBlockModel>::empty().insert(root, signed));
            assert(store@.states =~= Map::<Bytes32, StateModel>::empty().insert(root, post));
            assert(store@.children =~= Map::<Bytes32, Seq<Bytes32>>::empty().insert(
                parent,
                seq![root],
            ));
            assert(store@.blocks.dom() =~= store@.states.dom());
            assert(store@.blocks.dom() =~= store@.parents.dom());
            assert(seq![root][0] == root);
            assert(store@.children[parent].contains(root));
            assert forall|p: Bytes32, r: Bytes32|
                store@.children.contains_key(p) && #[trigger] store@.children[p].contains(
                    r,
                ) implies store@.parents.contains_key(r) by {
                let i = choose|i: int|
                    0 <= i < store@.children[p].len() && store@.children[p][i] == r;
                assert(store@.children[p][i] == root);
            }
        }
        store.override_checkpoint_roots(root);
        Ok(store)
    }

    /// Tells whether `node` is `ancestor` or lies below it.
    fn is_descendant(&self, node: Bytes32, ancestor: Bytes32) -> (r: bool)
        requires
            self.wf(),
        ensures
            r == descends(self@.parents, node, ancestor),
    {
        let limit: usize = self.parents.len();
        let ghost parents = self.parents@;
        proof {
            self.parents.lemma_len();
        }
        let mut current = node;
        let mut n: usize = 0;
        let to_zero: bool = ancestor.is_zero();
        loop
            invariant
                n <= limit,
                self.wf(),
                parents == self.parents@,
                parents.dom().finite(),
                limit == parents.dom().len(),
                to_zero == (ancestor == Bytes32::zero_value()),
                branch(parents, node, n as nat) == Some(current),
                forall|m: nat| m < n ==> !#[trigger] met_at(parents, node, ancestor, m),
            decreases limit - n,
        {
            if current == ancestor {
                assert(met_at(parents, node, ancestor, n as nat));
                return true;
            }
            let parent: Bytes32 = match self.parents.get(&current) {
                Some(p) => *p,
                None => {
                    proof {
                        lemma_walk_ended(parents, node, ancestor, n as nat);
                    }
                    return false;
                },
            };
            if parent.is_zero() {
                if to_zero {
                    assert(met_at(parents, node, ancestor, n as nat));
                    return true;
                }
                proof {
                    lemma_walk_ended(parents, node, ancestor, n as nat);
                }
                return false;
            }
            if n == limit {
                proof {
                    if descends(parents, node, ancestor) {
                        let far = choose|far: nat| met_at(parents, node, ancestor, far);
                        let near = lemma_met_short(parents, node, ancestor, far);
                        assert(met_at(parents, node, ancestor, near));
                    }
                }
                return false;
            }
            current = parent;
            n = n + 1;
        }
    }

    /// The number of votes in the subtree of `root`.
    fn subtree_weight(&self, root: Bytes32) -> (r: usize)
        requires
            self.wf(),
        ensures
            r == weight(self@.parents, self@.votes, root),
    {
        let n: usize = self.latest_votes.len();
        let ghost keys = self.latest_votes.key_seq();
        let ghost votes = self@.votes;
        let ghost parents = self@.parents;
        let ghost supports = |v: usize| descends(parents, votes[v], root);
        let mut total: usize = 0;
        let mut i: usize = 0;
        proof {
            self.latest_votes.lemma_keys();
            assert(keys.take(0).to_set().filter(supports) =~= Set::<usize>::empty());
        }
        while i < n
            invariant
                i <= n,
                n == keys.len(),
                self.wf(),
                keys == self.latest_votes.key_seq(),
                keys.no_duplicates(),
                votes == self@.votes,
                parents == self@.parents,
                supports == (|v: usize| descends(parents, votes[v], root)),
                total <= i,
                keys.take(i as int).to_set().finite(),
                total == keys.take(i as int).to_set().filter(supports).len(),
            decreases n - i,
        {
            let vote = *self.latest_votes.value_at(i);
            let ghost key = keys[i as int];
            let supported: bool = self.is_descendant(vote, root);
            proof {
                let seen = keys.take(i as int);
                let upto = keys.take(i + 1);
                let done = seen.to_set();
                let next = upto.to_set();
                assert(upto =~= seen.push(key));
                assert(!done.contains(key)) by {
                    if seen.contains(key) {
                        let j = choose|j: int| 0 <= j < i && seen[j] == key;
                        assert(keys[j] == keys[i as int]);
                    }
                }
                assert(next =~= done.insert(key)) by {
                    assert forall|v: usize| next.contains(v) <==> done.insert(key).contains(v) by {
                        if done.contains(v) {
                            let j = choose|j: int| 0 <= j < i && seen[j] == v;
                            assert(upto[j] == v);
                        }
                        if v == key {
                            assert(upto[i as int] == v);
                        }
                        if next.contains(v) {
                            let j = choose|j: int| 0 <= j < i + 1 && upto[j] == v;
                            if j < i {
                                assert(seen[j] == v);
                            }
                        }
                    }
                }
                if supported {
                    assert(next.filter(supports) =~= done.filter(supports).insert(key));
                } else {
                    assert(next.filter(supports) =~= done.filter(supports));
                }
            }
            if supported {
                total = total + 1;
            }
            i = i + 1;
        }
        proof {
            assert(keys.take(n as int) =~= keys);
            assert(keys.to_set() =~= votes.dom()) by {
                assert forall|v: usize| keys.to_set().contains(v) <==> votes.dom().contains(v) by {
                    if votes.contains_key(v) {
                        let j = choose|j: int| 0 <= j < keys.len() && keys[j] == v;
                        assert(keys.contains(keys[j]));
                    }
                }
            }
            assert(keys.to_set().filter(supports) =~= supporters(parents, votes, root));
        }
        total
    }

    /// Walks from the justified block to a leaf.
    fn find_head(&self) -> (r: Bytes32)
        requires
            self.wf(),
        ensures
            r == found_head(self@),
    {
        let start = self.latest_justified.root;
        if !self.blocks.contains(&start) {
            return self.head;
        }
        let ghost m = self@;
        let mut current = start;
        let mut left: usize = self.children.len();
        proof {
            self.children.lemma_len();
            assert(m.children.dom() =~= self.children@.dom());
        }
        while left > 0
            invariant
                self.wf(),
                m == self@,
                start == m.latest_justified.root,
                m.blocks.contains_key(start),
                descend(m, current, left as nat) == descend(m, start, m.children.dom().len()),
            decreases left,
        {
            let kids: &Vec<Bytes32> = match self.children.get(&current) {
                Some(kids) => kids,
                None => {
                    return current;
                },
            };
            assert(m.children[current] == kids@);
            if kids.len() == 0 {
                return current;
            }
            current = self.best_child(kids);
            left = left - 1;
        }
        current
    }

    /// The preferred one of several children.
    fn best_child(&self, kids: &Vec<Bytes32>) -> (r: Bytes32)
        requires
            self.wf(),
            kids@.len() > 0,
        ensures
            r == best_of(self@, kids@),
    {
        let ghost m = self@;
        let mut best = kids[0];
        let mut best_weight: usize = self.subtree_weight(best);
        let mut i: usize = 1;
        assert(kids@.take(1)[0] == kids@[0]);
        while i < kids.len()
            invariant
                1 <= i <= kids@.len(),
                self.wf(),
                m == self@,
                best == best_of(m, kids@.take(i as int)),
                best_weight == weight(m.parents, m.votes, best),
            decreases kids@.len() - i,
        {
            let child = kids[i];
            let w: usize = self.subtree_weight(child);
            proof {
                assert(kids@.take(i + 1).drop_last() =~= kids@.take(i as int));
                assert(kids@.take(i + 1).last() == child);
            }
            if w > best_weight || (w == best_weight && child.precedes(&best)) {
                best = child;
                best_weight = w;
            }
            i = i + 1;
        }
        assert(kids@.take(i as int) =~= kids@);
        best
    }

    /// Looks for the safe target.
    fn refresh_safe_target(&mut self)
        requires
            old(self).wf(),
        ensures
            final(self).wf(),
            is_safe_target(old(self)@, final(self)@.safe_target),
            final(self)@ == (ForkChoiceModel {
                safe_target: final(self)@.safe_target,
                ..old(self)@
            }),
    {
        let target = self.find_safe_target();
        self.safe_target = target;
        assert(tree_wf(self@));
    }

    fn find_safe_target(&self) -> (r: Bytes32)
        requires
            self.wf(),
        ensures
            is_safe_target(self@, r),
    {
        if self.validator_count == 0 {
            return self.head;
        }
        let ghost m = self@;
        let anchor: Bytes32 = if self.blocks.contains(&self.latest_finalized.root) {
            self.latest_finalized.root
        } else if self.blocks.contains(&self.latest_justified.root) {
            self.latest_justified.root
        } else {
            self.head
        };
        assert(anchor == safe_anchor(m));
        let mut best = anchor;
        let mut best_slot: u64 = match self.blocks.get(&anchor) {
            Some(b) => b.message.block.slot.0.0,
            None => self.head_slot,
        };
        let n: usize = self.blocks.len();
        let ghost keys = self.blocks.key_seq();
        let mut i: usize = 0;
        proof {
            self.blocks.lemma_keys();
        }
        while i < n
            invariant
                i <= n,
                n == keys.len(),
                self.wf(),
                m == self@,
                m.validator_count != 0,
                keys == self.blocks.key_seq(),
                anchor == safe_anchor(m),
                best_slot == slot_or_head(m, best),
                best == anchor || (is_supported(m, best) && ahead(m, best, anchor)),
                forall|j: int|
                    0 <= j < i && is_supported(m, #[trigger] keys[j]) ==> !ahead(m, keys[j], best),
            decreases n - i,
        {
            let root = *self.blocks.key_at(i);
            let at: u64 = self.blocks.value_at(i).message.block.slot.0.0;
            assert(keys[i as int] == root);
            assert(at == slot_or_head(m, root));
            let below: bool = self.is_descendant(root, anchor);
            if below {
                let w: usize = self.subtree_weight(root);
                if 3 * (w as u128) >= 2 * (self.validator_count as u128) {
                    assert(is_supported(m, root));
                    if at > best_slot || (at == best_slot && root.precedes(&best)) {
                        proof {
                            assert forall|j: int|
                                0 <= j < i + 1 && is_supported(m, #[trigger] keys[j]) implies !ahead(
                                m,
                                keys[j],
                                root,
                            ) by {
                                if ahead(m, keys[j], root) {
                                    crate::containers::justification::lemma_order(
                                        keys[j],
                                        root,
                                        best,
                                    );
                                    crate::containers::justification::lemma_order(root, root, root);
                                }
                            }
                            crate::containers::justification::lemma_order(root, best, anchor);
                        }
                        best = root;
                        best_slot = at;
                    }
                }
            }
            i = i + 1;
        }
        proof {
            assert forall|r: Bytes32| #[trigger] is_supported(m, r) implies !ahead(m, r, best) by {
                assert(self.blocks@.contains_key(r));
                let j = choose|j: int| 0 <= j < keys.len() && keys[j] == r;
                assert(is_supported(m, keys[j]));
            }
        }
        best
    }

    /// Tells whether the branch of `new_head` leaves `old_head` aside.
    fn head_change_is_reorg(&self, old_head: Bytes32, new_head: Bytes32) -> (r: bool)
        requires
            self.wf(),
        ensures
            r == is_reorg(self@.parents, old_head, new_head),
    {
        self.steps_to(new_head, old_head).is_none()
    }

    /// How many steps up from `node` `ancestor` is first met.
    fn steps_to(&self, node: Bytes32, ancestor: Bytes32) -> (r: Option<usize>)
        requires
            self.wf(),
        ensures
            match r {
                Some(n) => branch(self@.parents, node, n as nat) == Some(ancestor) && forall|m: nat|
                    m < n ==> #[trigger] branch(self@.parents, node, m) != Some(ancestor),
                None => !on_branch(self@.parents, node, ancestor),
            },
    {
        let limit: usize = self.parents.len();
        let ghost parents = self.parents@;
        proof {
            self.parents.lemma_len();
        }
        let mut current = node;
        let mut n: usize = 0;
        loop
            invariant
                n <= limit,
                self.wf(),
                parents == self.parents@,
                parents.dom().finite(),
                limit == parents.dom().len(),
                branch(parents, node, n as nat) == Some(current),
                forall|m: nat| m < n ==> #[trigger] branch(parents, node, m) != Some(ancestor),
            decreases limit - n,
        {
            if current == ancestor {
                return Some(n);
            }
            let next: Option<Bytes32> = match self.parents.get(&current) {
                Some(p) => if p.is_zero() {
                    None
                } else {
                    Some(*p)
                },
                None => None,
            };
            match next {
                None => {
                    proof {
                        lemma_branch_ended(parents, node, ancestor, n as nat);
                    }
                    return None;
                },
                Some(parent) => {
                    if n == limit {
                        proof {
                            if on_branch(parents, node, ancestor) {
                                let far = choose|far: nat|
                                    branch(parents, node, far) == Some(ancestor);
                                let near = lemma_branch_short(parents, node, far);
                                assert(branch(parents, node, near) == Some(ancestor));
                            }
                        }
                        return None;
                    }
                    current = parent;
                    n = n + 1;
                },
            }
        }
    }

    /// Takes in a block and the state behind it.
    ///
    /// The votes in the block count at once. Checkpoints only move forward. When the head is
    /// found among the known blocks it becomes the head; otherwise the new block does if its
    /// slot is later.
    pub fn on_block(&mut self, signed_block: SignedBlockWithAttestation, post_state: State) -> (r:
        Result<(), String>)
        requires
            old(self).wf(),
        ensures
            final(self).wf(),
            match r {
                Ok(()) => {
                    let next = imported(old(self)@, signed_block@, post_state@);
                    &&& state_matches(post_state@, signed_block@.message.block.state_root)
                    &&& is_safe_target(next, final(self)@.safe_target)
                    &&& final(self)@ == (ForkChoiceModel {
                        safe_target: final(self)@.safe_target,
                        ..next
                    })
                },
                Err(e) => {
                    &&& !state_matches(post_state@, signed_block@.message.block.state_root)
                    &&& e@ == "post-state root does not match block.state_root invariants"@
                    &&& final(self)@ == old(self)@
                },
            },
    {
        if !state_matches_block_root(&post_state, signed_block.message.block.state_root) {
            return Err("post-state root does not match block.state_root invariants".to_string());
        }
        let ghost m = self@;
        let ghost signed = signed_block@;
        let ghost post = post_state@;
        let root = Bytes32(signed_block.message.block.hash_tree_root());
        let at: u64 = signed_block.message.block.slot.0.0;
        self.insert_block(root, signed_block, post_state);
        let ghost next = with_block(m, signed, post);
        assert(self@ == next);
        let old_head = self.head;
        let head = self.find_head();
        match self.blocks.get(&head) {
            Some(b) => {
                self.head_slot = b.message.block.slot.0.0;
                self.head = head;
            },
            None => {
                if at > self.head_slot {
                    self.head = root;
                    self.head_slot = at;
                }
            },
        }
        assert(tree_wf(self@));
        if self.head_change_is_reorg(old_head, self.head) {
            self.reorgs_total = self.reorgs_total.wrapping_add(1);
        }
        assert(tree_wf(self@));
        assert(self@ =~= imported(m, signed, post));
        self.refresh_safe_target();
        Ok(())
    }

    /// Puts a block into the tree, counts its votes and moves the checkpoints forward.
    fn insert_block(&mut self, root: Bytes32, signed: SignedBlockWithAttestation, post: State)
        requires
            old(self).wf(),
            root == signed@.message.block.root_value(),
        ensures
            final(self).wf(),
            final(self)@ == with_block(old(self)@, signed@, post@),
    {
        let ghost m = self@;
        let ghost sm = signed@;
        let ghost pm = post@;
        let parent = signed.message.block.parent_root;
        let justified = post.latest_justified;
        let finalized = post.latest_finalized;
        let mut kids: Vec<Bytes32> = match self.children.get(&parent) {
            Some(v) => copy_roots(v),
            None => Vec::new(),
        };
        let ghost siblings = kids@;
        kids.push(root);
        let votes_in = signed.duplicate();
        let ghost old_blocks = self.blocks@;
        let ghost old_states = self.states@;
        let ghost old_children = self.children@;
        self.blocks.insert(root, signed);
        self.states.insert(root, post);
        self.parents.insert(root, parent);
        self.children.insert(parent, kids);
        proof {
            assert(self@.blocks =~= m.blocks.insert(root, sm));
            assert(self@.states =~= m.states.insert(root, pm));
            assert(self@.children =~= m.children.insert(parent, siblings.push(root)));
        }
        let ghost blocks = self@.blocks;
        let atts = &votes_in.message.block.body.attestations.data;
        let n: usize = atts.len();
        let mut i: usize = 0;
        let ghost fixed = self@;
        while i < n
            invariant
                i <= n,
                n == atts@.len(),
                votes_in@ == sm,
                atts == &votes_in.message.block.body.attestations.data,
                self.blocks.wf(),
                self.states.wf(),
                self.parents.wf(),
                self.children.wf(),
                self.latest_votes.wf(),
                self.latest_new_votes.wf(),
                blocks == self@.blocks,
                self@ == (ForkChoiceModel { votes: self@.votes, ..fixed }),
                self@.votes == votes_of_block(
                    blocks,
                    m.votes,
                    sm.message.block.attestations,
                    i as nat,
                ),
            decreases n - i,
        {
            assert(sm.message.block.attestations[i as int] == atts@[i as int]@);
            apply_vote_to(
                &self.blocks,
                &mut self.latest_votes,
                &atts[i].aggregation_bits,
                atts[i].data.head.root,
            );
            i = i + 1;
        }
        apply_vote_to(
            &self.blocks,
            &mut self.latest_votes,
            &votes_in.message.proposer_attestation.aggregation_bits,
            votes_in.message.proposer_attestation.data.head.root,
        );
        if justified.slot.0.0 > self.latest_justified.slot.0.0 {
            self.previous_justified = self.latest_justified;
            self.latest_justified = justified;
        }
        if finalized.slot.0.0 > self.latest_finalized.slot.0.0 {
            self.latest_finalized = finalized;
        }
        proof {
            assert(self@ =~= with_block(m, sm, pm));
            lemma_with_block_wf(m, sm, pm);
        }
    }

    /// Keeps an attestation as a waiting vote for its target. A vote for an unknown block is
    /// dropped, and the answer is false.
    ///
    /// Attestations in blocks, and those handed in for a proposal, count for their head.
    pub fn on_attestation(&mut self, attestation: &Attestation) -> (r: bool)
        requires
            old(self).wf(),
        ensures
            final(self).wf(),
            r == old(self)@.blocks.contains_key(attestation@.data.target.root),
            final(self)@ == (ForkChoiceModel {
                new_votes: vote_for(
                    old(self)@.blocks,
                    old(self)@.new_votes,
                    attestation@.aggregation_bits,
                    attestation@.data.target.root,
                ),
                ..old(self)@
            }),
    {
        let r: bool = apply_vote_to(
            &self.blocks,
            &mut self.latest_new_votes,
            &attestation.aggregation_bits,
            attestation.data.target.root,
        );
        assert(tree_wf(self@));
        r
    }

    /// Counts the waiting votes and looks for the head again. Without waiting votes nothing
    /// changes.
    pub fn accept_new_votes(&mut self)
        requires
            old(self).wf(),
        ensures
            final(self).wf(),
            old(self)@.new_votes.dom().len() == 0 ==> final(self)@ == old(self)@,
            old(self)@.new_votes.dom().len() > 0 ==> {
                &&& is_safe_target(accepted(old(self)@), final(self)@.safe_target)
                &&& final(self)@ == (ForkChoiceModel {
                    safe_target: final(self)@.safe_target,
                    ..accepted(old(self)@)
                })
            },
    {
        let ghost m = self@;
        let n: usize = self.latest_new_votes.len();
        proof {
            self.latest_new_votes.lemma_len();
        }
        if n == 0 {
            return;
        }
        let ghost keys = self.latest_new_votes.key_seq();
        let mut i: usize = 0;
        proof {
            self.latest_new_votes.lemma_keys();
        }
        while i < n
            invariant
                i <= n,
                n == keys.len(),
                keys == self.latest_new_votes.key_seq(),
                self.wf(),
                self@ == (ForkChoiceModel { votes: self@.votes, ..m }),
                forall|v: usize| #[trigger]
                    self@.votes.contains_key(v) <==> m.votes.contains_key(v) || exists|j: int|
                        0 <= j < i && keys[j] == v,
                forall|v: usize| #[trigger]
                    self@.votes.contains_key(v) ==> self@.votes[v] == (if exists|j: int|
                        0 <= j < i && keys[j] == v {
                        m.new_votes[v]
                    } else {
                        m.votes[v]
                    }),
            decreases n - i,
        {
            let validator: usize = *self.latest_new_votes.key_at(i);
            let root = *self.latest_new_votes.value_at(i);
            let ghost before = self@;
            self.latest_votes.insert(validator, root);
            proof {
                assert(tree_wf(self@));
                assert forall|v: usize| #[trigger] self@.votes.contains_key(v) <==> m.votes.contains_key(
                    v,
                ) || exists|j: int| 0 <= j < i + 1 && keys[j] == v by {
                    if v == validator {
                        assert(keys[i as int] == v);
                    }
                    if before.votes.contains_key(v) && !m.votes.contains_key(v) {
                        let j = choose|j: int| 0 <= j < i && keys[j] == v;
                        assert(keys[j] == v);
                    }
                    if exists|j: int| 0 <= j < i + 1 && keys[j] == v {
                        let j = choose|j: int| 0 <= j < i + 1 && keys[j] == v;
                        if j < i {
                            assert(before.votes.contains_key(v));
                        }
                    }
                }
                assert forall|v: usize| #[trigger] self@.votes.contains_key(v) implies self@.votes[v]
                    == (if exists|j: int| 0 <= j < i + 1 && keys[j] == v {
                    m.new_votes[v]
                } else {
                    m.votes[v]
                }) by {
                    if v == validator {
                        assert(keys[i as int] == v);
                    } else {
                        assert(before.votes.contains_key(v));
                        if exists|j: int| 0 <= j < i + 1 && keys[j] == v {
                            let j = choose|j: int| 0 <= j < i + 1 && keys[j] == v;
                            assert(j < i);
                        }
                    }
                }
            }
            i = i + 1;
        }
        self.latest_new_votes = NumberMap::new();
        proof {
            let all = m.votes.union_prefer_right(m.new_votes);
            assert forall|v: usize| self@.votes.contains_key(v) <==> all.contains_key(v) by {
                if m.new_votes.contains_key(v) {
                    let j = choose|j: int| 0 <= j < keys.len() && keys[j] == v;
                    assert(keys[j] == v);
                }
                if exists|j: int| 0 <= j < n && keys[j] == v {
                    let j = choose|j: int| 0 <= j < n && keys[j] == v;
                    assert(m.new_votes.contains_key(keys[j]));
                }
            }
            assert forall|v: usize| self@.votes.contains_key(v) implies self@.votes[v] == all[v] by {
                if m.new_votes.contains_key(v) {
                    let j = choose|j: int| 0 <= j < keys.len() && keys[j] == v;
                    assert(keys[j] == v);
                }
                if exists|j: int| 0 <= j < n && keys[j] == v {
                    let j = choose|j: int| 0 <= j < n && keys[j] == v;
                    assert(m.new_votes.contains_key(keys[j]));
                }
            }
            assert(self@.votes =~= all);
            assert(tree_wf(self@));
        }
        let ghost next = self@;
        let old_head = self.head;
        let head = self.find_head();
        match self.blocks.get(&head) {
            Some(b) => {
                self.head_slot = b.message.block.slot.0.0;
                self.head = head;
            },
            None => {},
        }
        assert(tree_wf(self@));
        if self.head_change_is_reorg(old_head, self.head) {
            self.reorgs_total = self.reorgs_total.wrapping_add(1);
        }
        assert(tree_wf(self@));
        assert(self@ =~= accepted(m));
        self.refresh_safe_target();
    }

    /// Looks for the safe target again.
    pub fn update_safe_target(&mut self)
        requires
            old(self).wf(),
        ensures
            final(self).wf(),
            is_safe_target(old(self)@, final(self)@.safe_target),
            final(self)@ == (ForkChoiceModel {
                safe_target: final(self)@.safe_target,
                ..old(self)@
            }),
    {
        self.refresh_safe_target();
    }

    /// Root of the head.
    pub fn head(&self) -> (r: Bytes32)
        ensures
            r == self@.head,
    {
        self.head
    }

    /// Latest justified checkpoint.
    pub fn latest_justified(&self) -> (r: Checkpoint)
        ensures
            r == self@.latest_justified,
    {
        self.latest_justified
    }

    /// Latest finalized checkpoint.
    pub fn latest_finalized(&self) -> (r: Checkpoint)
        ensures
            r == self@.latest_finalized,
    {
        self.latest_finalized
    }

    /// Puts the head, the safe target and all checkpoints on `anchor_root`; the slots of the
    /// checkpoints stay.
    pub fn override_checkpoint_roots(&mut self, anchor_root: Bytes32)
        requires
            old(self).wf(),
        ensures
            final(self).wf(),
            final(self)@ == (ForkChoiceModel {
                latest_justified: Checkpoint {
                    root: anchor_root,
                    slot: old(self)@.latest_justified.slot,
                },
                latest_finalized: Checkpoint {
                    root: anchor_root,
                    slot: old(self)@.latest_finalized.slot,
                },
                previous_justified: Checkpoint {
                    root: anchor_root,
                    slot: old(self)@.previous_justified.slot,
                },
                safe_target: anchor_root,
                head: anchor_root,
                head_slot: slot_or_head(old(self)@, anchor_root),
                ..old(self)@
            }),
    {
        let at: u64 = match self.blocks.get(&anchor_root) {
            Some(b) => b.message.block.slot.0.0,
            None => self.head_slot,
        };
        self.latest_justified = Checkpoint { root: anchor_root, slot: self.latest_justified.slot };
        self.latest_finalized = Checkpoint { root: anchor_root, slot: self.latest_finalized.slot };
        self.previous_justified = Checkpoint {
            root: anchor_root,
            slot: self.previous_justified.slot,
        };
        self.safe_target = anchor_root;
        self.head = anchor_root;
        self.head_slot = at;
        assert(tree_wf(self@));
    }

    /// Root of the safe target.
    pub fn safe_target(&self) -> (r: Bytes32)
        ensures
            r == self@.safe_target,
    {
        self.safe_target
    }

    /// Slot of the head.
    pub fn head_slot(&self) -> (r: u64)
        ensures
            r == self@.head_slot,
    {
        self.head_slot
    }

    /// The justified checkpoint before the latest one.
    pub fn previous_justified(&self) -> (r: Checkpoint)
        ensures
            r == self@.previous_justified,
    {
        self.previous_justified
    }

    /// Number of reorganizations.
    pub fn reorgs_total(&self) -> (r: u64)
        ensures
            r == self@.reorgs_total,
    {
        self.reorgs_total
    }

    /// Number of validators in the anchor state.
    pub fn validator_count(&self) -> (r: usize)
        ensures
            r == self@.validator_count,
    {
        self.validator_count
    }

    /// Number of validators in the state of the head; 0 when that state is unknown.
    pub fn head_validator_count(&self) -> (r: usize)
        requires
            self.wf(),
        ensures
            r == (if self@.states.contains_key(self@.head) {
                self@.states[self@.head].validators.len()
            } else {
                0
            }),
    {
        match self.states.get(&self.head) {
            Some(s) => s.validators.data.len(),
            None => 0,
        }
    }

    /// Slot of the safe target; that of the head when it is unknown.
    pub fn safe_target_slot(&self) -> (r: u64)
        requires
            self.wf(),
        ensures
            r == slot_or_head(self@, self@.safe_target),
    {
        match self.blocks.get(&self.safe_target) {
            Some(b) => b.message.block.slot.0.0,
            None => self.head_slot,
        }
    }

    /// Number of waiting votes.
    pub fn gossip_signatures_count(&self) -> (r: usize)
        requires
            self.wf(),
        ensures
            r == self@.new_votes.dom().len(),
    {
        proof {
            self.latest_new_votes.lemma_len();
        }
        self.latest_new_votes.len()
    }

    /// Number of counted votes.
    pub fn latest_votes_count(&self) -> (r: usize)
        requires
            self.wf(),
        ensures
            r == self@.votes.dom().len(),
    {
        proof {
            self.latest_votes.lemma_len();
        }
        self.latest_votes.len()
    }

    /// The checkpoint of a known block.
    pub fn checkpoint_for_root(&self, root: Bytes32) -> (r: Option<Checkpoint>)
        requires
            self.wf(),
        ensures
            r == checkpoint_of(self@, root),
    {
        match self.blocks.get(&root) {
            Some(b) => Some(Checkpoint { root, slot: Slot(Uint64(b.message.block.slot.0.0)) }),
            None => None,
        }
    }
}

/// The store with its head where the walk ends, if that block is known.
pub open spec fn proposed(m: ForkChoiceModel) -> ForkChoiceModel {
    let head = found_head(m);
    if m.blocks.contains_key(head) {
        ForkChoiceModel { head, head_slot: slot_of(m, head), ..m }
    } else {
        m
    }
}

/// `next` is `m` with its waiting votes counted.
pub open spec fn accepts_votes(m: ForkChoiceModel, next: ForkChoiceModel) -> bool {
    if m.new_votes.dom().len() == 0 {
        next == m
    } else {
        &&& is_safe_target(accepted(m), next.safe_target)
        &&& next == (ForkChoiceModel { safe_target: next.safe_target, ..accepted(m) })
    }
}

/// The waiting votes with the first `k` attestations kept for their heads.
pub open spec fn with_pending(
    m: ForkChoiceModel,
    pending: Seq<AttestationModel>,
    k: nat,
) -> ForkChoiceModel {
    ForkChoiceModel { new_votes: votes_of_block(m.blocks, m.new_votes, pending, k), ..m }
}

/// `d` is the number of steps from `old_head` up to the first block on the branch of
/// `new_head`, or to the end of its own branch.
pub open spec fn is_reorg_depth(
    parents: Map<Bytes32, Bytes32>,
    old_head: Bytes32,
    new_head: Bytes32,
    d: nat,
) -> bool {
    &&& branch(parents, old_head, d) is Some
    &&& forall|i: nat|
        i < d ==> !on_branch(
            parents,
            new_head,
            (#[trigger] branch(parents, old_head, i)).unwrap(),
        )
    &&& on_branch(parents, new_head, branch(parents, old_head, d).unwrap()) || branch(
        parents,
        old_head,
        d + 1,
    ) is None
}

/// The branch of `node` comes to an end.
pub open spec fn branch_ends(parents: Map<Bytes32, Bytes32>, node: Bytes32) -> bool {
    exists|n: nat| (#[trigger] branch(parents, node, n)) is None
}

/// A branch that outlasts the number of blocks never ends.
proof fn lemma_endless(parents: Map<Bytes32, Bytes32>, node: Bytes32, n: nat)
    requires
        parents.dom().finite(),
        branch(parents, node, parents.dom().len() + 1) is Some,
    ensures
        branch(parents, node, n) is Some,
    decreases n,
{
    let top = parents.dom().len() + 1;
    if n <= top {
        lemma_branch_prefix(parents, node, n, top);
    } else {
        let m = lemma_branch_short(parents, node, top);
        let k = (n - top) as nat;
        lemma_branch_shift(parents, node, top, k);
        lemma_branch_shift(parents, node, m, k);
        lemma_endless(parents, node, m + k);
        assert(top + k == n);
    }
}

/// The vote target after going back from `root` at most `k` blocks while above `safe_slot`.
pub open spec fn back_to_safe(m: ForkChoiceModel, root: Bytes32, safe_slot: u64, k: nat) -> Option<
    Bytes32,
>
    decreases k,
{
    if k == 0 {
        Some(root)
    } else if !m.blocks.contains_key(root) {
        None
    } else if slot_of(m, root) <= safe_slot {
        Some(root)
    } else if !m.parents.contains_key(root) {
        None
    } else if m.parents[root] == Bytes32::zero_value() {
        Some(root)
    } else {
        back_to_safe(m, m.parents[root], safe_slot, (k - 1) as nat)
    }
}

/// The vote target after going back from `root`, at most `k` blocks, to a slot that can be
/// justified.
pub open spec fn back_to_justifiable(
    m: ForkChoiceModel,
    root: Bytes32,
    finalized: Slot,
    k: nat,
) -> Option<Bytes32>
    decreases k,
{
    if !m.blocks.contains_key(root) {
        None
    } else {
        match slot::justifiable_after(Slot(Uint64(slot_of(m, root))), finalized) {
            Err(_) => None,
            Ok(true) => Some(root),
            Ok(false) => if !m.parents.contains_key(root) {
                None
            } else if m.parents[root] == Bytes32::zero_value() {
                Some(root)
            } else if k == 0 {
                None
            } else {
                back_to_justifiable(m, m.parents[root], finalized, (k - 1) as nat)
            },
        }
    }
}

/// The checkpoint to vote for, never behind the justified one.
pub open spec fn vote_target(m: ForkChoiceModel, finalized: Slot) -> Option<Checkpoint> {
    match back_to_safe(
        m,
        m.head,
        slot_or_head(m, m.safe_target),
        JUSTIFICATION_LOOKBACK_SLOTS as nat,
    ) {
        None => None,
        Some(near) => match back_to_justifiable(m, near, finalized, m.blocks.dom().len()) {
            None => None,
            Some(root) => {
                let at = checkpoint_of(m, root).unwrap();
                if at.slot.num() < m.latest_justified.slot.num() {
                    Some(m.latest_justified)
                } else {
                    Some(at)
                }
            },
        },
    }
}

/// What a snapshot says of a known block.
pub open spec fn snapshot_of(m: ForkChoiceModel, n: ForkChoiceNodeSnapshot) -> bool {
    &&& m.blocks.contains_key(n.root)
    &&& n.slot == slot_of(m, n.root)
    &&& n.parent_root == m.blocks[n.root].message.block.parent_root
    &&& n.proposer_index == m.blocks[n.root].message.block.proposer_index.0.0
    &&& n.weight == weight(m.parents, m.votes, n.root)
}

/// Snapshots are ordered by slot, and by root within a slot.
pub open spec fn snapshot_before(a: ForkChoiceNodeSnapshot, b: ForkChoiceNodeSnapshot) -> bool {
    a.slot < b.slot || (a.slot == b.slot && bytes::bytes_less(a.root@, b.root@))
}

/// A list of snapshots in order.
pub open spec fn snapshots_ordered(list: Seq<ForkChoiceNodeSnapshot>) -> bool {
    forall|i: int, j: int|
        0 <= i < j < list.len() ==> snapshot_before(#[trigger] list[i], #[trigger] list[j])
}

/// Where a snapshot belongs in an ordered list.
fn snapshot_place(list: &Vec<ForkChoiceNodeSnapshot>, node: &ForkChoiceNodeSnapshot) -> (r: usize)
    requires
        snapshots_ordered(list@),
        forall|i: int| 0 <= i < list@.len() ==> (#[trigger] list@[i]).root != node.root,
    ensures
        r <= list@.len(),
        forall|i: int| 0 <= i < r ==> snapshot_before(#[trigger] list@[i], *node),
        forall|i: int| r <= i < list@.len() ==> snapshot_before(*node, #[trigger] list@[i]),
{
    let mut i: usize = 0;
    while i < list.len() && (list[i].slot < node.slot || (list[i].slot == node.slot
        && list[i].root.precedes(&node.root)))
        invariant
            i <= list@.len(),
            forall|j: int| 0 <= j < i ==> snapshot_before(#[trigger] list@[j], *node),
        decreases list@.len() - i,
    {
        i = i + 1;
    }
    proof {
        assert forall|j: int| i <= j < list@.len() implies snapshot_before(
            *node,
            #[trigger] list@[j],
        ) by {
            crate::containers::justification::lemma_order_total(list@[i as int].root, node.root);
            if j > i {
                assert(snapshot_before(list@[i as int], list@[j]));
                crate::containers::justification::lemma_order(
                    node.root,
                    list@[i as int].root,
                    list@[j].root,
                );
            }
        }
    }
    i
}

impl ForkChoiceStore {
    /// Counts the waiting votes and gives the block to build on.
    pub fn get_proposal_head(&mut self) -> (r: Bytes32)
        requires
            old(self).wf(),
        ensures
            final(self).wf(),
            r == final(self)@.head,
            exists|mid: ForkChoiceModel| #[trigger]
                accepts_votes(old(self)@, mid) && final(self)@ == proposed(mid),
    {
        self.accept_new_votes();
        let ghost mid = self@;
        let head = self.find_head();
        match self.blocks.get(&head) {
            Some(b) => {
                self.head_slot = b.message.block.slot.0.0;
                self.head = head;
            },
            None => {},
        }
        assert(tree_wf(self@));
        assert(self@ =~= proposed(mid));
        assert(accepts_votes(old(self)@, mid));
        self.head
    }

    /// Keeps the pending attestations as waiting votes for their heads, counts all waiting
    /// votes and gives the block to build on.
    pub fn get_proposal_head_with_pending(&mut self, pending_votes: &Vec<Attestation>) -> (r: Bytes32)
        requires
            old(self).wf(),
        ensures
            final(self).wf(),
            r == final(self)@.head,
            exists|mid: ForkChoiceModel, next: ForkChoiceModel| #[trigger]
                accepts_votes(
                    with_pending(
                        old(self)@,
                        crate::ssz::models(pending_votes@),
                        pending_votes@.len(),
                    ),
                    mid,
                ) && #[trigger] accepts_votes(mid, next) && final(self)@ == proposed(next),
    {
        let ghost m = self@;
        let ghost pending = crate::ssz::models(pending_votes@);
        let n: usize = pending_votes.len();
        let mut i: usize = 0;
        while i < n
            invariant
                i <= n,
                n == pending_votes@.len(),
                pending == crate::ssz::models(pending_votes@),
                self.wf(),
                self@ == with_pending(m, pending, i as nat),
            decreases n - i,
        {
            assert(pending[i as int] == pending_votes@[i as int]@);
            apply_vote_to(
                &self.blocks,
                &mut self.latest_new_votes,
                &pending_votes[i].aggregation_bits,
                pending_votes[i].data.head.root,
            );
            assert(tree_wf(self@));
            assert(self@ =~= with_pending(m, pending, (i + 1) as nat));
            i = i + 1;
        }
        let ghost before = self@;
        self.accept_new_votes();
        let ghost mid = self@;
        assert(accepts_votes(before, mid));
        self.get_proposal_head()
    }

    /// All known blocks, ordered by slot and root.
    pub fn node_snapshots(&self) -> (r: Vec<ForkChoiceNodeSnapshot>)
        requires
            self.wf(),
        ensures
            snapshots_ordered(r@),
            forall|i: int| 0 <= i < r@.len() ==> snapshot_of(self@, #[trigger] r@[i]),
            forall|root: Bytes32| #[trigger]
                self@.blocks.contains_key(root) ==> exists|i: int|
                    0 <= i < r@.len() && r@[i].root == root,
    {
        let ghost m = self@;
        let n: usize = self.blocks.len();
        let ghost keys = self.blocks.key_seq();
        let mut out: Vec<ForkChoiceNodeSnapshot> = Vec::new();
        let mut i: usize = 0;
        proof {
            self.blocks.lemma_keys();
        }
        while i < n
            invariant
                i <= n,
                n == keys.len(),
                self.wf(),
                m == self@,
                keys == self.blocks.key_seq(),
                keys.no_duplicates(),
                snapshots_ordered(out@),
                forall|k: int| 0 <= k < out@.len() ==> snapshot_of(m, #[trigger] out@[k]),
                forall|k: int|
                    0 <= k < out@.len() ==> exists|j: int|
                        0 <= j < i && keys[j] == (#[trigger] out@[k]).root,
                forall|j: int|
                    0 <= j < i ==> exists|k: int|
                        0 <= k < out@.len() && out@[k].root == #[trigger] keys[j],
            decreases n - i,
        {
            let root = *self.blocks.key_at(i);
            let b = self.blocks.value_at(i);
            let node = ForkChoiceNodeSnapshot {
                root,
                slot: b.message.block.slot.0.0,
                parent_root: b.message.block.parent_root,
                proposer_index: b.message.block.proposer_index.0.0,
                weight: self.subtree_weight(root),
            };
            let ghost before = out@;
            proof {
                assert forall|k: int| 0 <= k < out@.len() implies (#[trigger] out@[k]).root
                    != node.root by {
                    let j = choose|j: int| 0 <= j < i && keys[j] == out@[k].root;
                    assert(keys[j] != keys[i as int]);
                }
            }
            let at: usize = snapshot_place(&out, &node);
            out.insert(at, node);
            proof {
                assert forall|k: int| 0 <= k < out@.len() implies #[trigger] out@[k] == (if k < at {
                    before[k]
                } else if k == at {
                    node
                } else {
                    before[k - 1]
                }) by {}
                assert forall|a: int, c: int| 0 <= a < c < out@.len() implies snapshot_before(
                    #[trigger] out@[a],
                    #[trigger] out@[c],
                ) by {}
                assert forall|k: int| 0 <= k < out@.len() implies exists|j: int|
                    0 <= j < i + 1 && keys[j] == (#[trigger] out@[k]).root by {
                    if k == at {
                        assert(keys[i as int] == out@[k].root);
                    } else {
                        let o = if k < at { k } else { k - 1 };
                        let j = choose|j: int| 0 <= j < i && keys[j] == before[o].root;
                        assert(keys[j] == out@[k].root);
                    }
                }
                assert forall|j: int| 0 <= j < i + 1 implies exists|k: int|
                    0 <= k < out@.len() && out@[k].root == #[trigger] keys[j] by {
                    if j == i {
                        assert(out@[at as int].root == keys[j]);
                    } else {
                        let o = choose|o: int| 0 <= o < before.len() && before[o].root == keys[j];
                        let k = if o < at { o } else { o + 1 };
                        assert(out@[k].root == keys[j]);
                    }
                }
            }
            i = i + 1;
        }
        proof {
            assert forall|root: Bytes32| #[trigger] m.blocks.contains_key(root) implies exists|k: int|
                0 <= k < out@.len() && out@[k].root == root by {
                assert(self.blocks@.contains_key(root));
                let j = choose|j: int| 0 <= j < keys.len() && keys[j] == root;
                assert(exists|k: int| 0 <= k < out@.len() && out@[k].root == keys[j]);
            }
        }
        out
    }

    /// The checkpoint to vote for.
    ///
    /// From the head back at most [`JUSTIFICATION_LOOKBACK_SLOTS`] blocks while above the safe
    /// target, then back to a slot that can be justified after `finalized_slot`.
    pub fn attestation_target(&self, finalized_slot: Slot) -> (r: Option<Checkpoint>)
        requires
            self.wf(),
        ensures
            r == vote_target(self@, finalized_slot),
    {
        let ghost m = self@;
        let safe_slot: u64 = self.safe_target_slot();
        let mut target = self.head;
        let mut left: u64 = JUSTIFICATION_LOOKBACK_SLOTS;
        let mut done: bool = false;
        while left > 0 && !done
            invariant
                self.wf(),
                m == self@,
                left <= JUSTIFICATION_LOOKBACK_SLOTS,
                safe_slot == slot_or_head(m, m.safe_target),
                !done ==> back_to_safe(m, target, safe_slot, left as nat) == back_to_safe(
                    m,
                    m.head,
                    safe_slot,
                    JUSTIFICATION_LOOKBACK_SLOTS as nat,
                ),
                done ==> back_to_safe(
                    m,
                    m.head,
                    safe_slot,
                    JUSTIFICATION_LOOKBACK_SLOTS as nat,
                ) == Some(target),
            decreases left, (if done { 0int } else { 1int }),
        {
            let at: u64 = match self.blocks.get(&target) {
                Some(b) => b.message.block.slot.0.0,
                None => {
                    return None;
                },
            };
            if at <= safe_slot {
                done = true;
            } else {
                let parent: Bytes32 = match self.parents.get(&target) {
                    Some(p) => *p,
                    None => {
                        return None;
                    },
                };
                if parent.is_zero() {
                    done = true;
                } else {
                    target = parent;
                    left = left - 1;
                }
            }
        }
        let near = target;
        let mut steps: usize = self.blocks.len();
        proof {
            self.blocks.lemma_len();
            assert(m.blocks.dom() =~= self.blocks@.dom());
        }
        loop
            invariant
                self.wf(),
                m == self@,
                back_to_safe(
                    m,
                    m.head,
                    slot_or_head(m, m.safe_target),
                    JUSTIFICATION_LOOKBACK_SLOTS as nat,
                ) == Some(near),
                back_to_justifiable(m, target, finalized_slot, steps as nat) == back_to_justifiable(
                    m,
                    near,
                    finalized_slot,
                    m.blocks.dom().len(),
                ),
            decreases steps,
        {
            let at: u64 = match self.blocks.get(&target) {
                Some(b) => b.message.block.slot.0.0,
                None => {
                    return None;
                },
            };
            let found: bool = match slot::is_justifiable_after(Slot(Uint64(at)), finalized_slot) {
                Err(_) => {
                    return None;
                },
                Ok(b) => b,
            };
            let parent: Bytes32 = match self.parents.get(&target) {
                Some(p) => *p,
                None => if found {
                    Bytes32::zero()
                } else {
                    return None;
                },
            };
            if found || parent.is_zero() {
                let checkpoint = Checkpoint { root: target, slot: Slot(Uint64(at)) };
                if at < self.latest_justified.slot.0.0 {
                    return Some(self.latest_justified);
                }
                return Some(checkpoint);
            }
            if steps == 0 {
                return None;
            }
            target = parent;
            steps = steps - 1;
        }
    }

    /// How far `old_head` lies behind the last block that it shares with `new_head`.
    pub fn reorg_depth(&self, old_head: Bytes32, new_head: Bytes32) -> (r: u64)
        requires
            self.wf(),
        ensures
            branch_ends(self@.parents, old_head) ==> is_reorg_depth(
                self@.parents,
                old_head,
                new_head,
                r as nat,
            ),
    {
        let limit: usize = self.parents.len();
        let ghost parents = self.parents@;
        proof {
            self.parents.lemma_len();
        }
        let mut node = old_head;
        let mut depth: usize = 0;
        loop
            invariant
                depth <= limit,
                self.wf(),
                parents == self.parents@,
                parents == self@.parents,
                parents.dom().finite(),
                limit == parents.dom().len(),
                branch(parents, old_head, depth as nat) == Some(node),
                forall|i: nat|
                    i < depth ==> !on_branch(
                        parents,
                        new_head,
                        (#[trigger] branch(parents, old_head, i)).unwrap(),
                    ),
            decreases limit - depth,
        {
            if self.steps_to(new_head, node).is_some() {
                return depth as u64;
            }
            let next: Option<Bytes32> = match self.parents.get(&node) {
                Some(p) => if p.is_zero() {
                    None
                } else {
                    Some(*p)
                },
                None => None,
            };
            match next {
                None => {
                    assert(branch(parents, old_head, (depth + 1) as nat) is None);
                    return depth as u64;
                },
                Some(parent) => {
                    if depth == limit {
                        proof {
                            assert(branch(parents, old_head, parents.dom().len() + 1) is Some);
                            if branch_ends(parents, old_head) {
                                let n = choose|n: nat| branch(parents, old_head, n) is None;
                                lemma_endless(parents, old_head, n);
                            }
                        }
                        return depth as u64;
                    }
                    node = parent;
                    depth = depth + 1;
                },
            }
        }
    }
}

/// A known head stays known when a block is taken in.
pub proof fn law_import_keeps_head_known(
    m: ForkChoiceModel,
    signed: SignedBlockModel,
    post: StateModel,
)
    requires
        m.blocks.contains_key(m.head),
    ensures
        imported(m, signed, post).blocks.contains_key(imported(m, signed, post).head),
{
}

/// Taking in a block never takes a checkpoint back.
pub proof fn law_import_keeps_checkpoints_forward(
    m: ForkChoiceModel,
    signed: SignedBlockModel,
    post: StateModel,
)
    ensures
        imported(m, signed, post).latest_justified.slot.num() >= m.latest_justified.slot.num(),
        imported(m, signed, post).latest_finalized.slot.num() >= m.latest_finalized.slot.num(),
        imported(m, signed, post).latest_justified != m.latest_justified ==> imported(
            m,
            signed,
            post,
        ).previous_justified == m.latest_justified,
{
}

/// Among several children the walk takes one that no other is preferred to.
pub proof fn law_best_child_is_preferred(m: ForkChoiceModel, list: Seq<Bytes32>)
    requires
        list.len() > 0,
    ensures
        list.contains(best_of(m, list)),
        forall|i: int| 0 <= i < list.len() ==> !preferred(m, #[trigger] list[i], best_of(m, list)),
    decreases list.len(),
{
    let best = best_of(m, list);
    if list.len() == 1 {
        assert(list[0] == best);
        crate::containers::justification::lemma_order(best, best, best);
    } else {
        let short = list.drop_last();
        let prior = best_of(m, short);
        let last = list.last();
        law_best_child_is_preferred(m, short);
        crate::containers::justification::lemma_order(last, last, last);
        let k = choose|k: int| 0 <= k < short.len() && short[k] == prior;
        assert(list[k] == prior);
        assert(list[list.len() - 1] == last);
        assert forall|i: int| 0 <= i < list.len() implies !preferred(m, #[trigger] list[i], best) by {
            if i < short.len() {
                assert(list[i] == short[i]);
                if preferred(m, list[i], best) && best == last {
                    crate::containers::justification::lemma_order(list[i], last, prior);
                }
            }
        }
    }
}

/// A parent has at least the votes of each child.
pub proof fn law_weight_grows_towards_the_root(
    parents: Map<Bytes32, Bytes32>,
    votes: Map<usize, Bytes32>,
    child: Bytes32,
    parent: Bytes32,
)
    requires
        votes.dom().finite(),
        child != Bytes32::zero_value(),
        branch(parents, child, 1) == Some(parent),
    ensures
        weight(parents, votes, child) <= weight(parents, votes, parent),
{
    assert(met_at(parents, child, parent, 1));
    assert forall|v: usize| supporters(parents, votes, child).contains(v) implies supporters(
        parents,
        votes,
        parent,
    ).contains(v) by {
        law_descent_is_transitive(parents, votes[v], child, parent);
    }
    vstd::set_lib::lemma_len_subset(
        supporters(parents, votes, child),
        supporters(parents, votes, parent),
    );
}

/// A head that grows out of the old head reorganizes nothing.
pub proof fn law_growth_is_no_reorg(
    parents: Map<Bytes32, Bytes32>,
    old_head: Bytes32,
    new_head: Bytes32,
    d: nat,
)
    requires
        on_branch(parents, new_head, old_head),
        is_reorg_depth(parents, old_head, new_head, d),
    ensures
        !is_reorg(parents, old_head, new_head),
        d == 0,
{
    assert(branch(parents, old_head, 0) == Some(old_head));
}

proof fn lemma_descent_path(
    m: ForkChoiceModel,
    height: spec_fn(Bytes32) -> nat,
    current: Bytes32,
    steps: nat,
    seen: Set<Bytes32>,
)
    requires
        m.children.dom().finite(),
        forall|p: Bytes32, r: Bytes32|
            #![trigger m.children[p].contains(r)]
            m.children.contains_key(p) && m.children[p].contains(r) ==> height(p) < height(r),
        seen.subset_of(m.children.dom()),
        forall|x: Bytes32| #[trigger] seen.contains(x) ==> height(x) < height(current),
        seen.len() + steps >= m.children.dom().len(),
    ensures
        ({
            let leaf = descend(m, current, steps);
            !m.children.contains_key(leaf) || m.children[leaf].len() == 0
        }),
    decreases steps,
{
    vstd::set_lib::lemma_set_subset_finite(m.children.dom(), seen);
    if m.children.contains_key(current) && m.children[current].len() > 0 {
        assert(!seen.contains(current));
        let more = seen.insert(current);
        assert(more.subset_of(m.children.dom()));
        vstd::set_lib::lemma_len_subset(more, m.children.dom());
        if steps > 0 {
            let next = best_of(m, m.children[current]);
            law_best_child_is_preferred(m, m.children[current]);
            assert(m.children[current].contains(next));
            lemma_descent_path(m, height, next, (steps - 1) as nat, more);
        }
    }
}

/// In a tree, where every child lies higher than its parent, the walk ends in a leaf.
pub proof fn law_head_is_a_leaf(m: ForkChoiceModel, height: spec_fn(Bytes32) -> nat)
    requires
        m.blocks.contains_key(m.latest_justified.root),
        m.children.dom().finite(),
        forall|p: Bytes32, r: Bytes32|
            #![trigger m.children[p].contains(r)]
            m.children.contains_key(p) && m.children[p].contains(r) ==> height(p) < height(r),
    ensures
        !m.children.contains_key(found_head(m)) || m.children[found_head(m)].len() == 0,
{
    lemma_descent_path(
        m,
        height,
        m.latest_justified.root,
        m.children.dom().len(),
        Set::<Bytes32>::empty(),
    );
}

/// The checkpoint of a block, if the store knows it.
pub open spec fn checkpoint_of(m: ForkChoiceModel, root: Bytes32) -> Option<Checkpoint> {
    if m.blocks.contains_key(root) {
        Some(Checkpoint { root, slot: Slot(Uint64(slot_of(m, root))) })
    } else {
        None
    }
}

proof fn lemma_branch_ended(
    parents: Map<Bytes32, Bytes32>,
    node: Bytes32,
    ancestor: Bytes32,
    n: nat,
)
    requires
        branch(parents, node, n + 1) is None,
        forall|m: nat| m <= n ==> #[trigger] branch(parents, node, m) != Some(ancestor),
    ensures
        !on_branch(parents, node, ancestor),
{
    if on_branch(parents, node, ancestor) {
        let far = choose|far: nat| branch(parents, node, far) == Some(ancestor);
        if far > n {
            lemma_branch_prefix(parents, node, n + 1, far);
        }
    }
}

proof fn lemma_walk_ended(
    parents: Map<Bytes32, Bytes32>,
    node: Bytes32,
    ancestor: Bytes32,
    n: nat,
)
    requires
        branch(parents, node, n + 1) is None,
        forall|m: nat| m <= n ==> !#[trigger] met_at(parents, node, ancestor, m),
    ensures
        !descends(parents, node, ancestor),
{
    if descends(parents, node, ancestor) {
        let far = choose|far: nat| met_at(parents, node, ancestor, far);
        if far > n {
            lemma_branch_prefix(parents, node, n + 1, far);
        }
    }
}

/// Taking in a block keeps the tree consistent.
pub proof fn lemma_with_block_wf(m: ForkChoiceModel, signed: SignedBlockModel, post: StateModel)
    requires
        tree_wf(m),
    ensures
        tree_wf(with_block(m, signed, post)),
{
    let next = with_block(m, signed, post);
    let b = signed.message.block;
    let root = b.root_value();
    let p0 = b.parent_root;
    assert(next.blocks.dom() =~= next.states.dom());
    assert(next.blocks.dom() =~= next.parents.dom());
    let siblings = if m.children.contains_key(p0) {
        m.children[p0]
    } else {
        Seq::empty()
    };
    let kids = siblings.push(root);
    assert(next.children[p0] == kids);
    assert(kids[siblings.len() as int] == root);
    assert forall|r: Bytes32| siblings.contains(r) implies #[trigger] kids.contains(r) by {
        let i = choose|i: int| 0 <= i < siblings.len() && siblings[i] == r;
        assert(kids[i] == r);
    }
    assert forall|r: Bytes32| #[trigger] kids.contains(r) implies siblings.contains(r) || r
        == root by {
        let i = choose|i: int| 0 <= i < kids.len() && kids[i] == r;
        if i < siblings.len() {
            assert(siblings[i] == r);
        }
    }
    assert forall|r: Bytes32| #[trigger] next.parents.contains_key(
        r,
    ) implies next.children.contains_key(next.parents[r]) && next.children[next.parents[r]].contains(
        r,
    ) by {
        if r != root {
            assert(m.parents.contains_key(r));
            assert(m.children[m.parents[r]].contains(r));
        }
    }
    assert forall|p: Bytes32, r: Bytes32|
        next.children.contains_key(p) && #[trigger] next.children[p].contains(
            r,
        ) implies next.parents.contains_key(r) by {
        if p == p0 {
            if r != root {
                assert(m.children[p0].contains(r));
            }
        } else {
            assert(m.children[p].contains(r));
        }
    }
}

/// Taking in a block that is new, or known under the same parent, keeps the lists of children
/// in step with the parents.
pub proof fn law_children_match_parents(
    m: ForkChoiceModel,
    signed: SignedBlockModel,
    post: StateModel,
)
    requires
        tree_wf(m),
        children_match_parents(m),
        ({
            let b = signed.message.block;
            m.parents.contains_key(b.root_value()) ==> m.parents[b.root_value()] == b.parent_root
        }),
    ensures
        children_match_parents(imported(m, signed, post)),
{
    lemma_with_block_wf(m, signed, post);
    let next = with_block(m, signed, post);
    let b = signed.message.block;
    let root = b.root_value();
    let p0 = b.parent_root;
    let siblings = if m.children.contains_key(p0) {
        m.children[p0]
    } else {
        Seq::empty()
    };
    let kids = siblings.push(root);
    assert forall|p: Bytes32, r: Bytes32|
        (next.children.contains_key(p) && #[trigger] next.children[p].contains(r)) <==> (
        next.parents.contains_key(r) && next.parents[r] == p) by {
        if next.children.contains_key(p) && next.children[p].contains(r) {
            if p == p0 {
                let i = choose|i: int| 0 <= i < kids.len() && kids[i] == r;
                if i < siblings.len() {
                    assert(siblings[i] == r);
                    assert(m.children[p0].contains(r));
                }
            } else {
                assert(m.children[p].contains(r));
            }
        }
        if next.parents.contains_key(r) && next.parents[r] == p {
            assert(next.children[next.parents[r]].contains(r));
        }
    }
    assert(imported(m, signed, post).children == next.children);
    assert(imported(m, signed, post).parents == next.parents);
}

} // verus!
