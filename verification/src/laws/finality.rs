//! When votes justify a checkpoint and when they finalize one.

use crate::containers::attestation::AttestationModel;
use crate::containers::checkpoint::Checkpoint;
use crate::containers::justification;
use crate::containers::justification::TallyModel;
use crate::containers::state::StateModel;
use crate::laws::fork_choice::may_be_justified;
use crate::slot::Slot;
use crate::types::bytes::Bytes32;
use crate::types::uint::Uint64;
use vstd::prelude::*;

verus! {

/// The validators whose bit is set.
pub open spec fn voters(bits: Seq<bool>) -> Set<int> {
    Set::new(|v: int| 0 <= v < bits.len() && bits[v])
}

/// The number of set bits is the number of validators whose bit is set.
pub proof fn law_count_is_the_number_of_voters(bits: Seq<bool>)
    ensures
        voters(bits).finite(),
        justification::count_set(bits) == voters(bits).len(),
    decreases bits.len(),
{
    if bits.len() == 0 {
        assert(voters(bits) =~= Set::empty());
    } else {
        let short = bits.drop_last();
        law_count_is_the_number_of_voters(short);
        let last = bits.len() - 1;
        if bits.last() {
            assert(voters(bits) =~= voters(short).insert(last));
        } else {
            assert(voters(bits) =~= voters(short));
        }
    }
}

/// The checkpoint is a block of the history.
pub open spec fn in_history(s: StateModel, c: Checkpoint) -> bool {
    &&& c.slot.num() < s.historical_block_hashes.len()
    &&& s.historical_block_hashes[c.slot.num()] == c.root
}

/// The checkpoint is the latest block, which stands right behind the history.
pub open spec fn is_latest_block(s: StateModel, c: Checkpoint) -> bool {
    &&& c.slot.num() == s.historical_block_hashes.len()
    &&& c.slot.num() == s.latest_block_header.slot.num()
    &&& c.root == s.latest_block_header.root_value()
}

/// A slot is justified by a finalized slot and the window behind it: it is not later than the
/// finalized slot, or its bit is set. The first bit stands for the slot behind the finalized
/// one.
pub open spec fn is_marked(window: Seq<bool>, finalized: int, slot: int) -> bool {
    slot <= finalized || (slot - finalized <= window.len() && window[slot - finalized - 1])
}

/// The vote links a justified block to a later one that can be justified and is not yet: the
/// source is a block of the history, the target one or the latest block.
pub open spec fn links(
    s: StateModel,
    window: Seq<bool>,
    finalized: int,
    source: Checkpoint,
    target: Checkpoint,
) -> bool {
    &&& source.slot.num() < target.slot.num()
    &&& source.root != Bytes32::zero_value()
    &&& target.root != Bytes32::zero_value()
    &&& in_history(s, source)
    &&& in_history(s, target) || is_latest_block(s, target)
    &&& target.slot.num() >= s.latest_finalized.slot.num()
    &&& may_be_justified(target.slot.num() - s.latest_finalized.slot.num())
    &&& is_marked(window, finalized, source.slot.num())
    &&& !is_marked(window, finalized, target.slot.num())
}

/// No slot strictly between the two can be justified after the finalized slot.
pub open spec fn are_adjacent(source: int, target: int, finalized: int) -> bool {
    forall|x: int|
        source < x < target && x >= finalized ==> !#[trigger] may_be_justified(x - finalized)
}

proof fn lemma_distance(slot: Slot, finalized: Slot)
    ensures
        crate::slot::justifiable_after(slot, finalized) == Ok::<bool, Seq<char>>(true) <==> (
        slot.num() >= finalized.num() && may_be_justified(slot.num() - finalized.num())),
{
    if slot.num() >= finalized.num() {
        let d = slot.num() - finalized.num();
        assert(crate::slot::justifiable_distance(d as nat) <==> may_be_justified(d));
    }
}

/// A slot can be justified exactly when it is not before finality and its distance from it is
/// at most five, a square, or a product of two neighbours; before finality the question is
/// refused.
pub proof fn law_justifiable_slots(slot: Slot, finalized: Slot)
    ensures
        slot.num() >= finalized.num() && may_be_justified(slot.num() - finalized.num())
            ==> crate::slot::justifiable_after(slot, finalized) == Ok::<bool, Seq<char>>(true),
        slot.num() >= finalized.num() && !may_be_justified(slot.num() - finalized.num())
            ==> crate::slot::justifiable_after(slot, finalized) == Ok::<bool, Seq<char>>(false),
        slot.num() < finalized.num() ==> crate::slot::justifiable_after(slot, finalized) is Err,
{
    lemma_distance(slot, finalized);
}

proof fn lemma_adjacent(source: Slot, target: Slot, finalized: Slot)
    requires
        source.num() < target.num(),
    ensures
        justification::next_justifiable(source, target, finalized) <==> are_adjacent(
            source.num(),
            target.num(),
            finalized.num(),
        ),
{
    if justification::next_justifiable(source, target, finalized) {
        assert forall|x: int|
            source.num() < x < target.num() && x >= finalized.num() implies !#[trigger]
            may_be_justified(x - finalized.num()) by {
            let s = Slot(Uint64(x as u64));
            assert(s.num() == x);
            lemma_distance(s, finalized);
            assert(crate::slot::justifiable_after(s, finalized) != Ok::<bool, Seq<char>>(true));
        }
    }
    if are_adjacent(source.num(), target.num(), finalized.num()) {
        assert forall|s: Slot| source.num() < s.num() < target.num() implies #[trigger]
            crate::slot::justifiable_after(s, finalized) != Ok::<bool, Seq<char>>(true) by {
            lemma_distance(s, finalized);
            if s.num() >= finalized.num() {
                assert(!may_be_justified(s.num() - finalized.num()));
            }
        }
    }
}

/// The pending votes for a target before a vote is counted.
pub open spec fn pending_before(s: StateModel, t: TallyModel) -> Map<Bytes32, Seq<bool>> {
    match t.votes {
        Some(v) => v,
        None => justification::state_votes(s),
    }
}

/// The validators that stand behind the vote's target once it is counted: those whose votes
/// were pending, and the participants of the vote.
pub open spec fn standing(
    s: StateModel,
    t: TallyModel,
    vote: AttestationModel,
) -> Set<int> {
    let before = pending_before(s, t);
    let root = vote.data.target.root;
    Set::new(
        |v: int|
            {
                &&& 0 <= v < s.validators.len()
                &&& (before.contains_key(root) && voters(before[root]).contains(v)) || voters(
                    vote.aggregation_bits,
                ).contains(v)
            },
    )
}

/// Every row of pending votes has one bit for each validator.
pub open spec fn rows_fit(s: StateModel, t: TallyModel) -> bool {
    forall|k: Bytes32| #[trigger]
        pending_before(s, t).contains_key(k) ==> pending_before(s, t)[k].len()
            == s.validators.len()
}

proof fn lemma_standing(s: StateModel, t: TallyModel, vote: AttestationModel)
    requires
        rows_fit(s, t),
    ensures
        ({
            let row = justification::votes_with(s, t, vote)[vote.data.target.root];
            &&& row.len() == s.validators.len()
            &&& voters(row) == standing(s, t, vote)
            &&& justification::count_set(row) == standing(s, t, vote).len()
        }),
{
    let row = justification::votes_with(s, t, vote)[vote.data.target.root];
    law_count_is_the_number_of_voters(row);
    assert(voters(row) =~= standing(s, t, vote));
}

/// A vote that does not link a justified block to a later one that can be justified changes
/// nothing.
pub proof fn law_other_votes_are_passed_over(s: StateModel, t: TallyModel, vote: AttestationModel)
    requires
        !links(s, t.window, t.finalized.slot.num(), vote.data.source, vote.data.target),
    ensures
        justification::vote_step(s, t, vote) == (t, None::<Seq<char>>),
{
    lemma_distance(vote.data.target.slot, s.latest_finalized.slot);
}

/// Two thirds justify. Of a vote that links a justified block to a later one, with `c` the
/// number of validators that stand behind the target afterwards and `n` the number of
/// validators: where `3 c < 2 n`, the target's pending votes are those `c` and nothing else
/// changes. Where `3 c >= 2 n`, the target becomes the justified checkpoint and its pending
/// votes are gone. So its slot is justified afterwards exactly when `3 c >= 2 n`. A target too
/// far ahead for the window ends the processing.
pub proof fn law_two_thirds_justify(s: StateModel, t: TallyModel, vote: AttestationModel)
    requires
        rows_fit(s, t),
        links(s, t.window, t.finalized.slot.num(), vote.data.source, vote.data.target),
    ensures
        ({
            let (after, refusal) = justification::vote_step(s, t, vote);
            let target = vote.data.target;
            let c = standing(s, t, vote).len();
            let n = s.validators.len();
            let ahead = target.slot.num() - t.finalized.slot.num() - 1;
            &&& 3 * c < 2 * n ==> {
                &&& refusal is None
                &&& after.justified == t.justified
                &&& after.finalized == t.finalized
                &&& after.window == t.window
                &&& !is_marked(after.window, after.finalized.slot.num(), target.slot.num())
                &&& after.votes matches Some(pending)
                &&& pending.contains_key(target.root)
                &&& voters(pending[target.root]) == standing(s, t, vote)
                &&& pending.remove(target.root) == pending_before(s, t).remove(target.root)
            }
            &&& 3 * c >= 2 * n ==> after.justified == target
            &&& 3 * c >= 2 * n && ahead >= 262_144 ==> refusal == Some(
                "justified slot exceeds limit"@,
            )
            &&& 3 * c >= 2 * n && ahead < 262_144 ==> {
                &&& is_marked(after.window, after.finalized.slot.num(), target.slot.num())
                &&& after.votes matches Some(pending)
                &&& !pending.contains_key(target.root)
            }
        }),
{
    let fin = t.finalized.slot;
    let target = vote.data.target;
    lemma_distance(target.slot, s.latest_finalized.slot);
    lemma_standing(s, t, vote);
    assert(justification::vote_counts(s, t, vote));
    lemma_adjacent(vote.data.source.slot, target.slot, fin);
    let all = justification::votes_with(s, t, vote);
    assert(all.remove(target.root) =~= pending_before(s, t).remove(target.root));
    if are_adjacent(vote.data.source.slot.num(), target.slot.num(), fin.num()) {
        if vote.data.source.slot.num() < fin.num() {
            assert(may_be_justified(fin.num() - fin.num()));
        }
    }
}

/// Adjacent justified blocks finalize. When a vote justifies its target, the source becomes the
/// finalized checkpoint exactly when no slot strictly between source and target can be
/// justified after the finalized slot. A slot behind the new finalized one is justified
/// afterwards exactly when it was before or is the target. Pending votes for other targets stay,
/// but finality drops those whose target lies at or before the new finalized slot.
pub proof fn law_adjacent_blocks_finalize(
    s: StateModel,
    t: TallyModel,
    vote: AttestationModel,
    slot: int,
    other: Bytes32,
)
    requires
        rows_fit(s, t),
        links(s, t.window, t.finalized.slot.num(), vote.data.source, vote.data.target),
        3 * standing(s, t, vote).len() >= 2 * s.validators.len(),
        vote.data.target.slot.num() - t.finalized.slot.num() - 1 < 262_144,
        other != vote.data.target.root,
    ensures
        ({
            let (after, refusal) = justification::vote_step(s, t, vote);
            let source = vote.data.source;
            let target = vote.data.target;
            let before = pending_before(s, t);
            let slots = justification::known_slots(s);
            &&& !are_adjacent(source.slot.num(), target.slot.num(), t.finalized.slot.num()) ==> {
                &&& refusal is None
                &&& after.finalized == t.finalized
                &&& after.votes matches Some(pending)
                &&& pending.contains_key(other) == before.contains_key(other)
                &&& before.contains_key(other) ==> pending[other] == before[other]
            }
            &&& are_adjacent(source.slot.num(), target.slot.num(), t.finalized.slot.num()) ==> {
                &&& after.finalized == source
                &&& refusal is None ==> {
                    &&& after.votes matches Some(pending)
                    &&& before.contains_key(other) ==> slots.contains_key(other)
                    &&& pending.contains_key(other) == (before.contains_key(other)
                        && slots[other].num() > source.slot.num())
                    &&& pending.contains_key(other) ==> pending[other] == before[other]
                }
                &&& refusal is Some ==> exists|k: Bytes32| #[trigger]
                    before.contains_key(k) && k != target.root && !slots.contains_key(k)
            }
            &&& slot > after.finalized.slot.num() ==> (is_marked(
                after.window,
                after.finalized.slot.num(),
                slot,
            ) <==> is_marked(t.window, t.finalized.slot.num(), slot) || slot == target.slot.num())
        }),
{
    let fin = t.finalized.slot;
    let source = vote.data.source;
    let target = vote.data.target;
    lemma_distance(target.slot, s.latest_finalized.slot);
    lemma_standing(s, t, vote);
    assert(justification::vote_counts(s, t, vote));
    lemma_adjacent(source.slot, target.slot, fin);
    let all = justification::votes_with(s, t, vote);
    let rest = all.remove(target.root);
    let before = pending_before(s, t);
    let slots = justification::known_slots(s);
    assert(rest.contains_key(other) == before.contains_key(other));
    assert forall|k: Bytes32| rest.contains_key(k) <==> before.contains_key(k) && k
        != target.root by {}
    if are_adjacent(source.slot.num(), target.slot.num(), fin.num()) {
        if source.slot.num() < fin.num() {
            assert(may_be_justified(fin.num() - fin.num()));
        }
        if exists|k: Bytes32| #[trigger] rest.contains_key(k) && !slots.contains_key(k) {
            let k = choose|k: Bytes32| #[trigger] rest.contains_key(k) && !slots.contains_key(k);
            assert(before.contains_key(k));
        } else if before.contains_key(other) {
            assert(rest.contains_key(other));
        }
    }
}

/// The slot known for a root is the last slot of the history that holds it; a latest block that
/// the history does not hold has its own slot.
pub proof fn law_known_slots(s: StateModel, i: int)
    requires
        s.historical_block_hashes.len() <= u64::MAX,
    ensures
        ({
            let history = s.historical_block_hashes;
            let slots = justification::known_slots(s);
            &&& 0 <= i < history.len() && history[i] != Bytes32::zero_value() && (forall|j: int|
                i < j < history.len() ==> #[trigger] history[j] != history[i])
                ==> slots.contains_key(history[i]) && slots[history[i]].num() == i
            &&& !history.contains(s.latest_block_header.root_value())
                && s.latest_block_header.root_value() != Bytes32::zero_value()
                ==> slots.contains_key(s.latest_block_header.root_value())
                && slots[s.latest_block_header.root_value()] == s.latest_block_header.slot
        }),
{
    let history = s.historical_block_hashes;
    lemma_root_slots(history, s.latest_block_header.root_value());
    if 0 <= i < history.len() {
        lemma_root_slot_at(history, i);
    }
}

proof fn lemma_root_slots(history: Seq<Bytes32>, r: Bytes32)
    ensures
        justification::root_slots(history).contains_key(r) ==> history.contains(r),
    decreases history.len(),
{
    if history.len() > 0 {
        let short = history.drop_last();
        lemma_root_slots(short, r);
        if short.contains(r) {
            let j = choose|j: int| 0 <= j < short.len() && short[j] == r;
            assert(history[j] == r);
        }
        if history.last() == r {
            assert(history[history.len() - 1] == r);
        }
    }
}

proof fn lemma_root_slot_at(history: Seq<Bytes32>, i: int)
    requires
        0 <= i < history.len() <= u64::MAX,
    ensures
        history[i] != Bytes32::zero_value() && (forall|j: int|
            i < j < history.len() ==> #[trigger] history[j] != history[i])
            ==> justification::root_slots(history).contains_key(history[i])
            && justification::root_slots(history)[history[i]].num() == i,
    decreases history.len(),
{
    if i < history.len() - 1 {
        let short = history.drop_last();
        lemma_root_slot_at(short, i);
        assert(short[i] == history[i]);
        if forall|j: int| i < j < history.len() ==> #[trigger] history[j] != history[i] {
            assert forall|j: int| i < j < short.len() implies #[trigger] short[j] != short[i] by {
                assert(history[j] != history[i]);
            }
            assert(history[history.len() - 1] != history[i]);
        }
    }
}

/// The pending votes of a state are whole: no target occurs twice, and each has one bit for
/// every validator, row by row.
pub open spec fn rows_are_whole(s: StateModel) -> bool {
    &&& s.validators.len() > 0
    &&& !s.justifications_roots.contains(Bytes32::zero_value())
    &&& forall|i: int, j: int|
        0 <= i < j < s.justifications_roots.len() ==> #[trigger] s.justifications_roots[i]
            != #[trigger] s.justifications_roots[j]
    &&& s.justifications_validators.len() == s.justifications_roots.len() * s.validators.len()
}

/// The state holds a pending vote of the validator for the target: in the target's row, at the
/// validator's place.
pub open spec fn holds_vote(s: StateModel, root: Bytes32, v: int) -> bool {
    exists|i: int|
        0 <= i < s.justifications_roots.len() && #[trigger] s.justifications_roots[i] == root
            && s.justifications_validators[i * s.validators.len() + v]
}

proof fn lemma_row(s: StateModel, i: int)
    requires
        rows_are_whole(s),
        0 <= i < s.justifications_roots.len(),
    ensures
        ({
            let n = s.validators.len();
            let row = justification::vote_row(s.justifications_validators, n, i);
            &&& row.len() == n
            &&& forall|v: int|
                0 <= v < n ==> #[trigger] row[v] == s.justifications_validators[i * n + v]
        }),
{
    let n = s.validators.len();
    let rows = s.justifications_roots.len();
    let flat = s.justifications_validators;
    assert((i + 1) * n <= rows * n && i * n + n == (i + 1) * n && i * n >= 0) by (nonlinear_arith)
        requires
            0 <= i < rows,
            n > 0,
    ;
    if n % 8 == 0 {
        assert((i + 1) * (n / 8) <= (flat.len() + 7) / 8) by (nonlinear_arith)
            requires
                n % 8 == 0,
                (i + 1) * n <= flat.len(),
                i >= 0,
        ;
    }
}

proof fn lemma_rows(s: StateModel, k: nat)
    requires
        rows_are_whole(s),
        k <= s.justifications_roots.len(),
    ensures
        ({
            let n = s.validators.len();
            let roots = s.justifications_roots;
            let map = justification::pending_votes(roots, s.justifications_validators, n, k);
            &&& forall|r: Bytes32| #[trigger]
                map.contains_key(r) <==> exists|i: int| 0 <= i < k && #[trigger] roots[i] == r
            &&& forall|i: int|
                0 <= i < k ==> map[#[trigger] roots[i]] == justification::vote_row(
                    s.justifications_validators,
                    n,
                    i,
                )
        }),
    decreases k,
{
    if k > 0 {
        lemma_rows(s, (k - 1) as nat);
        let roots = s.justifications_roots;
        let n = s.validators.len();
        let map = justification::pending_votes(roots, s.justifications_validators, n, k);
        let before = justification::pending_votes(
            roots,
            s.justifications_validators,
            n,
            (k - 1) as nat,
        );
        assert forall|r: Bytes32| #[trigger] map.contains_key(r) <==> exists|i: int|
            0 <= i < k && #[trigger] roots[i] == r by {
            if map.contains_key(r) && r != roots[k - 1] {
                assert(before.contains_key(r));
                let i = choose|i: int| 0 <= i < k - 1 && #[trigger] roots[i] == r;
                assert(roots[i] == r);
            }
            if exists|i: int| 0 <= i < k && #[trigger] roots[i] == r {
                let i = choose|i: int| 0 <= i < k && #[trigger] roots[i] == r;
                if i < k - 1 {
                    assert(before.contains_key(r));
                }
            }
        }
        assert forall|i: int| 0 <= i < k implies map[#[trigger] roots[i]]
            == justification::vote_row(s.justifications_validators, n, i) by {
            if i < k - 1 {
                assert(roots[i] != roots[k - 1]);
            }
        }
    }
}

/// What the pending votes of a state say: the targets are its roots, and the voters of a target
/// are those whose bit is set in the target's row.
pub proof fn law_pending_votes_of_a_state(s: StateModel, root: Bytes32, v: int)
    requires
        rows_are_whole(s),
        0 <= v < s.validators.len(),
    ensures
        ({
            let pending = justification::state_votes(s);
            &&& pending.contains_key(root) <==> s.justifications_roots.contains(root)
            &&& pending.contains_key(root) ==> pending[root].len() == s.validators.len()
            &&& holds_vote(s, root, v) <==> pending.contains_key(root) && pending[root][v]
        }),
{
    let roots = s.justifications_roots;
    let pending = justification::state_votes(s);
    lemma_rows(s, roots.len());
    if pending.contains_key(root) {
        let i = choose|i: int| 0 <= i < roots.len() && #[trigger] roots[i] == root;
        lemma_row(s, i);
        assert(roots.contains(root));
        if holds_vote(s, root, v) {
            let j = choose|j: int|
                0 <= j < roots.len() && #[trigger] roots[j] == root
                    && s.justifications_validators[j * s.validators.len() + v];
            lemma_row(s, j);
        }
    }
    if roots.contains(root) {
        let i = choose|i: int| 0 <= i < roots.len() && roots[i] == root;
        assert(roots[i] == root);
    }
    if holds_vote(s, root, v) {
        let j = choose|j: int|
            0 <= j < roots.len() && #[trigger] roots[j] == root
                && s.justifications_validators[j * s.validators.len() + v];
        assert(roots[j] == root);
    }
}

/// The validators behind a target of a state once a vote for it is counted.
pub open spec fn behind_target(s: StateModel, vote: AttestationModel) -> Set<int> {
    Set::new(
        |v: int|
            {
                &&& 0 <= v < s.validators.len()
                &&& holds_vote(s, vote.data.target.root, v) || voters(
                    vote.aggregation_bits,
                ).contains(v)
            },
    )
}

/// The tally before the first vote of a list.
spec fn first_tally(s: StateModel) -> TallyModel {
    TallyModel {
        justified: s.latest_justified,
        finalized: s.latest_finalized,
        window: s.justified_slots,
        votes: None,
    }
}

proof fn lemma_one_vote(s: StateModel, vote: AttestationModel)
    requires
        rows_are_whole(s),
    ensures
        justification::vote_fold(s, seq![vote], 1) == justification::vote_step(
            s,
            first_tally(s),
            vote,
        ),
        rows_fit(s, first_tally(s)),
        standing(s, first_tally(s), vote) == behind_target(s, vote),
{
    let t = first_tally(s);
    reveal_with_fuel(justification::vote_fold, 2);
    assert(seq![vote][0] == vote);
    assert forall|k: Bytes32| #[trigger] pending_before(s, t).contains_key(k) implies pending_before(
        s,
        t,
    )[k].len() == s.validators.len() by {
        law_pending_votes_of_a_state(s, k, 0);
    }
    assert forall|v: int| standing(s, t, vote).contains(v) <==> behind_target(s, vote).contains(
        v,
    ) by {
        if 0 <= v < s.validators.len() {
            law_pending_votes_of_a_state(s, vote.data.target.root, v);
        }
    }
    assert(standing(s, t, vote) =~= behind_target(s, vote));
}

proof fn lemma_stored_rows(s: StateModel, vote: AttestationModel)
    requires
        rows_are_whole(s),
        justification::attested(s, seq![vote]).1 is Ok,
    ensures
        rows_are_whole(justification::attested(s, seq![vote]).0),
        ({
            let t = justification::vote_step(s, first_tally(s), vote).0;
            let next = justification::attested(s, seq![vote]).0;
            t.votes matches Some(pending) ==> justification::state_votes(next) == pending
        }),
{
    let votes = seq![vote];
    let next = justification::attested(s, votes).0;
    lemma_one_vote(s, vote);
    justification::lemma_attested_holds_tally(s, votes);
    let t = justification::vote_fold(s, votes, 1).0;
    assert(votes.len() == 1);
    if let Some(pending) = t.votes {
        let roots = next.justifications_roots;
        justification::lemma_pending_finite(s, votes);
        justification::lemma_listing_exists(pending.dom());
        assert(roots == justification::ascending(pending.dom()));
        assert(justification::lists_ascending(roots, pending.dom()));
        assert forall|i: int, j: int| 0 <= i < j < roots.len() implies #[trigger] roots[i]
            != #[trigger] roots[j] by {
            justification::lemma_order(roots[i], roots[j], roots[i]);
        }
    }
}

/// One vote, from state to state. A vote that does not link a justified block to a later one
/// leaves the state as it is. Of any other, with `c` the number of validators behind the target
/// afterwards and `n` the number of validators, the target becomes the latest justified
/// checkpoint exactly when `3 c >= 2 n`. Below that, the checkpoints and the window stay and the
/// state holds the votes of exactly those `c` validators for the target; from there on, it holds
/// none for it. The source is finalized exactly when the target is justified and no slot between
/// the two can be.
pub proof fn law_one_vote(s: StateModel, vote: AttestationModel, v: int)
    requires
        rows_are_whole(s),
        0 <= v < s.validators.len(),
    ensures
        ({
            let (after, answer) = justification::attested(s, seq![vote]);
            let source = vote.data.source;
            let target = vote.data.target;
            let fin = s.latest_finalized.slot.num();
            let c = behind_target(s, vote).len();
            let n = s.validators.len();
            let linked = links(s, s.justified_slots, fin, source, target);
            &&& !linked ==> after == s && answer is Ok
            &&& answer is Ok ==> rows_are_whole(after)
            &&& linked && 3 * c < 2 * n ==> {
                &&& after.latest_justified == s.latest_justified
                &&& after.latest_finalized == s.latest_finalized
                &&& after.justified_slots == s.justified_slots
                &&& answer is Ok ==> (holds_vote(after, target.root, v) <==> behind_target(
                    s,
                    vote,
                ).contains(v))
            }
            &&& linked && 3 * c >= 2 * n ==> after.latest_justified == target
            &&& linked && 3 * c >= 2 * n && answer is Ok ==> {
                &&& is_marked(
                    after.justified_slots,
                    after.latest_finalized.slot.num(),
                    target.slot.num(),
                )
                &&& !after.justifications_roots.contains(target.root)
                &&& !holds_vote(after, target.root, v)
                &&& are_adjacent(source.slot.num(), target.slot.num(), fin)
                    ==> after.latest_finalized == source
                &&& !are_adjacent(source.slot.num(), target.slot.num(), fin)
                    ==> after.latest_finalized == s.latest_finalized
            }
        }),
{
    let t = first_tally(s);
    let (after, answer) = justification::attested(s, seq![vote]);
    let target = vote.data.target;
    lemma_one_vote(s, vote);
    assert(seq![vote].len() == 1);
    if answer is Ok {
        lemma_stored_rows(s, vote);
        law_pending_votes_of_a_state(after, target.root, v);
    }
    if links(s, t.window, t.finalized.slot.num(), vote.data.source, target) {
        law_two_thirds_justify(s, t, vote);
        let (u, refusal) = justification::vote_step(s, t, vote);
        if 3 * behind_target(s, vote).len() < 2 * s.validators.len() {
            let pending = u.votes->Some_0;
            assert(voters(pending[target.root]).contains(v) <==> behind_target(s, vote).contains(
                v,
            ));
            if answer is Ok {
                assert(justification::state_votes(after) == pending);
            }
        } else if target.slot.num() - t.finalized.slot.num() - 1 < 262_144 {
            let other = if target.root == Bytes32::zero_value() {
                s.latest_justified.root
            } else {
                Bytes32::zero_value()
            };
            law_adjacent_blocks_finalize(s, t, vote, 0, other);
        }
    } else {
        law_other_votes_are_passed_over(s, t, vote);
    }
}

/// Without votes, and without validators, nothing changes.
pub proof fn law_no_votes(s: StateModel, votes: Seq<AttestationModel>)
    ensures
        s.validators.len() == 0 ==> justification::attested(s, votes) == (s, Ok::<(), Seq<char>>(())),
        !s.justifications_roots.contains(Bytes32::zero_value()) ==> justification::attested(
            s,
            Seq::empty(),
        ) == (s, Ok::<(), Seq<char>>(())),
{
}

} // verus!
