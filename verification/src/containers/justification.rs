//! Votes for checkpoints: the window of justified slots, the tally of pending votes, and
//! the rules by which attestations justify and finalize checkpoints.

use crate::containers::attestation::{Attestation, AttestationModel};
use crate::containers::checkpoint::Checkpoint;
use crate::containers::state::{State, StateModel, HISTORICAL_ROOTS_LIMIT, JUSTIFICATION_VALIDATORS_LIMIT};
use crate::keyed_map::RootMap;
use crate::slot;
use crate::slot::Slot;
use crate::types::bitlist::BitList;
use crate::types::bytes;
use crate::types::bytes::Bytes32;
use crate::types::uint::Uint64;
use vstd::prelude::*;

verus! {

/// The number of set bits.
pub open spec fn count_set(bits: Seq<bool>) -> nat
    decreases bits.len(),
{
    if bits.len() == 0 {
        0
    } else {
        count_set(bits.drop_last()) + (if bits.last() { 1nat } else { 0nat })
    }
}

/// Setting a clear bit adds one to the count.
pub proof fn lemma_count_set_update(bits: Seq<bool>, i: int)
    requires
        0 <= i < bits.len(),
        !bits[i],
    ensures
        count_set(bits.update(i, true)) == count_set(bits) + 1,
    decreases bits.len(),
{
    let after = bits.update(i, true);
    if i == bits.len() - 1 {
        assert(after.drop_last() =~= bits.drop_last());
    } else {
        assert(after.drop_last() =~= bits.drop_last().update(i, true));
        lemma_count_set_update(bits.drop_last(), i);
    }
}

/// No more bits are set than there are.
pub proof fn lemma_count_set_bound(bits: Seq<bool>)
    ensures
        count_set(bits) <= bits.len(),
    decreases bits.len(),
{
    if bits.len() > 0 {
        lemma_count_set_bound(bits.drop_last());
    }
}

/// More set bits count for more.
pub proof fn lemma_count_set_monotone(a: Seq<bool>, b: Seq<bool>)
    requires
        a.len() == b.len(),
        forall|i: int| 0 <= i < a.len() && a[i] ==> b[i],
    ensures
        count_set(a) <= count_set(b),
    decreases a.len(),
{
    if a.len() > 0 {
        lemma_count_set_monotone(a.drop_last(), b.drop_last());
    }
}

/// No bit is set.
pub open spec fn no_votes(n: nat) -> Seq<bool> {
    Seq::new(n, |i: int| false)
}

proof fn lemma_no_votes(n: nat)
    ensures
        count_set(no_votes(n)) == 0,
    decreases n,
{
    if n > 0 {
        assert(no_votes(n).drop_last() =~= no_votes((n - 1) as nat));
        lemma_no_votes((n - 1) as nat);
    }
}

/// The voters so far, with the participants of one more attestation.
pub open spec fn merged(votes: Seq<bool>, participants: Seq<bool>) -> Seq<bool> {
    Seq::new(votes.len(), |i: int| votes[i] || (i < participants.len() && participants[i]))
}

/// Who voted for one target.
#[derive(Clone, Debug)]
pub struct JustificationVotes {
    /// Bit `i` is set when validator `i` voted.
    pub bits: Vec<bool>,
    /// The number of set bits.
    pub count: usize,
}

impl JustificationVotes {
    /// The count is right.
    pub open spec fn wf(self) -> bool {
        self.count == count_set(self.bits@)
    }

    /// Nobody has voted.
    pub fn new(validator_count: usize) -> (r: Self)
        ensures
            r.wf(),
            r.bits@ == no_votes(validator_count as nat),
    {
        let mut bits: Vec<bool> = Vec::new();
        let mut i: usize = 0;
        while i < validator_count
            invariant
                i <= validator_count,
                bits@ == no_votes(i as nat),
            decreases validator_count - i,
        {
            bits.push(false);
            assert(bits@ =~= no_votes((i + 1) as nat));
            i = i + 1;
        }
        proof {
            lemma_no_votes(validator_count as nat);
        }
        JustificationVotes { bits, count: 0 }
    }

    fn duplicate(&self) -> (r: Self)
        ensures
            r.bits@ == self.bits@,
            r.count == self.count,
    {
        JustificationVotes {
            bits: vstd::slice::slice_to_vec(self.bits.as_slice()),
            count: self.count,
        }
    }

    fn set(&mut self, i: usize)
        requires
            old(self).wf(),
            i < old(self).bits@.len(),
        ensures
            final(self).wf(),
            final(self).bits@ == old(self).bits@.update(i as int, true),
    {
        if !self.bits[i] {
            proof {
                lemma_count_set_update(self.bits@, i as int);
                lemma_count_set_bound(self.bits@.update(i as int, true));
            }
            let total: usize = self.bits.len();
            assert(self.count < total);
            self.bits.set(i, true);
            self.count = self.count + 1;
        } else {
            assert(self.bits@.update(i as int, true) =~= self.bits@);
        }
    }
}

/// Adds the participants of an attestation to the voters.
pub fn merge_participant_votes_from_bits<const LIMIT: usize>(
    votes: &mut JustificationVotes,
    participants: &BitList<LIMIT>,
)
    requires
        old(votes).wf(),
    ensures
        final(votes).wf(),
        final(votes).bits@ == merged(old(votes).bits@, participants@),
{
    let n: usize = votes.bits.len();
    let ghost before = votes.bits@;
    let mut i: usize = 0;
    while i < n
        invariant
            i <= n,
            n == votes.bits@.len(),
            n == before.len(),
            votes.wf(),
            forall|k: int| 0 <= k < i ==> votes.bits@[k] == merged(before, participants@)[k],
            forall|k: int| i <= k < n ==> votes.bits@[k] == before[k],
        decreases n - i,
    {
        if participants.is_set(i) {
            votes.set(i);
        }
        i = i + 1;
    }
    assert(votes.bits@ =~= merged(before, participants@));
}

/// The slot is justified: it is finalized, or its bit in the window is set. Bit `i` of the
/// window stands for slot `finalized + 1 + i`.
pub open spec fn slot_justified(window: Seq<bool>, finalized: Slot, s: Slot) -> bool {
    ||| s.num() <= finalized.num()
    ||| {
        let idx = s.num() - finalized.num() - 1;
        idx < window.len() && window[idx]
    }
}

/// Tells whether the slot is justified.
pub fn is_slot_justified(window: &Vec<bool>, finalized: Slot, s: Slot) -> (r: bool)
    ensures
        r == slot_justified(window@, finalized, s),
{
    if s.0.0 <= finalized.0.0 {
        return true;
    }
    let idx: u64 = s.0.0 - finalized.0.0 - 1;
    idx < window.len() as u64 && window[idx as usize]
}

/// The window, filled up with clear bits to at least `len`.
pub open spec fn extended(window: Seq<bool>, len: int) -> Seq<bool> {
    if len <= window.len() {
        window
    } else {
        window + Seq::new((len - window.len()) as nat, |i: int| false)
    }
}

/// Fills the window up with clear bits to at least `len`.
pub fn extend_window(window: &mut Vec<bool>, len: u64)
    ensures
        final(window)@ == extended(old(window)@, len as int),
{
    let ghost before = window@;
    while (window.len() as u64) < len
        invariant
            before.len() <= window@.len(),
            window@.len() > before.len() ==> window@.len() <= len,
            window@ == extended(before, window@.len() as int),
        decreases len - window@.len(),
    {
        window.push(false);
        assert(window@ =~= extended(before, window@.len() as int));
    }
    assert(window@ =~= extended(before, len as int));
}

/// The window with the bit of `s` set. Slots up to the finalized one have no bit.
pub open spec fn with_slot_justified(window: Seq<bool>, finalized: Slot, s: Slot) -> Seq<bool> {
    let idx = s.num() - finalized.num() - 1;
    if idx < 0 {
        window
    } else {
        extended(window, idx + 1).update(idx, true)
    }
}

/// Records the slot as justified. At or below the finalized slot nothing is recorded.
pub fn set_justified_slot(window: &mut Vec<bool>, finalized: Slot, s: Slot) -> (r: Result<
    (),
    String,
>)
    ensures
        match r {
            Ok(()) => s.num() - finalized.num() - 1 < HISTORICAL_ROOTS_LIMIT && final(window)@
                == with_slot_justified(old(window)@, finalized, s),
            Err(e) => s.num() - finalized.num() - 1 >= HISTORICAL_ROOTS_LIMIT && final(window)@
                == old(window)@ && e@ == "justified slot exceeds limit"@,
        },
{
    if s.0.0 <= finalized.0.0 {
        return Ok(());
    }
    let idx: u64 = s.0.0 - finalized.0.0 - 1;
    if idx >= HISTORICAL_ROOTS_LIMIT as u64 {
        return Err("justified slot exceeds limit".to_string());
    }
    extend_window(window, idx + 1);
    window.set(idx as usize, true);
    Ok(())
}

/// No slot strictly between `source` and `target` can be justified.
pub open spec fn next_justifiable(source: Slot, target: Slot, finalized: Slot) -> bool {
    &&& source.num() < target.num()
    &&& forall|s: Slot|
        source.num() < s.num() < target.num() ==> #[trigger] slot::justifiable_after(s, finalized)
            != Ok::<bool, Seq<char>>(true)
}

/// Tells whether `target` is the next slot behind `source` that can be justified.
pub fn is_next_valid_justifiable_slot(source: Slot, target: Slot, finalized: Slot) -> (r: bool)
    ensures
        r == next_justifiable(source, target, finalized),
{
    if target.0.0 <= source.0.0 {
        return false;
    }
    let mut raw: u64 = source.0.0 + 1;
    while raw < target.0.0
        invariant
            source.0.0 < raw <= target.0.0,
            forall|s: Slot|
                source.num() < s.num() < raw ==> #[trigger] slot::justifiable_after(s, finalized)
                    != Ok::<bool, Seq<char>>(true),
        decreases target.0.0 - raw,
    {
        let s = Slot(Uint64(raw));
        let found: bool = match slot::is_justifiable_after(s, finalized) {
            Ok(b) => b,
            Err(_) => false,
        };
        if found {
            assert(slot::justifiable_after(s, finalized) == Ok::<bool, Seq<char>>(true));
            return false;
        }
        proof {
            assert forall|t: Slot|
                source.num() < t.num() < raw + 1 implies #[trigger] slot::justifiable_after(
                t,
                finalized,
            ) != Ok::<bool, Seq<char>>(true) by {
                if t.num() == raw {
                    assert(t == s);
                }
            }
        }
        raw = raw + 1;
    }
    true
}

/// The window behind a later finalized slot: the first `delta` bits are gone.
pub open spec fn shifted(window: Seq<bool>, delta: int) -> Seq<bool> {
    if delta >= window.len() {
        Seq::empty()
    } else {
        window.subrange(delta, window.len() as int)
    }
}

/// Drops the first `delta` bits of the window.
pub fn shift_justified_window(window: &mut Vec<bool>, delta: u64)
    ensures
        final(window)@ == shifted(old(window)@, delta as int),
{
    let n: usize = window.len();
    let mut out: Vec<bool> = Vec::new();
    if delta < n as u64 {
        let from: usize = delta as usize;
        let mut i: usize = from;
        while i < n
            invariant
                from <= i <= n,
                n == window@.len(),
                out@ == window@.subrange(from as int, i as int),
            decreases n - i,
        {
            out.push(window[i]);
            assert(out@ =~= window@.subrange(from as int, i + 1));
            i = i + 1;
        }
    }
    *window = out;
}

/// Moving the window to a later finalized slot changes no answer about the slots behind it.
pub proof fn law_shift_keeps_answers(window: Seq<bool>, finalized: Slot, later: Slot, s: Slot)
    requires
        finalized.num() <= later.num(),
        s.num() > later.num(),
    ensures
        slot_justified(shifted(window, later.num() - finalized.num()), later, s) == slot_justified(
            window,
            finalized,
            s,
        ),
{
}

/// Recording a slot as justified makes it justified and changes no other slot.
pub proof fn law_set_justifies_one_slot(window: Seq<bool>, finalized: Slot, s: Slot, other: Slot)
    ensures
        slot_justified(with_slot_justified(window, finalized, s), finalized, s),
        other != s ==> slot_justified(with_slot_justified(window, finalized, s), finalized, other)
            == slot_justified(window, finalized, other),
{
}

/// The slots of the known roots of a history: for a root that occurs more than once, the last.
pub open spec fn root_slots(history: Seq<Bytes32>) -> Map<Bytes32, Slot>
    decreases history.len(),
{
    if history.len() == 0 {
        Map::empty()
    } else {
        let before = root_slots(history.drop_last());
        if history.last() == Bytes32::zero_value() {
            before
        } else {
            before.insert(history.last(), Slot(Uint64((history.len() - 1) as u64)))
        }
    }
}

/// The slots of all roots that votes can refer to: the history and the latest block.
pub open spec fn known_slots(s: StateModel) -> Map<Bytes32, Slot> {
    let known = root_slots(s.historical_block_hashes);
    let latest = s.latest_block_header.root_value();
    if latest != Bytes32::zero_value() && !known.contains_key(latest) {
        known.insert(latest, s.latest_block_header.slot)
    } else {
        known
    }
}

fn build_historical_root_slots(history: &Vec<Bytes32>) -> (r: RootMap<Slot>)
    ensures
        r.wf(),
        r@ == root_slots(history@),
{
    let mut out: RootMap<Slot> = RootMap::new();
    let mut i: usize = 0;
    assert(history@.take(0) =~= Seq::empty());
    while i < history.len()
        invariant
            i <= history@.len(),
            out.wf(),
            out@ == root_slots(history@.take(i as int)),
        decreases history@.len() - i,
    {
        assert(history@.take(i + 1).drop_last() =~= history@.take(i as int));
        if !history[i].is_zero() {
            out.insert(history[i], Slot(Uint64(i as u64)));
        }
        i = i + 1;
    }
    assert(history@.take(i as int) =~= history@);
    out
}

/// The voters for the root at position `r`, as the flat bit list holds them. A row of whole
/// bytes that the list does not cover counts as empty.
pub open spec fn vote_row(flat: Seq<bool>, n: nat, r: int) -> Seq<bool> {
    if n % 8 == 0 && (r + 1) * (n / 8) > (flat.len() + 7) / 8 {
        no_votes(n)
    } else {
        Seq::new(n, |v: int| r * n + v < flat.len() && flat[r * n + v])
    }
}

/// The pending votes of the first `k` roots.
pub open spec fn pending_votes(roots: Seq<Bytes32>, flat: Seq<bool>, n: nat, k: nat) -> Map<
    Bytes32,
    Seq<bool>,
>
    decreases k,
{
    if k == 0 {
        Map::empty()
    } else {
        pending_votes(roots, flat, n, (k - 1) as nat).insert(roots[k - 1], vote_row(flat, n, k - 1))
    }
}

/// The voters of each target.
pub open spec fn votes_of(m: Map<Bytes32, JustificationVotes>) -> Map<Bytes32, Seq<bool>> {
    Map::new(|k: Bytes32| m.contains_key(k), |k: Bytes32| m[k].bits@)
}

/// Every entry has one bit for each validator and the right count.
pub open spec fn votes_wf(m: Map<Bytes32, JustificationVotes>, n: nat) -> bool {
    forall|k: Bytes32| #[trigger] m.contains_key(k) ==> m[k].wf() && m[k].bits@.len() == n
}

/// The product of two sizes.
fn product(a: usize, b: usize) -> (r: u128)
    ensures
        r == a * b,
        r <= 0xffff_ffff_ffff_ffff * 0xffff_ffff_ffff_ffff,
{
    assert(0 <= a * b <= 0xffff_ffff_ffff_ffff * 0xffff_ffff_ffff_ffff) by (nonlinear_arith)
        requires
            0 <= a <= 0xffff_ffff_ffff_ffff,
            0 <= b <= 0xffff_ffff_ffff_ffff,
    ;
    a as u128 * b as u128
}

/// Reads the voters of one root.
fn read_row(flat: &BitList<JUSTIFICATION_VALIDATORS_LIMIT>, n: usize, r: usize) -> (row:
    JustificationVotes)
    ensures
        row.wf(),
        row.bits@ == vote_row(flat@, n as nat, r as int),
{
    let mut row = JustificationVotes::new(n);
    let len: usize = flat.len();
    if n % 8 == 0 {
        let have: u128 = (len as u128 + 7) / 8;
        let each: usize = n / 8;
        assert((r + 1) * each == r * each + each) by (nonlinear_arith);
        if product(r, each) + each as u128 > have {
            return row;
        }
    }
    let ghost base = r * n;
    let mut v: usize = 0;
    let start: u128 = product(r, n);
    while v < n
        invariant
            v <= n,
            n == row.bits@.len(),
            len == flat@.len(),
            row.wf(),
            start == base,
            base == r * n,
            0 <= base <= 0xffff_ffff_ffff_ffff * 0xffff_ffff_ffff_ffff,
            forall|k: int|
                0 <= k < v ==> row.bits@[k] == (base + k < flat@.len() && flat@[base + k]),
            forall|k: int| v <= k < n ==> !row.bits@[k],
        decreases n - v,
    {
        let at: u128 = start + v as u128;
        if at < len as u128 {
            if flat.is_set(at as usize) {
                row.set(v);
            }
        }
        v = v + 1;
    }
    assert(row.bits@ =~= vote_row(flat@, n as nat, r as int));
    row
}

/// Reads the pending votes out of a state.
fn decode_justification_votes(state: &State, n: usize) -> (r: RootMap<JustificationVotes>)
    ensures
        r.wf(),
        votes_wf(r@, n as nat),
        votes_of(r@) == pending_votes(
            state.justifications_roots.data@,
            state.justifications_validators@,
            n as nat,
            state.justifications_roots.data@.len(),
        ),
{
    let mut out: RootMap<JustificationVotes> = RootMap::new();
    let count: usize = state.justifications_roots.data.len();
    let mut i: usize = 0;
    assert(votes_of(out@) =~= Map::empty());
    while i < count
        invariant
            i <= count,
            count == state.justifications_roots.data@.len(),
            out.wf(),
            votes_wf(out@, n as nat),
            votes_of(out@) == pending_votes(
                state.justifications_roots.data@,
                state.justifications_validators@,
                n as nat,
                i as nat,
            ),
        decreases count - i,
    {
        let ghost before = out@;
        let row = read_row(&state.justifications_validators, n, i);
        let root = state.justifications_roots.data[i];
        out.insert(root, row);
        assert(votes_of(out@) =~= votes_of(before).insert(root, row.bits@));
        i = i + 1;
    }
    out
}

/// `keys` lists the set in ascending order.
pub open spec fn lists_ascending(keys: Seq<Bytes32>, set: Set<Bytes32>) -> bool {
    &&& forall|i: int, j: int|
        0 <= i < j < keys.len() ==> bytes::bytes_less((#[trigger] keys[i])@, (#[trigger] keys[j])@)
    &&& forall|k: Bytes32| set.contains(k) <==> keys.contains(k)
}

/// The set in ascending order.
pub open spec fn ascending(set: Set<Bytes32>) -> Seq<Bytes32> {
    choose|keys: Seq<Bytes32>| lists_ascending(keys, set)
}

/// The order of roots is irreflexive and transitive.
pub proof fn lemma_order(a: Bytes32, b: Bytes32, c: Bytes32)
    ensures
        !bytes::bytes_less(a@, a@),
        bytes::bytes_less(a@, b@) && bytes::bytes_less(b@, c@) ==> bytes::bytes_less(a@, c@),
{
    if bytes::bytes_less(a@, b@) && bytes::bytes_less(b@, c@) {
        let i = choose|i: int| bytes::splits_less(a@, b@, i);
        let j = choose|j: int| bytes::splits_less(b@, c@, j);
        let m = if i < j { i } else { j };
        assert(bytes::splits_less(a@, c@, m));
    }
}

/// Two different roots are ordered one way or the other.
pub proof fn lemma_order_total(a: Bytes32, b: Bytes32)
    requires
        a != b,
    ensures
        bytes::bytes_less(a@, b@) || bytes::bytes_less(b@, a@),
{
    lemma_order_total_from(a, b, 0);
}

proof fn lemma_order_total_from(a: Bytes32, b: Bytes32, k: int)
    requires
        a != b,
        0 <= k <= 32,
        forall|j: int| 0 <= j < k ==> a@[j] == b@[j],
    ensures
        bytes::bytes_less(a@, b@) || bytes::bytes_less(b@, a@),
    decreases 32 - k,
{
    if k == 32 {
        assert(a@ =~= b@);
        Bytes32::lemma_ext(a, b);
    } else if a@[k] < b@[k] {
        assert(bytes::splits_less(a@, b@, k));
    } else if b@[k] < a@[k] {
        assert(bytes::splits_less(b@, a@, k));
    } else {
        lemma_order_total_from(a, b, k + 1);
    }
}

/// A set has one ascending listing.
pub proof fn lemma_ascending_unique(a: Seq<Bytes32>, b: Seq<Bytes32>, set: Set<Bytes32>)
    requires
        lists_ascending(a, set),
        lists_ascending(b, set),
    ensures
        a == b,
    decreases a.len(),
{
    if a.len() == 0 {
        if b.len() > 0 {
            assert(b.contains(b[0]));
            assert(a.contains(b[0]));
        }
        assert(a =~= b);
    } else {
        let x = a.last();
        assert(a.contains(x));
        assert(b.contains(x));
        let p = choose|p: int| 0 <= p < b.len() && b[p] == x;
        let y = b.last();
        assert(b.contains(y));
        assert(a.contains(y));
        let q = choose|q: int| 0 <= q < a.len() && a[q] == y;
        if p != b.len() - 1 {
            assert(bytes::bytes_less(b[p]@, b[b.len() - 1]@));
            if q != a.len() - 1 {
                assert(bytes::bytes_less(a[q]@, a[a.len() - 1]@));
            }
            lemma_order(x, y, x);
        }
        assert(x == y);
        let rest = set.remove(x);
        lemma_drop_largest(a, set);
        lemma_drop_largest(b, set);
        lemma_ascending_unique(a.drop_last(), b.drop_last(), rest);
        assert(a =~= a.drop_last().push(x));
        assert(b =~= b.drop_last().push(x));
    }
}

proof fn lemma_drop_largest(a: Seq<Bytes32>, set: Set<Bytes32>)
    requires
        lists_ascending(a, set),
        a.len() > 0,
    ensures
        lists_ascending(a.drop_last(), set.remove(a.last())),
{
    let x = a.last();
    let short = a.drop_last();
    assert forall|i: int, j: int| 0 <= i < j < short.len() implies bytes::bytes_less(
        (#[trigger] short[i])@,
        (#[trigger] short[j])@,
    ) by {
        assert(short[i] == a[i] && short[j] == a[j]);
    }
    assert forall|k: Bytes32| set.remove(x).contains(k) <==> short.contains(k) by {
        if set.remove(x).contains(k) {
            let i = choose|i: int| 0 <= i < a.len() && a[i] == k;
            assert(short[i] == k);
        }
        if short.contains(k) {
            let i = choose|i: int| 0 <= i < short.len() && short[i] == k;
            assert(a[i] == k);
            assert(a.contains(k));
            assert(bytes::bytes_less(a[i]@, a[a.len() - 1]@));
            lemma_order(k, x, k);
        }
    }
}

/// The position at which `root` belongs in an ascending listing.
fn insertion_point(keys: &Vec<Bytes32>, root: &Bytes32) -> (r: usize)
    requires
        forall|i: int, j: int|
            0 <= i < j < keys@.len() ==> bytes::bytes_less(
                (#[trigger] keys@[i])@,
                (#[trigger] keys@[j])@,
            ),
        !keys@.contains(*root),
    ensures
        r <= keys@.len(),
        forall|i: int| 0 <= i < r ==> bytes::bytes_less((#[trigger] keys@[i])@, root@),
        forall|i: int| r <= i < keys@.len() ==> bytes::bytes_less(root@, (#[trigger] keys@[i])@),
{
    let mut i: usize = 0;
    while i < keys.len() && keys[i].precedes(root)
        invariant
            i <= keys@.len(),
            forall|j: int| 0 <= j < i ==> bytes::bytes_less((#[trigger] keys@[j])@, root@),
        decreases keys@.len() - i,
    {
        i = i + 1;
    }
    proof {
        assert forall|j: int| i <= j < keys@.len() implies bytes::bytes_less(
            root@,
            (#[trigger] keys@[j])@,
        ) by {
            assert(keys@.contains(keys@[i as int]));
            lemma_order_total(keys@[i as int], *root);
            if j > i {
                lemma_order(*root, keys@[i as int], keys@[j]);
            }
        }
    }
    i
}

/// The keys of a map in ascending order.
pub fn sorted_keys<V>(m: &RootMap<V>) -> (r: Vec<Bytes32>)
    requires
        m.wf(),
    ensures
        lists_ascending(r@, m@.dom()),
        r@ == ascending(m@.dom()),
        r@.len() == m.key_seq().len(),
{
    let mut keys: Vec<Bytes32> = Vec::new();
    let n: usize = m.len();
    let mut i: usize = 0;
    proof {
        m.lemma_keys();
    }
    while i < n
        invariant
            i <= n,
            n == m.key_seq().len(),
            m.wf(),
            m.key_seq().no_duplicates(),
            keys@.len() == i,
            forall|a: int, b: int|
                0 <= a < b < keys@.len() ==> bytes::bytes_less(
                    (#[trigger] keys@[a])@,
                    (#[trigger] keys@[b])@,
                ),
            forall|k: Bytes32|
                keys@.contains(k) <==> exists|j: int| 0 <= j < i && m.key_seq()[j] == k,
        decreases n - i,
    {
        let root = *m.key_at(i);
        let ghost before = keys@;
        proof {
            if before.contains(root) {
                let j = choose|j: int| 0 <= j < i && m.key_seq()[j] == root;
                assert(m.key_seq()[j] != m.key_seq()[i as int]);
            }
        }
        let at: usize = insertion_point(&keys, &root);
        keys.insert(at, root);
        proof {
            assert forall|a: int, b: int| 0 <= a < b < keys@.len() implies bytes::bytes_less(
                (#[trigger] keys@[a])@,
                (#[trigger] keys@[b])@,
            ) by {
                if b < at {
                    assert(keys@[a] == before[a] && keys@[b] == before[b]);
                } else if b == at {
                    assert(keys@[a] == before[a]);
                } else if a < at {
                    assert(keys@[a] == before[a] && keys@[b] == before[b - 1]);
                } else if a == at {
                    assert(keys@[b] == before[b - 1]);
                } else {
                    assert(keys@[a] == before[a - 1] && keys@[b] == before[b - 1]);
                }
            }
            assert forall|k: Bytes32|
                keys@.contains(k) <==> exists|j: int| 0 <= j < i + 1 && m.key_seq()[j] == k by {
                if keys@.contains(k) {
                    let a = choose|a: int| 0 <= a < keys@.len() && keys@[a] == k;
                    if a < at {
                        assert(before[a] == k);
                        assert(before.contains(k));
                    } else if a > at {
                        assert(before[a - 1] == k);
                        assert(before.contains(k));
                    } else {
                        assert(m.key_seq()[i as int] == k);
                    }
                }
                if exists|j: int| 0 <= j < i + 1 && m.key_seq()[j] == k {
                    let j = choose|j: int| 0 <= j < i + 1 && m.key_seq()[j] == k;
                    if j == i {
                        assert(keys@[at as int] == k);
                    } else {
                        assert(before.contains(k));
                        let a = choose|a: int| 0 <= a < before.len() && before[a] == k;
                        if a < at {
                            assert(keys@[a] == k);
                        } else {
                            assert(keys@[a + 1] == k);
                        }
                    }
                }
            }
        }
        i = i + 1;
    }
    proof {
        assert forall|k: Bytes32| m@.dom().contains(k) <==> keys@.contains(k) by {
            if m@.contains_key(k) {
                let j = choose|j: int| 0 <= j < m.key_seq().len() && m.key_seq()[j] == k;
                assert(m.key_seq()[j] == k);
            }
            if keys@.contains(k) {
                let j = choose|j: int| 0 <= j < i && m.key_seq()[j] == k;
                assert(m@.contains_key(m.key_seq()[j]));
            }
        }
        assert(lists_ascending(keys@, m@.dom()));
        lemma_ascending_unique(keys@, ascending(m@.dom()), m@.dom());
    }
    keys
}

/// The votes for `roots`, row by row.
pub open spec fn flat_votes(roots: Seq<Bytes32>, votes: Map<Bytes32, Seq<bool>>, n: nat) -> Seq<
    bool,
> {
    Seq::new(roots.len() * n, |i: int| votes[roots[i / n as int]][i % n as int])
}

/// What storing the pending votes gives: the roots and the flat bit list, or a refusal.
pub open spec fn stored_votes(votes: Map<Bytes32, Seq<bool>>, n: nat) -> Result<
    (Seq<Bytes32>, Seq<bool>),
    Seq<char>,
> {
    let roots = ascending(votes.dom());
    if roots.len() * n > JUSTIFICATION_VALIDATORS_LIMIT {
        Err("justification vote bitmap exceeds limit"@)
    } else if roots.len() > HISTORICAL_ROOTS_LIMIT {
        Err("justification roots exceed their limit"@)
    } else {
        Ok((roots, flat_votes(roots, votes, n)))
    }
}

/// Lays out the pending votes for storage.
fn encode_justification_votes(votes: &RootMap<JustificationVotes>, n: usize) -> (r: Result<
    (Vec<Bytes32>, Vec<bool>),
    String,
>)
    requires
        votes.wf(),
        votes_wf(votes@, n as nat),
        n > 0,
    ensures
        match r {
            Ok((roots, flat)) => stored_votes(votes_of(votes@), n as nat) == Ok::<
                (Seq<Bytes32>, Seq<bool>),
                Seq<char>,
            >((roots@, flat@)),
            Err(e) => stored_votes(votes_of(votes@), n as nat) == Err::<
                (Seq<Bytes32>, Seq<bool>),
                Seq<char>,
            >(e@),
        },
{
    let roots = sorted_keys(votes);
    assert(votes_of(votes@).dom() =~= votes@.dom());
    let total: u128 = product(roots.len(), n);
    if total > JUSTIFICATION_VALIDATORS_LIMIT as u128 {
        return Err("justification vote bitmap exceeds limit".to_string());
    }
    if roots.len() > HISTORICAL_ROOTS_LIMIT {
        return Err("justification roots exceed their limit".to_string());
    }
    let count: usize = roots.len();
    let ghost model = votes_of(votes@);
    let mut flat: Vec<bool> = Vec::new();
    let mut i: usize = 0;
    assert(0 * n == 0);
    while i < count
        invariant
            i <= count,
            count == roots@.len(),
            n > 0,
            votes.wf(),
            votes_wf(votes@, n as nat),
            lists_ascending(roots@, votes@.dom()),
            model == votes_of(votes@),
            flat@.len() == i * n,
            forall|k: int|
                0 <= k < i * n ==> flat@[k] == model[roots@[k / n as int]][k % n as int],
        decreases count - i,
    {
        assert(roots@.contains(roots@[i as int]));
        assert(votes@.contains_key(roots@[i as int]));
        if let Some(row) = votes.get(&roots[i]) {
            let mut v: usize = 0;
            while v < n
                invariant
                    v <= n,
                    n > 0,
                    i < count,
                    count == roots@.len(),
                    row.bits@.len() == n,
                    votes@.contains_key(roots@[i as int]),
                    *row == votes@[roots@[i as int]],
                    model == votes_of(votes@),
                    flat@.len() == i * n + v,
                    forall|k: int|
                        0 <= k < i * n + v ==> flat@[k] == model[roots@[k / n as int]][k
                            % n as int],
                decreases n - v,
            {
                let ghost at = i * n + v;
                proof {
                    vstd::arithmetic::div_mod::lemma_fundamental_div_mod_converse(
                        at,
                        n as int,
                        i as int,
                        v as int,
                    );
                }
                let ghost before = flat@;
                flat.push(row.bits[v]);
                proof {
                    assert forall|k: int| 0 <= k < i * n + (v + 1) implies flat@[k]
                        == model[roots@[k / n as int]][k % n as int] by {
                        if k < at {
                            assert(flat@[k] == before[k]);
                        }
                    }
                }
                v = v + 1;
            }
        }
        assert((i + 1) * n == i * n + n) by (nonlinear_arith);
        i = i + 1;
    }
    assert(flat@ =~= flat_votes(roots@, model, n as nat));
    Ok((roots, flat))
}

/// The state of vote processing between two attestations.
#[verifier::ext_equal]
pub struct TallyModel {
    /// Latest justified checkpoint.
    pub justified: Checkpoint,
    /// Latest finalized checkpoint.
    pub finalized: Checkpoint,
    /// Justified slots behind the finalized one.
    pub window: Seq<bool>,
    /// Voters of each pending target, once a vote has counted.
    pub votes: Option<Map<Bytes32, Seq<bool>>>,
}

/// The vote's target is a known block: in the history at its slot, or the latest block.
pub open spec fn target_known(s: StateModel, target: Checkpoint) -> bool {
    let history = s.historical_block_hashes;
    ||| target.slot.num() < history.len() && history[target.slot.num()] == target.root
    ||| {
        &&& target.slot.num() == history.len()
        &&& target.slot == s.latest_block_header.slot
        &&& target.root == s.latest_block_header.root_value()
    }
}

/// The vote fits the chain: it leads from a known source to a later, known target.
pub open spec fn vote_fits(s: StateModel, vote: AttestationModel) -> bool {
    let source = vote.data.source;
    let target = vote.data.target;
    let history = s.historical_block_hashes;
    &&& source.slot.num() < target.slot.num()
    &&& source.root != Bytes32::zero_value()
    &&& target.root != Bytes32::zero_value()
    &&& source.slot.num() < history.len()
    &&& history[source.slot.num()] == source.root
    &&& target_known(s, target)
}

/// The slot can be justified after the finalized one.
pub open spec fn can_be_justified(target: Slot, finalized: Slot) -> bool {
    slot::justifiable_after(target, finalized) == Ok::<bool, Seq<char>>(true)
}

/// The vote counts: it fits the chain, its source is justified, and its target is not
/// justified yet and can be justified after the finalized slot of the state.
pub open spec fn vote_counts(s: StateModel, t: TallyModel, vote: AttestationModel) -> bool {
    let target = vote.data.target.slot;
    &&& vote_fits(s, vote)
    &&& can_be_justified(target, s.latest_finalized.slot)
    &&& !slot_justified(t.window, t.finalized.slot, target)
    &&& slot_justified(t.window, t.finalized.slot, vote.data.source.slot)
}

/// The pending votes that a state holds.
pub open spec fn state_votes(s: StateModel) -> Map<Bytes32, Seq<bool>> {
    pending_votes(
        s.justifications_roots,
        s.justifications_validators,
        s.validators.len(),
        s.justifications_roots.len(),
    )
}

/// The pending votes with one more attestation counted.
pub open spec fn votes_with(s: StateModel, t: TallyModel, vote: AttestationModel) -> Map<
    Bytes32,
    Seq<bool>,
> {
    let before = match t.votes {
        Some(v) => v,
        None => state_votes(s),
    };
    let target = vote.data.target.root;
    let row = if before.contains_key(target) {
        before[target]
    } else {
        no_votes(s.validators.len())
    };
    before.insert(target, merged(row, vote.aggregation_bits))
}

/// The pending votes for targets behind the finalized slot.
pub open spec fn votes_behind(
    votes: Map<Bytes32, Seq<bool>>,
    slots: Map<Bytes32, Slot>,
    finalized: Slot,
) -> Map<Bytes32, Seq<bool>> {
    Map::new(
        |k: Bytes32| votes.contains_key(k) && slots[k].num() > finalized.num(),
        |k: Bytes32| votes[k],
    )
}

/// Two thirds of the validators voted.
pub open spec fn supermajority(voters: Seq<bool>, n: nat) -> bool {
    3 * count_set(voters) >= 2 * n
}

/// The next tally, and the refusal that ends processing, if any.
pub open spec fn vote_step(s: StateModel, t: TallyModel, vote: AttestationModel) -> (
    TallyModel,
    Option<Seq<char>>,
) {
    let source = vote.data.source;
    let target = vote.data.target;
    let fin = t.finalized.slot;
    if !vote_counts(s, t, vote) {
        (t, None)
    } else {
        let votes = votes_with(s, t, vote);
        if !supermajority(votes[target.root], s.validators.len()) {
            (TallyModel { votes: Some(votes), ..t }, None)
        } else if target.slot.num() - fin.num() - 1 >= HISTORICAL_ROOTS_LIMIT {
            (
                TallyModel { justified: target, votes: Some(votes), ..t },
                Some("justified slot exceeds limit"@),
            )
        } else {
            let window = with_slot_justified(t.window, fin, target.slot);
            let rest = votes.remove(target.root);
            if !next_justifiable(source.slot, target.slot, fin) {
                (TallyModel { justified: target, window, votes: Some(rest), ..t }, None)
            } else {
                let slots = known_slots(s);
                let next = TallyModel {
                    justified: target,
                    finalized: source,
                    window: shifted(window, source.slot.num() - fin.num()),
                    votes: Some(votes_behind(rest, slots, source.slot)),
                };
                if forall|k: Bytes32| #[trigger] rest.contains_key(k) ==> slots.contains_key(k) {
                    (next, None)
                } else {
                    (
                        TallyModel { votes: Some(rest), ..next },
                        Some("justification root missing from root_to_slot"@),
                    )
                }
            }
        }
    }
}

/// The tally behind the first `k` attestations, and the refusal, if any.
pub open spec fn vote_fold(s: StateModel, votes: Seq<AttestationModel>, k: nat) -> (
    TallyModel,
    Option<Seq<char>>,
)
    decreases k,
{
    if k == 0 {
        (
            TallyModel {
                justified: s.latest_justified,
                finalized: s.latest_finalized,
                window: s.justified_slots,
                votes: None,
            },
            None,
        )
    } else {
        let (t, refusal) = vote_fold(s, votes, (k - 1) as nat);
        if refusal is Some {
            (t, refusal)
        } else {
            vote_step(s, t, votes[k - 1])
        }
    }
}

/// A refusal at one attestation is the refusal of the whole list.
proof fn lemma_fold_refusal(s: StateModel, votes: Seq<AttestationModel>, j: nat, k: nat)
    requires
        j <= k,
        vote_fold(s, votes, j).1 is Some,
    ensures
        vote_fold(s, votes, k) == vote_fold(s, votes, j),
    decreases k - j,
{
    if j < k {
        lemma_fold_refusal(s, votes, j, (k - 1) as nat);
    }
}

/// What processing a list of attestations does: the state behind it, and the answer.
pub open spec fn attested(s: StateModel, votes: Seq<AttestationModel>) -> (
    StateModel,
    Result<(), Seq<char>>,
) {
    if s.validators.len() == 0 {
        (s, Ok(()))
    } else if s.justifications_roots.contains(Bytes32::zero_value()) {
        (s, Err("zero hash is not allowed in justifications roots"@))
    } else {
        let (t, refusal) = vote_fold(s, votes, votes.len());
        let next = StateModel {
            latest_justified: t.justified,
            latest_finalized: t.finalized,
            justified_slots: t.window,
            ..s
        };
        match refusal {
            Some(e) => (next, Err(e)),
            None => match t.votes {
                None => (next, Ok(())),
                Some(pending) => match stored_votes(pending, s.validators.len()) {
                    Err(e) => (next, Err(e)),
                    Ok((roots, flat)) => (
                        StateModel {
                            justifications_roots: roots,
                            justifications_validators: flat,
                            ..next
                        },
                        Ok(()),
                    ),
                },
            },
        }
    }
}

/// Votes change the checkpoints, the window and the pending votes, and nothing else.
pub proof fn lemma_attested_keeps(s: StateModel, votes: Seq<AttestationModel>)
    ensures
        ({
            let a = attested(s, votes).0;
            &&& a.config == s.config
            &&& a.slot == s.slot
            &&& a.latest_block_header == s.latest_block_header
            &&& a.historical_block_hashes == s.historical_block_hashes
            &&& a.validators == s.validators
            &&& a.balances == s.balances
        }),
{
}

proof fn lemma_fold_order(s: StateModel, votes: Seq<AttestationModel>, k: nat)
    requires
        s.latest_finalized.slot.num() <= s.latest_justified.slot.num(),
    ensures
        s.latest_finalized.slot.num() <= vote_fold(s, votes, k).0.finalized.slot.num(),
        vote_fold(s, votes, k).0.finalized.slot.num() <= vote_fold(
            s,
            votes,
            k,
        ).0.justified.slot.num(),
    decreases k,
{
    if k > 0 {
        lemma_fold_order(s, votes, (k - 1) as nat);
        let (t, refusal) = vote_fold(s, votes, (k - 1) as nat);
        if refusal is None {
            law_step_keeps_finality(s, t, votes[k - 1]);
        }
    }
}

/// A vote never takes finality back, and what it justifies is ahead of what is finalized.
pub proof fn law_step_keeps_finality(s: StateModel, t: TallyModel, vote: AttestationModel)
    ensures
        t.finalized.slot.num() <= vote_step(s, t, vote).0.finalized.slot.num(),
        vote_step(s, t, vote).0.justified != t.justified ==> vote_step(
            s,
            t,
            vote,
        ).0.finalized.slot.num() < vote_step(s, t, vote).0.justified.slot.num(),
        vote_step(s, t, vote).0.finalized != t.finalized ==> vote_step(
            s,
            t,
            vote,
        ).0.finalized.slot.num() < vote_step(s, t, vote).0.justified.slot.num(),
{
    let source = vote.data.source.slot;
    let fin = t.finalized.slot;
    if vote_counts(s, t, vote) && source.num() < fin.num() && next_justifiable(
        source,
        vote.data.target.slot,
        fin,
    ) {
        assert(slot::justifiable_after(fin, fin) == Ok::<bool, Seq<char>>(true));
    }
}

/// A vote justifies its target only when it counts and two thirds of the validators stand
/// behind the target.
pub proof fn law_justification_needs_supermajority(
    s: StateModel,
    t: TallyModel,
    vote: AttestationModel,
)
    requires
        vote_step(s, t, vote).0.justified != t.justified,
    ensures
        vote_counts(s, t, vote),
        supermajority(votes_with(s, t, vote)[vote.data.target.root], s.validators.len()),
        vote_step(s, t, vote).0.justified == vote.data.target,
{
}

/// Only a justified source is finalized, and only by its next justifiable slot.
pub proof fn law_finality_needs_adjacent_justification(
    s: StateModel,
    t: TallyModel,
    vote: AttestationModel,
)
    requires
        vote_step(s, t, vote).0.finalized != t.finalized,
    ensures
        vote_step(s, t, vote).0.finalized == vote.data.source,
        slot_justified(t.window, t.finalized.slot, vote.data.source.slot),
        next_justifiable(vote.data.source.slot, vote.data.target.slot, t.finalized.slot),
{
}

/// A target that two thirds voted for is justified afterwards.
pub proof fn law_supermajority_justifies(s: StateModel, t: TallyModel, vote: AttestationModel)
    requires
        vote_counts(s, t, vote),
        supermajority(votes_with(s, t, vote)[vote.data.target.root], s.validators.len()),
        vote_step(s, t, vote).1 is None,
    ensures
        vote_step(s, t, vote).0.justified == vote.data.target,
        slot_justified(
            vote_step(s, t, vote).0.window,
            vote_step(s, t, vote).0.finalized.slot,
            vote.data.target.slot,
        ),
{
    let source = vote.data.source.slot;
    let target = vote.data.target.slot;
    let fin = t.finalized.slot;
    law_set_justifies_one_slot(t.window, fin, target, target);
    if next_justifiable(source, target, fin) {
        if source.num() < fin.num() {
            assert(slot::justifiable_after(fin, fin) == Ok::<bool, Seq<char>>(true));
        }
        law_shift_keeps_answers(with_slot_justified(t.window, fin, target), fin, source, target);
    }
}

/// Finality never goes back, and the justified checkpoint stays at or ahead of it.
pub proof fn law_votes_keep_checkpoint_order(s: StateModel, votes: Seq<AttestationModel>)
    requires
        s.latest_finalized.slot.num() <= s.latest_justified.slot.num(),
    ensures
        s.latest_finalized.slot.num() <= attested(s, votes).0.latest_finalized.slot.num(),
        attested(s, votes).0.latest_finalized.slot.num() <= attested(
            s,
            votes,
        ).0.latest_justified.slot.num(),
{
    lemma_fold_order(s, votes, votes.len());
}

/// Pending votes that were stored are read back as they were.
pub proof fn law_stored_votes_are_read_back(votes: Map<Bytes32, Seq<bool>>, n: nat)
    requires
        n > 0,
        votes.dom().finite(),
        stored_votes(votes, n) is Ok,
        forall|k: Bytes32| #[trigger] votes.contains_key(k) ==> votes[k].len() == n,
    ensures
        ({
            let (roots, flat) = stored_votes(votes, n)->Ok_0;
            pending_votes(roots, flat, n, roots.len()) == votes
        }),
{
    let (roots, flat) = stored_votes(votes, n)->Ok_0;
    lemma_listing_exists(votes.dom());
    assert(lists_ascending(roots, votes.dom()));
    lemma_rows_read_back(votes, roots, n, roots.len());
    let back = pending_votes(roots, flat, n, roots.len());
    assert forall|k: Bytes32| back.contains_key(k) <==> votes.contains_key(k) by {
        if votes.contains_key(k) {
            assert(votes.dom().contains(k));
            assert(roots.contains(k));
            let i = choose|i: int| 0 <= i < roots.len() && roots[i] == k;
            assert(roots[i] == k);
        }
        if back.contains_key(k) {
            let i = choose|i: int| 0 <= i < roots.len() && roots[i] == k;
            assert(roots.contains(k));
        }
    }
    assert(back =~= votes);
}

proof fn lemma_rows_read_back(
    votes: Map<Bytes32, Seq<bool>>,
    roots: Seq<Bytes32>,
    n: nat,
    k: nat,
)
    requires
        n > 0,
        k <= roots.len(),
        lists_ascending(roots, votes.dom()),
        forall|r: Bytes32| #[trigger] votes.contains_key(r) ==> votes[r].len() == n,
    ensures
        ({
            let back = pending_votes(roots, flat_votes(roots, votes, n), n, k);
            &&& forall|r: Bytes32| #[trigger]
                back.contains_key(r) <==> exists|i: int| 0 <= i < k && roots[i] == r
            &&& forall|r: Bytes32| #[trigger] back.contains_key(r) ==> back[r] == votes[r]
        }),
    decreases k,
{
    if k > 0 {
        let i = k - 1;
        let flat = flat_votes(roots, votes, n);
        lemma_rows_read_back(votes, roots, n, i as nat);
        let before = pending_votes(roots, flat, n, i as nat);
        let back = pending_votes(roots, flat, n, k);
        let root = roots[i];
        assert(roots.contains(root));
        assert(votes.dom().contains(root));
        assert((i + 1) * n <= roots.len() * n && i * n + n == (i + 1) * n && i * n >= 0)
            by (nonlinear_arith)
            requires
                0 <= i < roots.len(),
                n > 0,
        ;
        assert(vote_row(flat, n, i) =~= votes[root]) by {
            if n % 8 == 0 {
                assert((i + 1) * (n / 8) <= (flat.len() + 7) / 8) by (nonlinear_arith)
                    requires
                        n % 8 == 0,
                        (i + 1) * n <= flat.len(),
                        i >= 0,
                ;
            }
            assert forall|v: int| 0 <= v < n implies i * n + v < flat.len() && #[trigger] flat[i * n
                + v] == votes[root][v] by {
                vstd::arithmetic::div_mod::lemma_fundamental_div_mod_converse(
                    i * n + v,
                    n as int,
                    i,
                    v,
                );
            }
        }
        assert(back == before.insert(root, votes[root]));
        assert forall|r: Bytes32| #[trigger] back.contains_key(r) <==> exists|j: int|
            0 <= j < k && roots[j] == r by {
            if back.contains_key(r) && r != root {
                let j = choose|j: int| 0 <= j < i && roots[j] == r;
                assert(roots[j] == r);
            }
        }
    }
}

/// A root above all others goes to the end of the listing.
proof fn lemma_push_largest(keys: Seq<Bytes32>, set: Set<Bytes32>, x: Bytes32)
    requires
        lists_ascending(keys, set),
        forall|k: Bytes32| #[trigger] set.contains(k) ==> bytes::bytes_less(k@, x@),
    ensures
        lists_ascending(keys.push(x), set.insert(x)),
{
    let longer = keys.push(x);
    assert forall|i: int, j: int| 0 <= i < j < longer.len() implies bytes::bytes_less(
        (#[trigger] longer[i])@,
        (#[trigger] longer[j])@,
    ) by {
        assert(longer[i] == keys[i]);
        assert(keys.contains(keys[i]));
        assert(set.contains(keys[i]));
        if j < keys.len() {
            assert(longer[j] == keys[j]);
        }
    }
    assert forall|k: Bytes32| set.insert(x).contains(k) <==> longer.contains(k) by {
        if set.contains(k) {
            let i = choose|i: int| 0 <= i < keys.len() && keys[i] == k;
            assert(longer[i] == k);
        }
        if k == x {
            assert(longer[keys.len() as int] == k);
        }
        if longer.contains(k) {
            let i = choose|i: int| 0 <= i < longer.len() && longer[i] == k;
            if i < keys.len() {
                assert(keys[i] == k);
                assert(keys.contains(k));
            }
        }
    }
}

/// A listed set with one more root can be listed.
proof fn lemma_listing_with(keys: Seq<Bytes32>, set: Set<Bytes32>, x: Bytes32)
    requires
        lists_ascending(keys, set),
        !set.contains(x),
    ensures
        exists|longer: Seq<Bytes32>| lists_ascending(longer, set.insert(x)),
    decreases keys.len(),
{
    if keys.len() == 0 {
        assert forall|k: Bytes32| #[trigger] set.contains(k) implies bytes::bytes_less(k@, x@) by {
            assert(keys.contains(k));
        }
        lemma_push_largest(keys, set, x);
    } else {
        let y = keys.last();
        assert(keys.contains(y));
        assert(set.contains(y));
        assert forall|k: Bytes32| #[trigger] set.contains(k) && k != y implies bytes::bytes_less(
            k@,
            y@,
        ) by {
            assert(keys.contains(k));
            let i = choose|i: int| 0 <= i < keys.len() && keys[i] == k;
            assert(bytes::bytes_less(keys[i]@, keys[keys.len() - 1]@));
        }
        if bytes::bytes_less(y@, x@) {
            assert forall|k: Bytes32| #[trigger] set.contains(k) implies bytes::bytes_less(
                k@,
                x@,
            ) by {
                lemma_order(k, y, x);
            }
            lemma_push_largest(keys, set, x);
        } else {
            lemma_order_total(x, y);
            let rest = set.remove(y);
            lemma_drop_largest(keys, set);
            lemma_listing_with(keys.drop_last(), rest, x);
            let shorter = choose|shorter: Seq<Bytes32>| lists_ascending(shorter, rest.insert(x));
            lemma_push_largest(shorter, rest.insert(x), y);
            assert(rest.insert(x).insert(y) =~= set.insert(x));
        }
    }
}

/// Every finite set of roots can be listed in ascending order.
pub proof fn lemma_listing_exists(set: Set<Bytes32>)
    requires
        set.finite(),
    ensures
        exists|keys: Seq<Bytes32>| lists_ascending(keys, set),
    decreases set.len(),
{
    if set.len() == 0 {
        assert(set =~= Set::empty());
        assert(lists_ascending(Seq::empty(), set));
    } else {
        let x = set.choose();
        let rest = set.remove(x);
        lemma_listing_exists(rest);
        let keys = choose|keys: Seq<Bytes32>| lists_ascending(keys, rest);
        lemma_listing_with(keys, rest, x);
        assert(rest.insert(x) =~= set);
    }
}

/// Finitely many targets, none of them zero, with one bit for each validator.
spec fn votes_shaped(votes: Map<Bytes32, Seq<bool>>, n: nat) -> bool {
    &&& votes.dom().finite()
    &&& forall|k: Bytes32| #[trigger]
        votes.contains_key(k) ==> votes[k].len() == n && k != Bytes32::zero_value()
}

proof fn lemma_pending_shaped(roots: Seq<Bytes32>, flat: Seq<bool>, n: nat, k: nat)
    requires
        k <= roots.len(),
        !roots.contains(Bytes32::zero_value()),
    ensures
        votes_shaped(pending_votes(roots, flat, n, k), n),
    decreases k,
{
    if k > 0 {
        lemma_pending_shaped(roots, flat, n, (k - 1) as nat);
        assert(roots.contains(roots[k - 1]));
    }
}

proof fn lemma_step_shaped(s: StateModel, t: TallyModel, vote: AttestationModel)
    requires
        !s.justifications_roots.contains(Bytes32::zero_value()),
        t.votes matches Some(v) ==> votes_shaped(v, s.validators.len()),
    ensures
        vote_step(s, t, vote).0.votes matches Some(v) ==> votes_shaped(v, s.validators.len()),
{
    lemma_pending_shaped(
        s.justifications_roots,
        s.justifications_validators,
        s.validators.len(),
        s.justifications_roots.len(),
    );
    let n = s.validators.len();
    if vote_counts(s, t, vote) {
        let votes = votes_with(s, t, vote);
        assert(votes_shaped(votes, n));
        let rest = votes.remove(vote.data.target.root);
        assert(votes_shaped(rest, n));
        let behind = votes_behind(rest, known_slots(s), vote.data.source.slot);
        assert(behind.dom().subset_of(rest.dom()));
        vstd::set_lib::lemma_set_subset_finite(rest.dom(), behind.dom());
        assert(votes_shaped(behind, n));
    }
}

proof fn lemma_fold_shaped(s: StateModel, votes: Seq<AttestationModel>, k: nat)
    requires
        !s.justifications_roots.contains(Bytes32::zero_value()),
    ensures
        vote_fold(s, votes, k).0.votes matches Some(v) ==> votes_shaped(v, s.validators.len()),
    decreases k,
{
    if k > 0 {
        lemma_fold_shaped(s, votes, (k - 1) as nat);
        lemma_step_shaped(s, vote_fold(s, votes, (k - 1) as nat).0, votes[k - 1]);
    }
}

/// Only finitely many targets have pending votes.
pub proof fn lemma_pending_finite(s: StateModel, votes: Seq<AttestationModel>)
    requires
        !s.justifications_roots.contains(Bytes32::zero_value()),
    ensures
        vote_fold(s, votes, votes.len()).0.votes matches Some(v) ==> v.dom().finite(),
{
    lemma_fold_shaped(s, votes, votes.len());
}

/// Attestations further back do not matter to the tally.
proof fn lemma_fold_prefix(s: StateModel, a: Seq<AttestationModel>, b: Seq<AttestationModel>, k: nat)
    requires
        k <= a.len(),
    ensures
        vote_fold(s, a + b, k) == vote_fold(s, a, k),
    decreases k,
{
    if k > 0 {
        lemma_fold_prefix(s, a, b, (k - 1) as nat);
        assert((a + b)[k - 1] == a[k - 1]);
    }
}

/// The state behind accepted votes holds the pending votes of the tally.
pub proof fn lemma_attested_holds_tally(s: StateModel, votes: Seq<AttestationModel>)
    requires
        s.validators.len() > 0,
        attested(s, votes).1 is Ok,
    ensures
        ({
            let t = vote_fold(s, votes, votes.len()).0;
            let next = attested(s, votes).0;
            &&& !next.justifications_roots.contains(Bytes32::zero_value())
            &&& match t.votes {
                Some(v) => state_votes(next) == v && stored_votes(v, s.validators.len()) == Ok::<
                    (Seq<Bytes32>, Seq<bool>),
                    Seq<char>,
                >((next.justifications_roots, next.justifications_validators)),
                None => next.justifications_roots == s.justifications_roots
                    && next.justifications_validators == s.justifications_validators,
            }
        }),
{
    let t = vote_fold(s, votes, votes.len()).0;
    let next = attested(s, votes).0;
    lemma_fold_shaped(s, votes, votes.len());
    if let Some(v) = t.votes {
        law_stored_votes_are_read_back(v, s.validators.len());
        lemma_listing_exists(v.dom());
        let roots = ascending(v.dom());
        assert(lists_ascending(roots, v.dom()));
        if roots.contains(Bytes32::zero_value()) {
            assert(v.dom().contains(Bytes32::zero_value()));
            assert(v.contains_key(Bytes32::zero_value()));
        }
    }
}

/// The two tallies agree, but that the second takes the pending votes `before` from the
/// state for as long as no vote has counted.
spec fn tallies_agree(
    t: TallyModel,
    u: TallyModel,
    before: Option<Map<Bytes32, Seq<bool>>>,
) -> bool {
    &&& t.justified == u.justified
    &&& t.finalized == u.finalized
    &&& t.window == u.window
    &&& t.votes == (if u.votes is Some { u.votes } else { before })
}

/// Processing never takes finality back.
proof fn lemma_fold_keeps_finality(s: StateModel, votes: Seq<AttestationModel>, k: nat)
    ensures
        s.latest_finalized.slot.num() <= vote_fold(s, votes, k).0.finalized.slot.num(),
    decreases k,
{
    if k > 0 {
        lemma_fold_keeps_finality(s, votes, (k - 1) as nat);
        law_step_keeps_finality(s, vote_fold(s, votes, (k - 1) as nat).0, votes[k - 1]);
    }
}

/// It makes no difference to the vote which of the two finalized slots, the later one at
/// hand, its target is held against.
pub open spec fn judged_alike(
    s: StateModel,
    vote: AttestationModel,
    earlier: Slot,
    later: Slot,
) -> bool {
    let target = vote.data.target.slot;
    vote_fits(s, vote) && target.num() > later.num() ==> can_be_justified(target, earlier)
        == can_be_justified(target, later)
}

proof fn lemma_fold_joined(
    s: StateModel,
    a: Seq<AttestationModel>,
    b: Seq<AttestationModel>,
    k: nat,
)
    requires
        k <= b.len(),
        s.validators.len() > 0,
        attested(s, a).1 is Ok,
        forall|i: int|
            0 <= i < b.len() ==> judged_alike(
                s,
                #[trigger] b[i],
                s.latest_finalized.slot,
                attested(s, a).0.latest_finalized.slot,
            ),
    ensures
        ({
            let (t, p) = vote_fold(s, a + b, a.len() + k);
            let (u, q) = vote_fold(attested(s, a).0, b, k);
            p == q && tallies_agree(t, u, vote_fold(s, a, a.len()).0.votes)
        }),
    decreases k,
{
    let next = attested(s, a).0;
    lemma_attested_holds_tally(s, a);
    if k == 0 {
        lemma_fold_prefix(s, a, b, a.len());
    } else {
        lemma_fold_joined(s, a, b, (k - 1) as nat);
        let (t, p) = vote_fold(s, a + b, (a.len() + k - 1) as nat);
        let (u, q) = vote_fold(next, b, (k - 1) as nat);
        let vote = b[k - 1];
        assert((a + b)[a.len() + k - 1] == vote);
        lemma_fold_keeps_finality(next, b, (k - 1) as nat);
        assert(judged_alike(s, vote, s.latest_finalized.slot, next.latest_finalized.slot));
        if p is None {
            assert(vote_counts(s, t, vote) == vote_counts(next, u, vote));
            assert(votes_with(s, t, vote) == votes_with(next, u, vote));
            assert(known_slots(s) == known_slots(next));
        }
    }
}

/// Attestations count the same in one list as in two, one after the other. In one list,
/// the targets of the later votes are held against the finalized slot before it, in two
/// against the finalized slot in between, so each of these votes must be judged alike
/// against both. That is so wherever the first list leaves the finalized slot as it is.
pub proof fn law_votes_join(s: StateModel, a: Seq<AttestationModel>, b: Seq<AttestationModel>)
    requires
        attested(s, a).1 is Ok,
        forall|i: int|
            0 <= i < b.len() ==> judged_alike(
                s,
                #[trigger] b[i],
                s.latest_finalized.slot,
                attested(s, a).0.latest_finalized.slot,
            ),
    ensures
        attested(s, a + b).1 == attested(attested(s, a).0, b).1,
        attested(s, a + b).1 is Ok ==> attested(s, a + b).0 == attested(attested(s, a).0, b).0,
{
    if s.validators.len() > 0 {
        lemma_fold_joined(s, a, b, b.len());
        lemma_attested_holds_tally(s, a);
        assert((a + b).len() == a.len() + b.len());
    }
}

/// Vote processing between two attestations.
struct Tally {
    justified: Checkpoint,
    finalized: Checkpoint,
    window: Vec<bool>,
    votes: Option<RootMap<JustificationVotes>>,
}

impl Tally {
    spec fn model(&self) -> TallyModel {
        TallyModel {
            justified: self.justified,
            finalized: self.finalized,
            window: self.window@,
            votes: match self.votes {
                Some(m) => Some(votes_of(m@)),
                None => None,
            },
        }
    }

    spec fn wf(&self, n: nat) -> bool {
        self.votes matches Some(m) ==> m.wf() && votes_wf(m@, n)
    }
}

/// The parts of a state that votes are held against.
struct VoteContext<'a> {
    state: &'a State,
    latest_root: Bytes32,
    slots: RootMap<Slot>,
}

impl<'a> VoteContext<'a> {
    spec fn wf(&self) -> bool {
        &&& self.latest_root == self.state.latest_block_header.root_value()
        &&& self.slots.wf()
        &&& self.slots@ == known_slots(self.state@)
    }

    /// Tells whether a vote counts.
    fn counts(&self, t: &Tally, vote: &Attestation) -> (r: bool)
        requires
            self.wf(),
        ensures
            r == vote_counts(self.state@, t.model(), vote@),
    {
        let source = vote.data.source;
        let target = vote.data.target;
        let history = &self.state.historical_block_hashes.data;
        assert(self.state@.historical_block_hashes =~= history@);
        if target.slot.0.0 <= source.slot.0.0 {
            return false;
        }
        if source.root.is_zero() || target.root.is_zero() {
            return false;
        }
        let len: u64 = history.len() as u64;
        if source.slot.0.0 >= len || history[source.slot.0.0 as usize] != source.root {
            return false;
        }
        let in_history: bool = target.slot.0.0 < len && history[target.slot.0.0 as usize]
            == target.root;
        let is_latest: bool = target.slot.0.0 == len && target.slot.0.0
            == self.state.latest_block_header.slot.0.0 && target.root == self.latest_root;
        if !in_history && !is_latest {
            return false;
        }
        let justifiable: bool = match slot::is_justifiable_after(
            target.slot,
            self.state.latest_finalized.slot,
        ) {
            Ok(b) => b,
            Err(_) => false,
        };
        if !justifiable {
            return false;
        }
        if is_slot_justified(&t.window, t.finalized.slot, target.slot) {
            return false;
        }
        is_slot_justified(&t.window, t.finalized.slot, source.slot)
    }

    /// Takes one attestation into the tally.
    fn step(&self, t: &mut Tally, vote: &Attestation) -> (r: Result<(), String>)
        requires
            self.wf(),
            old(t).wf(self.state@.validators.len()),
            self.state@.validators.len() > 0,
        ensures
            final(t).wf(self.state@.validators.len()),
            ({
                let (next, refusal) = vote_step(self.state@, old(t).model(), vote@);
                &&& final(t).model() == next
                &&& match r {
                    Ok(()) => refusal is None,
                    Err(e) => refusal == Some(e@),
                }
            }),
    {
        if !self.counts(t, vote) {
            return Ok(());
        }
        let source = vote.data.source;
        let target = vote.data.target;
        let n: usize = self.state.validators.data.len();
        let ghost t0 = t.model();
        let ghost s = self.state@;
        assert(s.justifications_roots =~= self.state.justifications_roots.data@);
        let mut pending: RootMap<JustificationVotes> = match t.votes.take() {
            Some(m) => m,
            None => decode_justification_votes(self.state, n),
        };
        let ghost before = votes_of(pending@);
        let mut row: JustificationVotes = match pending.get(&target.root) {
            Some(v) => v.duplicate(),
            None => JustificationVotes::new(n),
        };
        merge_participant_votes_from_bits(&mut row, &vote.aggregation_bits);
        let count: usize = row.count;
        let ghost row_bits = row.bits@;
        pending.insert(target.root, row);
        proof {
            assert(votes_of(pending@) =~= before.insert(target.root, row_bits));
            assert(votes_of(pending@) =~= votes_with(s, t0, vote@));
            assert(votes_of(pending@)[target.root] == row_bits);
        }
        if 3 * (count as u128) < 2 * (n as u128) {
            t.votes = Some(pending);
            return Ok(());
        }
        t.justified = target;
        let fin = t.finalized.slot;
        match set_justified_slot(&mut t.window, fin, target.slot) {
            Ok(()) => {},
            Err(e) => {
                t.votes = Some(pending);
                return Err(e);
            },
        }
        let ghost counted = votes_of(pending@);
        pending.remove(&target.root);
        assert(votes_of(pending@) =~= counted.remove(target.root));
        if !is_next_valid_justifiable_slot(source.slot, target.slot, fin) {
            t.votes = Some(pending);
            return Ok(());
        }
        proof {
            if source.slot.num() < fin.num() {
                assert(slot::justifiable_after(fin, fin) == Ok::<bool, Seq<char>>(true));
            }
        }
        t.finalized = source;
        shift_justified_window(&mut t.window, source.slot.0.0 - fin.0.0);
        let complete: bool = self.drop_finalized(&mut pending, source.slot, n);
        t.votes = Some(pending);
        if !complete {
            return Err("justification root missing from root_to_slot".to_string());
        }
        Ok(())
    }

    /// Drops the pending votes for targets that are not behind the finalized slot. When the
    /// slot of some target is unknown, answers false and leaves the votes alone.
    fn drop_finalized(
        &self,
        pending: &mut RootMap<JustificationVotes>,
        finalized: Slot,
        n: usize,
    ) -> (r: bool)
        requires
            self.wf(),
            old(pending).wf(),
            votes_wf(old(pending)@, n as nat),
        ensures
            final(pending).wf(),
            votes_wf(final(pending)@, n as nat),
            r == (forall|k: Bytes32| #[trigger]
                votes_of(old(pending)@).contains_key(k) ==> self.slots@.contains_key(k)),
            r ==> votes_of(final(pending)@) == votes_behind(
                votes_of(old(pending)@),
                self.slots@,
                finalized,
            ),
            !r ==> final(pending)@ == old(pending)@,
    {
        let ghost before = pending@;
        let ghost keys = pending.key_seq();
        let count: usize = pending.len();
        let mut gone: Vec<Bytes32> = Vec::new();
        let mut i: usize = 0;
        proof {
            pending.lemma_keys();
        }
        while i < count
            invariant
                i <= count,
                count == keys.len(),
                pending.wf(),
                pending@ == before,
                votes_wf(before, n as nat),
                pending.key_seq() == keys,
                self.wf(),
                forall|j: int| 0 <= j < i ==> self.slots@.contains_key(#[trigger] keys[j]),
                forall|j: int| 0 <= j < keys.len() ==> before.contains_key(#[trigger] keys[j]),
                forall|k: Bytes32| #[trigger]
                    gone@.contains(k) ==> before.contains_key(k) && self.slots@[k].num()
                        <= finalized.num(),
                forall|j: int|
                    0 <= j < i && self.slots@[#[trigger] keys[j]].num() <= finalized.num()
                        ==> gone@.contains(keys[j]),
            decreases count - i,
        {
            let key = *pending.key_at(i);
            match self.slots.get(&key) {
                None => {
                    assert(votes_of(before).contains_key(key));
                    return false;
                },
                Some(at) => {
                    if at.0.0 <= finalized.0.0 {
                        let ghost g = gone@;
                        gone.push(key);
                        proof {
                            assert forall|k: Bytes32| #[trigger] gone@.contains(k) implies g.contains(
                                k,
                            ) || k == key by {
                                let a = choose|a: int| 0 <= a < gone@.len() && gone@[a] == k;
                                if a < g.len() {
                                    assert(g[a] == k);
                                }
                            }
                            assert forall|k: Bytes32| g.contains(k) implies #[trigger] gone@.contains(
                                k,
                            ) by {
                                let a = choose|a: int| 0 <= a < g.len() && g[a] == k;
                                assert(gone@[a] == k);
                            }
                            assert(gone@[g.len() as int] == key);
                        }
                    }
                },
            }
            i = i + 1;
        }
        proof {
            assert forall|k: Bytes32| #[trigger] votes_of(before).contains_key(
                k,
            ) implies self.slots@.contains_key(k) by {
                assert(before.contains_key(k));
                let j = choose|j: int| 0 <= j < keys.len() && keys[j] == k;
                assert(self.slots@.contains_key(keys[j]));
            }
        }
        let mut j: usize = 0;
        while j < gone.len()
            invariant
                j <= gone@.len(),
                pending.wf(),
                votes_wf(pending@, n as nat),
                forall|k: Bytes32| #[trigger]
                    pending@.contains_key(k) <==> before.contains_key(k) && !gone@.take(
                        j as int,
                    ).contains(k),
                forall|k: Bytes32| #[trigger] pending@.contains_key(k) ==> pending@[k] == before[k],
            decreases gone@.len() - j,
        {
            let ghost done = gone@.take(j as int);
            let ghost next = gone@.take(j + 1);
            let key = gone[j];
            pending.remove(&key);
            proof {
                assert(next =~= done.push(key));
                assert forall|k: Bytes32| next.contains(k) <==> done.contains(k) || k == key by {
                    if done.contains(k) {
                        let a = choose|a: int| 0 <= a < done.len() && done[a] == k;
                        assert(next[a] == k);
                    }
                    if k == key {
                        assert(next[j as int] == k);
                    }
                }
            }
            j = j + 1;
        }
        proof {
            assert(gone@.take(j as int) =~= gone@);
            let target = votes_behind(votes_of(before), self.slots@, finalized);
            assert forall|k: Bytes32| votes_of(pending@).contains_key(k) <==> target.contains_key(
                k,
            ) by {
                if before.contains_key(k) {
                    let a = choose|a: int| 0 <= a < keys.len() && keys[a] == k;
                    assert(self.slots@.contains_key(keys[a]));
                    if self.slots@[keys[a]].num() <= finalized.num() {
                        assert(gone@.contains(keys[a]));
                    }
                }
            }
            assert(votes_of(pending@) =~= target);
        }
        true
    }
}

impl State {
    /// Processes the attestations of a block body.
    ///
    /// Votes that do not count are ignored. A refusal comes only when the state cannot hold
    /// what the votes ask for.
    pub fn process_attestations(
        &mut self,
        attestations: &crate::containers::block::Attestations,
    ) -> (r: Result<(), String>)
        ensures
            final(self)@ == attested(old(self)@, attestations@).0,
            crate::ssz::plain_outcome(r) == attested(old(self)@, attestations@).1,
    {
        let ghost s = self@;
        let n: usize = self.validators.data.len();
        if n == 0 {
            return Ok(());
        }
        assert(s.justifications_roots =~= self.justifications_roots.data@);
        assert(s.historical_block_hashes =~= self.historical_block_hashes.data@);
        if self.has_zero_justification_root() {
            return Err("zero hash is not allowed in justifications roots".to_string());
        }
        let mut slots = build_historical_root_slots(&self.historical_block_hashes.data);
        let latest_root = Bytes32(self.latest_block_header.hash_tree_root());
        if !latest_root.is_zero() && !slots.contains(&latest_root) {
            slots.insert(latest_root, self.latest_block_header.slot);
        }
        let mut t = Tally {
            justified: self.latest_justified,
            finalized: self.latest_finalized,
            window: self.justified_slots.duplicate().bits,
            votes: None,
        };
        let context = VoteContext { state: &*self, latest_root, slots };
        let count: usize = attestations.data.len();
        let mut refusal: Option<String> = None;
        let mut i: usize = 0;
        while i < count && refusal.is_none()
            invariant
                i <= count,
                count == attestations.data@.len(),
                context.wf(),
                context.state@ == s,
                s.validators.len() == n,
                n > 0,
                t.wf(n as nat),
                t.model() == vote_fold(s, attestations@, i as nat).0,
                match refusal {
                    Some(e) => vote_fold(s, attestations@, i as nat).1 == Some(e@),
                    None => vote_fold(s, attestations@, i as nat).1 is None,
                },
            decreases count - i,
        {
            assert(attestations@[i as int] == attestations.data@[i as int]@);
            match context.step(&mut t, &attestations.data[i]) {
                Ok(()) => {},
                Err(e) => {
                    refusal = Some(e);
                },
            }
            i = i + 1;
        }
        proof {
            if refusal is Some {
                lemma_fold_refusal(s, attestations@, i as nat, count as nat);
            }
        }
        self.latest_justified = t.justified;
        self.latest_finalized = t.finalized;
        self.justified_slots = BitList { bits: t.window };
        if let Some(e) = refusal {
            return Err(e);
        }
        if let Some(votes) = t.votes {
            match encode_justification_votes(&votes, n) {
                Err(e) => {
                    return Err(e);
                },
                Ok((roots, flat)) => {
                    self.justifications_roots = crate::types::collections::SszList { data: roots };
                    self.justifications_validators = BitList { bits: flat };
                    assert(self.justifications_roots@ =~= roots@);
                },
            }
        }
        Ok(())
    }

    fn has_zero_justification_root(&self) -> (r: bool)
        ensures
            r == self.justifications_roots.data@.contains(Bytes32::zero_value()),
    {
        let n: usize = self.justifications_roots.data.len();
        let mut i: usize = 0;
        while i < n
            invariant
                i <= n,
                n == self.justifications_roots.data@.len(),
                forall|k: int|
                    0 <= k < i ==> self.justifications_roots.data@[k] != Bytes32::zero_value(),
            decreases n - i,
        {
            if self.justifications_roots.data[i].is_zero() {
                return true;
            }
            i = i + 1;
        }
        false
    }
}

} // verus!
