//! What gossip validation knows of the chain.

use vstd::prelude::*;

use crate::containers::state::{State, StateModel};
use crate::slot::Slot;
use crate::storage::{BlockTable, TableModel};
use crate::types::bytes::Bytes32;
use crate::types::uint::Uint64;

verus! {

/// Number of slots that the cache of recent roots covers.
pub const RECENT_ROOT_CACHE_LEN: usize = 200;

/// What gossip validation knows of the chain.
pub trait GossipContext {
    /// The slot in progress, if it is known.
    spec fn current(&self) -> Option<Slot>;

    /// The latest finalized slot, if it is known.
    spec fn finalized(&self) -> Option<Slot>;

    /// Whether a block root is known.
    spec fn knows(&self, root: Bytes32) -> bool;

    /// The slot in progress, if it is known.
    fn current_slot(&self) -> (r: Option<Slot>)
        ensures
            r == self.current(),
    ;

    /// The latest finalized slot, if it is known.
    fn finalized_slot(&self) -> (r: Option<Slot>)
        ensures
            r == self.finalized(),
    ;

    /// Whether a block root is known.
    fn knows_block_root(&self, root: &Bytes32) -> (r: bool)
        ensures
            r == self.knows(*root),
    ;
}

/// A context without information: no slot is known, and every root may be.
#[derive(Clone, Copy, Debug)]
pub struct NoopGossipContext;

impl GossipContext for NoopGossipContext {
    open spec fn current(&self) -> Option<Slot> {
        None
    }

    open spec fn finalized(&self) -> Option<Slot> {
        None
    }

    open spec fn knows(&self, root: Bytes32) -> bool {
        true
    }

    fn current_slot(&self) -> (r: Option<Slot>) {
        None
    }

    fn finalized_slot(&self) -> (r: Option<Slot>) {
        None
    }

    fn knows_block_root(&self, _root: &Bytes32) -> (r: bool) {
        true
    }
}

/// A root with its slot.
#[derive(Clone, Copy, Debug, PartialEq, Eq)]
pub struct RecentRootEntry {
    /// Slot of the block.
    pub slot: u64,
    /// Root of the block.
    pub root: Bytes32,
}

/// The roots of the latest slots, each at its slot modulo the cache's length.
#[derive(Clone, Debug)]
pub struct RecentRootCache {
    entries: Vec<Option<RecentRootEntry>>,
    latest_header_slot: u64,
    state_slot: u64,
}

/// The value of a [`RecentRootCache`].
#[verifier::ext_equal]
pub struct CacheModel {
    pub entries: Seq<Option<RecentRootEntry>>,
    pub latest_header_slot: u64,
    pub state_slot: u64,
}

impl View for RecentRootCache {
    type V = CacheModel;

    closed spec fn view(&self) -> CacheModel {
        CacheModel {
            entries: self.entries@,
            latest_header_slot: self.latest_header_slot,
            state_slot: self.state_slot,
        }
    }
}

/// No entries.
pub open spec fn no_entries() -> Seq<Option<RecentRootEntry>> {
    Seq::new(RECENT_ROOT_CACHE_LEN as nat, |i: int| None::<RecentRootEntry>)
}

/// The entries with one more root at its slot's place.
pub open spec fn with_entry(
    entries: Seq<Option<RecentRootEntry>>,
    slot: u64,
    root: Bytes32,
) -> Seq<Option<RecentRootEntry>> {
    entries.update(
        (slot % (RECENT_ROOT_CACHE_LEN as u64)) as int,
        Some(RecentRootEntry { slot, root }),
    )
}

/// The first slot of a history that the cache covers.
pub open spec fn cache_start(history: Seq<Bytes32>) -> int {
    if history.len() > RECENT_ROOT_CACHE_LEN {
        history.len() - RECENT_ROOT_CACHE_LEN
    } else {
        0
    }
}

/// The entries after the history from the cache's start up to `k`.
pub open spec fn with_history(
    entries: Seq<Option<RecentRootEntry>>,
    history: Seq<Bytes32>,
    k: int,
) -> Seq<Option<RecentRootEntry>>
    decreases k,
{
    if k <= cache_start(history) {
        entries
    } else {
        let before = with_history(entries, history, k - 1);
        if history[k - 1] == Bytes32::zero_value() {
            before
        } else {
            with_entry(before, (k - 1) as u64, history[k - 1])
        }
    }
}

/// The entries for a state.
pub open spec fn entries_for(s: StateModel) -> Seq<Option<RecentRootEntry>> {
    with_history(
        with_entry(
            no_entries(),
            s.latest_block_header.slot.0.0,
            s.latest_block_header.root_value(),
        ),
        s.historical_block_hashes,
        s.historical_block_hashes.len() as int,
    )
}

/// A root is among the entries.
pub open spec fn holds_root(entries: Seq<Option<RecentRootEntry>>, root: Bytes32) -> bool {
    exists|i: int| 0 <= i < entries.len() && is_entry_of(#[trigger] entries[i], root)
}

/// An entry is there and names a root.
pub open spec fn is_entry_of(e: Option<RecentRootEntry>, root: Bytes32) -> bool {
    match e {
        Some(e) => e.root == root,
        None => false,
    }
}

impl CacheModel {
    /// The cache after a look at a state. It is filled anew where the slots of the
    /// state or of its header have changed.
    pub open spec fn refreshed(self, s: StateModel) -> CacheModel {
        if self.latest_header_slot == s.latest_block_header.slot.0.0 && self.state_slot
            == s.slot.0.0 {
            self
        } else {
            CacheModel {
                entries: entries_for(s),
                latest_header_slot: s.latest_block_header.slot.0.0,
                state_slot: s.slot.0.0,
            }
        }
    }
}

impl RecentRootCache {
    /// The cache has its full length.
    pub closed spec fn wf(&self) -> bool {
        self.entries@.len() == RECENT_ROOT_CACHE_LEN
    }

    /// A cache that has not looked at a state yet.
    pub fn new() -> (r: Self)
        ensures
            r.wf(),
            r@ == (CacheModel {
                entries: no_entries(),
                latest_header_slot: u64::MAX,
                state_slot: u64::MAX,
            }),
    {
        RecentRootCache {
            entries: Self::empty_entries(),
            latest_header_slot: u64::MAX,
            state_slot: u64::MAX,
        }
    }

    fn empty_entries() -> (r: Vec<Option<RecentRootEntry>>)
        ensures
            r@ == no_entries(),
    {
        let mut out: Vec<Option<RecentRootEntry>> = Vec::new();
        let mut i: usize = 0;
        while i < RECENT_ROOT_CACHE_LEN
            invariant
                i <= RECENT_ROOT_CACHE_LEN,
                out@ == no_entries().take(i as int),
            decreases RECENT_ROOT_CACHE_LEN - i,
        {
            out.push(None);
            assert(out@ =~= no_entries().take(i + 1));
            i = i + 1;
        }
        assert(out@ =~= no_entries());
        out
    }

    fn insert(&mut self, slot: u64, root: Bytes32)
        requires
            old(self).wf(),
        ensures
            final(self).wf(),
            final(self)@ == (CacheModel {
                entries: with_entry(old(self)@.entries, slot, root),
                ..old(self)@
            }),
    {
        let place: usize = (slot % (RECENT_ROOT_CACHE_LEN as u64)) as usize;
        self.entries.set(place, Some(RecentRootEntry { slot, root }));
    }

    /// Looks at a state.
    pub fn refresh_from_state(&mut self, state: &State)
        requires
            old(self).wf(),
        ensures
            final(self).wf(),
            final(self)@ == old(self)@.refreshed(state@),
    {
        let latest_header_slot: u64 = state.latest_block_header.slot.0.0;
        let state_slot: u64 = state.slot.0.0;
        if self.latest_header_slot == latest_header_slot && self.state_slot == state_slot {
            return;
        }
        self.entries = Self::empty_entries();
        let latest_header_root = Bytes32(state.latest_block_header.hash_tree_root());
        self.insert(latest_header_slot, latest_header_root);
        let ghost base = self@.entries;
        let history = &state.historical_block_hashes.data;
        let n: usize = history.len();
        let start: usize = if n > RECENT_ROOT_CACHE_LEN {
            n - RECENT_ROOT_CACHE_LEN
        } else {
            0
        };
        let mut i: usize = start;
        while i < n
            invariant
                start == cache_start(history@),
                start <= i <= n,
                n == history@.len(),
                self.wf(),
                self@.entries == with_history(base, history@, i as int),
            decreases n - i,
        {
            let root = history[i];
            if !root.is_zero() {
                self.insert(i as u64, root);
            }
            i = i + 1;
        }
        self.latest_header_slot = latest_header_slot;
        self.state_slot = state_slot;
        assert(history@ =~= state@.historical_block_hashes);
    }

    /// Whether a root is in the cache.
    pub fn contains(&self, root: &Bytes32) -> (r: bool)
        ensures
            r == holds_root(self@.entries, *root),
    {
        let mut i: usize = 0;
        while i < self.entries.len()
            invariant
                i <= self.entries@.len(),
                forall|j: int| 0 <= j < i ==> !is_entry_of(#[trigger] self.entries@[j], *root),
            decreases self.entries@.len() - i,
        {
            if let Some(e) = self.entries[i] {
                if e.root == *root {
                    assert(is_entry_of(self@.entries[i as int], *root));
                    return true;
                }
            }
            assert(!is_entry_of(self.entries@[i as int], *root));
            i = i + 1;
        }
        assert forall|j: int| 0 <= j < self@.entries.len() implies !is_entry_of(
            #[trigger] self@.entries[j],
            *root,
        ) by {
            assert(!is_entry_of(self.entries@[j], *root));
        }
        false
    }
}

/// A state names a root as that of its header or of one of its checkpoints.
pub open spec fn names_root(s: StateModel, root: Bytes32) -> bool {
    root == s.latest_block_header.root_value() || root == s.latest_justified.root || root
        == s.latest_finalized.root
}

/// A context over a state, with a slot clock and a table of blocks where there are any.
pub struct StateGossipContext<'a> {
    state: &'a State,
    slot_clock: Option<u64>,
    store: Option<&'a BlockTable>,
    recent_roots: RecentRootCache,
}

/// The value of a [`StateGossipContext`].
#[verifier::ext_equal]
pub struct ContextModel {
    pub state: StateModel,
    pub slot_clock: Option<u64>,
    pub store: Option<TableModel>,
    pub recent_roots: CacheModel,
}

impl<'a> View for StateGossipContext<'a> {
    type V = ContextModel;

    closed spec fn view(&self) -> ContextModel {
        ContextModel {
            state: self.state@,
            slot_clock: self.slot_clock,
            store: match self.store {
                Some(t) => Some(t@),
                None => None,
            },
            recent_roots: self.recent_roots@,
        }
    }
}

impl ContextModel {
    /// The slot in progress: the clock's where there is one, else the state's.
    pub open spec fn current(self) -> Option<Slot> {
        match self.slot_clock {
            Some(n) => Some(Slot(Uint64(n))),
            None => Some(self.state.slot),
        }
    }

    /// Whether the table holds a block.
    pub open spec fn stores(self, root: Bytes32) -> bool {
        match self.store {
            Some(t) => t.blocks.contains_key(root),
            None => false,
        }
    }

    /// Whether a block root is known.
    pub open spec fn knows(self, root: Bytes32) -> bool {
        root == Bytes32::zero_value() || names_root(self.state, root) || holds_root(
            self.recent_roots.entries,
            root,
        ) || self.stores(root)
    }
}

impl<'a> StateGossipContext<'a> {
    /// The cache and the table are in order.
    #[verifier::type_invariant]
    spec fn inv(self) -> bool {
        self.recent_roots.wf() && (self.store matches Some(t) ==> t.wf())
    }

    /// A context that reads from a state.
    pub fn new(state: &'a State, recent_roots: RecentRootCache) -> (r: Self)
        requires
            recent_roots.wf(),
        ensures
            r@ == (ContextModel {
                state: state@,
                slot_clock: None,
                store: None,
                recent_roots: recent_roots@.refreshed(state@),
            }),
    {
        let mut cache = recent_roots;
        cache.refresh_from_state(state);
        StateGossipContext { state, slot_clock: None, store: None, recent_roots: cache }
    }

    /// A context with a slot clock.
    pub fn with_slot_clock(state: &'a State, slot_clock: u64, recent_roots: RecentRootCache) -> (r:
        Self)
        requires
            recent_roots.wf(),
        ensures
            r@ == (ContextModel {
                state: state@,
                slot_clock: Some(slot_clock),
                store: None,
                recent_roots: recent_roots@.refreshed(state@),
            }),
    {
        let mut cache = recent_roots;
        cache.refresh_from_state(state);
        StateGossipContext {
            state,
            slot_clock: Some(slot_clock),
            store: None,
            recent_roots: cache,
        }
    }

    /// A context with a slot clock and a table of blocks.
    pub fn with_slot_clock_and_store(
        state: &'a State,
        slot_clock: u64,
        store: &'a BlockTable,
        recent_roots: RecentRootCache,
    ) -> (r: Self)
        requires
            recent_roots.wf(),
            store.wf(),
        ensures
            r@ == (ContextModel {
                state: state@,
                slot_clock: Some(slot_clock),
                store: Some(store@),
                recent_roots: recent_roots@.refreshed(state@),
            }),
    {
        let mut cache = recent_roots;
        cache.refresh_from_state(state);
        StateGossipContext {
            state,
            slot_clock: Some(slot_clock),
            store: Some(store),
            recent_roots: cache,
        }
    }

    /// Gives the cache back, for the next context.
    pub fn into_cache(self) -> (r: RecentRootCache)
        ensures
            r.wf(),
            r@ == self@.recent_roots,
    {
        proof {
            use_type_invariant(&self);
        }
        self.recent_roots
    }
}

impl<'a> GossipContext for StateGossipContext<'a> {
    open spec fn current(&self) -> Option<Slot> {
        self@.current()
    }

    open spec fn finalized(&self) -> Option<Slot> {
        Some(self@.state.latest_finalized.slot)
    }

    open spec fn knows(&self, root: Bytes32) -> bool {
        self@.knows(root)
    }

    fn current_slot(&self) -> (r: Option<Slot>) {
        match self.slot_clock {
            Some(n) => Some(Slot(Uint64(n))),
            None => Some(self.state.slot),
        }
    }

    fn finalized_slot(&self) -> (r: Option<Slot>) {
        Some(self.state.latest_finalized.slot)
    }

    fn knows_block_root(&self, root: &Bytes32) -> (r: bool) {
        proof {
            use_type_invariant(self);
        }
        if root.is_zero() {
            return true;
        }
        if *root == self.state.latest_justified.root || *root == self.state.latest_finalized.root {
            return true;
        }
        let header_root = Bytes32(self.state.latest_block_header.hash_tree_root());
        if *root == header_root {
            return true;
        }
        if self.recent_roots.contains(root) {
            return true;
        }
        match self.store {
            Some(t) => t.contains(root),
            None => false,
        }
    }
}

/// A slot from its number.
pub fn slot_from_u64(slot: u64) -> (r: Slot)
    ensures
        r == Slot(Uint64(slot)),
{
    Slot(Uint64(slot))
}

/// The filled entries hold the covered part of the history, each root at its
/// slot's place, and else only what was there before.
proof fn lemma_with_history(entries: Seq<Option<RecentRootEntry>>, history: Seq<Bytes32>, k: int)
    requires
        entries.len() == RECENT_ROOT_CACHE_LEN,
        cache_start(history) <= k <= history.len(),
        history.len() <= u64::MAX,
    ensures
        with_history(entries, history, k).len() == RECENT_ROOT_CACHE_LEN,
        forall|s: int|
            cache_start(history) <= s < k && #[trigger] history[s] != Bytes32::zero_value()
                ==> with_history(entries, history, k)[s % 200] == Some(
                RecentRootEntry { slot: s as u64, root: history[s] },
            ),
        forall|i: int|
            0 <= i < RECENT_ROOT_CACHE_LEN ==> (#[trigger] with_history(entries, history, k)[i])
                == entries[i] || exists|s: int|
                cache_start(history) <= s < k && with_history(entries, history, k)[i] == Some(
                    RecentRootEntry { slot: s as u64, root: #[trigger] history[s] },
                ),
    decreases k,
{
    if k > cache_start(history) {
        lemma_with_history(entries, history, k - 1);
        let before = with_history(entries, history, k - 1);
        let now = with_history(entries, history, k);
        assert forall|s: int|
            cache_start(history) <= s < k && #[trigger] history[s]
                != Bytes32::zero_value() implies now[s % 200] == Some(
            RecentRootEntry { slot: s as u64, root: history[s] },
        ) by {
            if s < k - 1 {
                assert(k - 1 - s < 200);
                assert(s % 200 != (k - 1) % 200);
            }
        }
        assert forall|i: int| 0 <= i < RECENT_ROOT_CACHE_LEN implies (#[trigger] now[i])
            == entries[i] || exists|s: int|
            cache_start(history) <= s < k && now[i] == Some(
                RecentRootEntry { slot: s as u64, root: #[trigger] history[s] },
            ) by {
            if history[k - 1] != Bytes32::zero_value() && i == (k - 1) % 200 {
                assert(now[i] == Some(
                    RecentRootEntry { slot: (k - 1) as u64, root: history[k - 1] },
                ));
            } else {
                assert(now[i] == before[i]);
            }
        }
    }
}

/// A context that has just looked at its state knows exactly the zero root, the
/// roots that the state names, those of the latest slots of its history and
/// those of the table.
pub proof fn law_context_knows_recent_history(c: ContextModel, root: Bytes32)
    requires
        c.recent_roots.entries == entries_for(c.state),
        c.state.historical_block_hashes.len() <= u64::MAX,
    ensures
        c.knows(root) <==> root == Bytes32::zero_value() || names_root(c.state, root) || (exists|
            s: int,
        |
            cache_start(c.state.historical_block_hashes) <= s
                < c.state.historical_block_hashes.len()
                && #[trigger] c.state.historical_block_hashes[s] == root) || c.stores(root),
{
    let history = c.state.historical_block_hashes;
    let header = c.state.latest_block_header;
    let base = with_entry(no_entries(), header.slot.0.0, header.root_value());
    let n = history.len() as int;
    lemma_with_history(base, history, n);
    let entries = entries_for(c.state);
    if holds_root(entries, root) && !names_root(c.state, root) {
        let i = choose|i: int| 0 <= i < entries.len() && is_entry_of(#[trigger] entries[i], root);
        if entries[i] == base[i] {
            assert(false);
        }
    }
    if root != Bytes32::zero_value() && exists|s: int|
        cache_start(history) <= s < n && #[trigger] history[s] == root {
        let s = choose|s: int| cache_start(history) <= s < n && #[trigger] history[s] == root;
        assert(is_entry_of(entries[s % 200], root));
    }
}

} // verus!
