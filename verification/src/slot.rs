//! Slots and the time model.

use crate::types::bytes::Bytes32;
use crate::types::uint::Uint64;
use vstd::prelude::*;

verus! {

/// Seconds in a slot.
pub const SLOT_DURATION_SECS: u64 = 4;

/// Intervals in a slot.
pub const INTERVALS_PER_SLOT: u64 = 4;

/// The interval in which the safe target is updated.
pub const SAFE_TARGET_INTERVAL_INDEX: u64 = 2;

/// The interval in which pending votes are accepted.
pub const ACCEPTANCE_INTERVAL_INDEX: u64 = 3;

/// A slot number.
#[derive(Clone, Copy, Debug, PartialEq, Eq, PartialOrd, Ord, Hash, Default, Structural)]
pub struct Slot(pub Uint64);

impl Slot {
    /// The slot number as an integer.
    pub open spec fn num(self) -> int {
        self.0.0 as int
    }

    /// Encodes as eight little-endian bytes.
    pub fn encode_ssz(&self) -> (r: Vec<u8>)
        ensures
            r@ == crate::ssz::u64_bytes(self.0.0),
    {
        self.0.encode_ssz()
    }

    /// What decoding gives.
    pub open spec fn decoded(b: Seq<u8>) -> Result<Slot, Seq<char>> {
        match Uint64::decoded(b) {
            Ok(n) => Ok(Slot(n)),
            Err(e) => Err(e),
        }
    }

    /// Decodes exactly eight little-endian bytes.
    pub fn decode_ssz(bytes: &[u8]) -> (r: Result<Self, String>)
        ensures
            crate::ssz::plain_outcome(r) == Self::decoded(bytes@),
    {
        match Uint64::decode_ssz(bytes) {
            Ok(n) => Ok(Slot(n)),
            Err(e) => Err(e),
        }
    }

    /// One chunk holding the slot number.
    pub fn hash_tree_root(&self) -> (r: [u8; 32])
        ensures
            Bytes32(r) == crate::ssz::hash::number_chunk(self.0.0),
    {
        self.0.hash_tree_root()
    }
}

/// `delta` slots behind the finalized slot are a justification distance: at most five, a
/// perfect square, or a pronic number (a product of two neighbouring numbers).
pub open spec fn justifiable_distance(delta: nat) -> bool {
    ||| delta <= 5
    ||| exists|k: nat| #[trigger] (k * k) == delta
    ||| exists|k: nat| #[trigger] (k * (k + 1)) == delta
}

/// What the justifiability test answers.
pub open spec fn justifiable_after(slot: Slot, finalized: Slot) -> Result<bool, Seq<char>> {
    if slot.num() < finalized.num() {
        Err("candidate slot is before the finalized slot"@)
    } else {
        Ok(justifiable_distance((slot.num() - finalized.num()) as nat))
    }
}

/// The largest number whose square is at most `n`.
fn floor_sqrt(n: u64) -> (r: u64)
    ensures
        r * r <= n,
        n < (r + 1) * (r + 1),
        r < 0x1_0000_0000,
{
    let mut lo: u64 = 0;
    let mut hi: u64 = 0x1_0000_0000;
    assert(n < 0x1_0000_0000 * 0x1_0000_0000);
    while hi - lo > 1
        invariant
            lo < hi <= 0x1_0000_0000,
            lo * lo <= n,
            n < hi * hi,
        decreases hi - lo,
    {
        let mid: u64 = lo + (hi - lo) / 2;
        assert(mid * mid < 0x1_0000_0000 * 0x1_0000_0000) by (nonlinear_arith)
            requires
                mid < 0x1_0000_0000,
        ;
        if mid * mid <= n {
            lo = mid;
        } else {
            hi = mid;
        }
    }
    lo
}

proof fn lemma_square_root(n: nat, r: nat, k: nat)
    requires
        r * r <= n,
        n < (r + 1) * (r + 1),
        k * k == n || k * (k + 1) == n,
    ensures
        k == r,
{
    if k < r {
        assert(k * (k + 1) < r * r && k * k < r * r) by (nonlinear_arith)
            requires
                k < r,
        ;
    }
    if k > r {
        assert(k * k >= (r + 1) * (r + 1) && k * (k + 1) >= (r + 1) * (r + 1)) by (nonlinear_arith)
            requires
                k >= r + 1,
        ;
    }
}

/// Tells whether a slot can be justified after the finalized slot.
pub fn is_justifiable_after(slot: Slot, finalized: Slot) -> (r: Result<bool, String>)
    ensures
        crate::ssz::plain_outcome(r) == justifiable_after(slot, finalized),
{
    if slot.0.0 < finalized.0.0 {
        return Err("candidate slot is before the finalized slot".to_string());
    }
    let delta: u64 = slot.0.0 - finalized.0.0;
    if delta <= 5 {
        return Ok(true);
    }
    let root: u64 = floor_sqrt(delta);
    let rest: u64 = delta - root * root;
    let found: bool = rest == 0 || rest == root;
    proof {
        let d = delta as nat;
        let q = root as nat;
        assert(q * (q + 1) == q * q + q) by (nonlinear_arith);
        if exists|k: nat| #[trigger] (k * k) == d {
            let k = choose|k: nat| #[trigger] (k * k) == d;
            lemma_square_root(d, q, k);
        }
        if exists|k: nat| #[trigger] (k * (k + 1)) == d {
            let k = choose|k: nat| #[trigger] (k * (k + 1)) == d;
            lemma_square_root(d, q, k);
        }
        if rest == 0 {
            assert(q * q == d);
        }
        if rest == root {
            assert(q * (q + 1) == d);
        }
    }
    Ok(found)
}

/// Milliseconds since genesis, or 0 before it.
pub open spec fn elapsed_millis(genesis_secs: u64, now_millis: u64) -> int {
    if now_millis >= genesis_secs * 1000 {
        now_millis - genesis_secs * 1000
    } else {
        0
    }
}

/// Milliseconds since genesis.
fn elapsed(genesis_secs: u64, now_millis: u64) -> (r: u64)
    ensures
        r == elapsed_millis(genesis_secs, now_millis),
{
    if genesis_secs > now_millis / 1000 {
        0
    } else {
        now_millis - genesis_secs * 1000
    }
}

/// The slot in progress; slot 0 before genesis.
pub fn slot_index_from_unix_millis(genesis_secs: u64, now_millis: u64) -> (r: u64)
    ensures
        r == elapsed_millis(genesis_secs, now_millis) / (SLOT_DURATION_SECS * 1000),
{
    elapsed(genesis_secs, now_millis) / (SLOT_DURATION_SECS * 1000)
}

/// The interval in progress within its slot; interval 0 before genesis.
pub fn interval_index_from_unix_millis(genesis_secs: u64, now_millis: u64) -> (r: u64)
    ensures
        r == (elapsed_millis(genesis_secs, now_millis) / 1000) % 4,
        r < INTERVALS_PER_SLOT,
{
    (elapsed(genesis_secs, now_millis) / ((SLOT_DURATION_SECS * 1000) / INTERVALS_PER_SLOT))
        % INTERVALS_PER_SLOT
}

/// Milliseconds until the next slot begins: until genesis before it, else the rest of the
/// slot in progress.
pub fn next_slot_boundary_delay(genesis_secs: u64, now_millis: u64) -> (r: u64)
    requires
        genesis_secs <= u64::MAX / 1000,
    ensures
        now_millis < genesis_secs * 1000 ==> r == genesis_secs * 1000 - now_millis,
        now_millis >= genesis_secs * 1000 ==> r == 4000 - (now_millis - genesis_secs * 1000) % 4000,
{
    let start: u64 = genesis_secs * 1000;
    if now_millis < start {
        start - now_millis
    } else {
        SLOT_DURATION_SECS * 1000 - (now_millis - start) % (SLOT_DURATION_SECS * 1000)
    }
}

/// The slot in progress never goes back while time goes on.
pub proof fn law_slots_are_monotone(genesis_secs: u64, earlier: u64, later: u64)
    requires
        earlier <= later,
    ensures
        elapsed_millis(genesis_secs, earlier) / 4000 <= elapsed_millis(genesis_secs, later) / 4000,
{
}

/// The finalized slot itself and the five slots behind it can be justified.
pub proof fn law_near_slots_are_justifiable(slot: Slot, finalized: Slot)
    requires
        finalized.num() <= slot.num() <= finalized.num() + 5,
    ensures
        justifiable_after(slot, finalized) == Ok::<bool, Seq<char>>(true),
{
}

} // verus!
