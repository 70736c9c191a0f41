//! Peer registry with scores, bans and backoff.

use vstd::prelude::*;
use vstd::string::StringExecFns;

use crate::keyed_map::NameMap;
use crate::metrics::histogram::AtomicCounter;
use crate::networking::events;
use crate::networking::events::{put_event, EventModel, NetworkEvent};
use crate::text;

verus! {

/// Nanoseconds in a second.
pub const NANOS_PER_SEC: u64 = 1_000_000_000;

/// How often a peer was banned, and when it may be dialed again.
#[derive(Clone, Copy, Debug, PartialEq, Eq, Structural)]
pub struct BackoffState {
    /// Bans so far.
    pub attempts: u32,
    /// Nanosecond on the caller's clock from which on the peer may be dialed.
    pub next_allowed: u64,
}

/// Connections and disconnections by direction.
#[derive(Clone, Copy, Debug, PartialEq, Eq, Structural)]
pub struct ConnectionCounts {
    /// Inbound connections.
    pub connected_inbound: AtomicCounter,
    /// Outbound connections.
    pub connected_outbound: AtomicCounter,
    /// Inbound connections that closed.
    pub disconnected_inbound: AtomicCounter,
    /// Outbound connections that closed.
    pub disconnected_outbound: AtomicCounter,
}

/// The value of [`ConnectionCounts`].
#[verifier::ext_equal]
pub struct CountsModel {
    /// Inbound connections.
    pub connected_inbound: u64,
    /// Outbound connections.
    pub connected_outbound: u64,
    /// Inbound connections that closed.
    pub disconnected_inbound: u64,
    /// Outbound connections that closed.
    pub disconnected_outbound: u64,
}

impl View for ConnectionCounts {
    type V = CountsModel;

    open spec fn view(&self) -> CountsModel {
        CountsModel {
            connected_inbound: self.connected_inbound@,
            connected_outbound: self.connected_outbound@,
            disconnected_inbound: self.disconnected_inbound@,
            disconnected_outbound: self.disconnected_outbound@,
        }
    }
}

impl CountsModel {
    /// Nothing has been counted.
    pub open spec fn zero() -> CountsModel {
        CountsModel {
            connected_inbound: 0,
            connected_outbound: 0,
            disconnected_inbound: 0,
            disconnected_outbound: 0,
        }
    }

    /// The counts with one more connection.
    pub open spec fn opened(self, inbound: bool) -> CountsModel {
        if inbound {
            CountsModel { connected_inbound: self.connected_inbound.wrapping_add(1), ..self }
        } else {
            CountsModel { connected_outbound: self.connected_outbound.wrapping_add(1), ..self }
        }
    }

    /// The counts with one more connection that closed.
    pub open spec fn closed(self, inbound: bool) -> CountsModel {
        if inbound {
            CountsModel { disconnected_inbound: self.disconnected_inbound.wrapping_add(1), ..self }
        } else {
            CountsModel {
                disconnected_outbound: self.disconnected_outbound.wrapping_add(1),
                ..self
            }
        }
    }
}

/// Tracks the connected peers and the scores of all peers.
pub struct PeerManager {
    peers: NameMap<bool>,
    scores: NameMap<i64>,
    backoff: NameMap<BackoffState>,
    counts: ConnectionCounts,
}

/// The value of a [`PeerManager`].
#[verifier::ext_equal]
pub struct PeersModel {
    /// Connected peers.
    pub peers: Set<Seq<char>>,
    /// Scores.
    pub scores: Map<Seq<char>, i64>,
    /// Backoff of banned peers.
    pub backoff: Map<Seq<char>, BackoffState>,
    /// Connections and disconnections that were counted.
    pub counts: CountsModel,
}

impl View for PeerManager {
    type V = PeersModel;

    closed spec fn view(&self) -> PeersModel {
        PeersModel {
            peers: self.peers@.dom(),
            scores: self.scores@,
            backoff: self.backoff@,
            counts: self.counts@,
        }
    }
}

/// The nearest number within the range of a score.
pub open spec fn clamped(n: int) -> i64 {
    if n > i64::MAX {
        i64::MAX
    } else if n < i64::MIN {
        i64::MIN
    } else {
        n as i64
    }
}

fn clamp_score(n: i128) -> (r: i64)
    ensures
        r == clamped(n as int),
{
    if n > i64::MAX as i128 {
        i64::MAX
    } else if n < i64::MIN as i128 {
        i64::MIN
    } else {
        n as i64
    }
}

/// A score moved towards zero, and not beyond it.
pub open spec fn decayed(score: i64, by: i64) -> i64 {
    if score > 0 {
        let n = clamped(score - by);
        if n > 0 {
            n
        } else {
            0
        }
    } else if score < 0 {
        let n = clamped(score + by);
        if n < 0 {
            n
        } else {
            0
        }
    } else {
        0
    }
}

fn decay_score(score: i64, by: i64) -> (r: i64)
    ensures
        r == decayed(score, by),
{
    if score > 0 {
        let n: i64 = clamp_score(score as i128 - by as i128);
        if n > 0 {
            n
        } else {
            0
        }
    } else if score < 0 {
        let n: i64 = clamp_score(score as i128 + by as i128);
        if n < 0 {
            n
        } else {
            0
        }
    } else {
        0
    }
}

/// Seconds of backoff after the given number of bans: two, doubled with every
/// further ban, and at most two minutes.
pub open spec fn backoff_secs(attempts: u32) -> u64 {
    if attempts <= 1 {
        2
    } else if attempts == 2 {
        4
    } else if attempts == 3 {
        8
    } else if attempts == 4 {
        16
    } else if attempts == 5 {
        32
    } else if attempts == 6 {
        64
    } else {
        120
    }
}

fn backoff_seconds(attempts: u32) -> (r: u64)
    ensures
        r == backoff_secs(attempts),
{
    if attempts <= 1 {
        2
    } else if attempts == 2 {
        4
    } else if attempts == 3 {
        8
    } else if attempts == 4 {
        16
    } else if attempts == 5 {
        32
    } else if attempts == 6 {
        64
    } else {
        120
    }
}

/// The backoff of a peer after one more ban.
pub open spec fn next_backoff(
    backoff: Map<Seq<char>, BackoffState>,
    peer: Seq<char>,
    now: u64,
) -> BackoffState {
    let before: u32 = if backoff.contains_key(peer) {
        backoff[peer].attempts
    } else {
        0
    };
    let attempts: u32 = if before < u32::MAX {
        (before + 1) as u32
    } else {
        before
    };
    BackoffState {
        attempts,
        next_allowed: if now + backoff_secs(attempts) * NANOS_PER_SEC <= u64::MAX {
            (now + backoff_secs(attempts) * NANOS_PER_SEC) as u64
        } else {
            now
        },
    }
}

/// The reason of a ban.
pub open spec fn ban_reason(attempts: u32) -> Seq<char> {
    "score below ban threshold (backoff "@ + text::decimal(backoff_secs(attempts) as nat) + "s)"@
}

/// The scores of the first `k` peers after a decay, as events.
pub open spec fn score_events(
    order: Seq<Seq<char>>,
    scores: Map<Seq<char>, i64>,
    by: i64,
    k: nat,
) -> Seq<EventModel>
    decreases k,
{
    if k == 0 {
        Seq::empty()
    } else {
        score_events(order, scores, by, (k - 1) as nat).push(
            EventModel::PeerScored {
                peer_id: order[k - 1],
                score: decayed(scores[order[k - 1]], by),
            },
        )
    }
}

/// Those of the first `k` peers that a decay leaves at or below the threshold.
pub open spec fn banned_peers(
    order: Seq<Seq<char>>,
    scores: Map<Seq<char>, i64>,
    by: i64,
    threshold: i64,
    k: nat,
) -> Seq<Seq<char>>
    decreases k,
{
    if k == 0 {
        Seq::empty()
    } else {
        let before = banned_peers(order, scores, by, threshold, (k - 1) as nat);
        if decayed(scores[order[k - 1]], by) <= threshold {
            before.push(order[k - 1])
        } else {
            before
        }
    }
}

/// The events of banning the first `k` of the peers.
pub open spec fn ban_events(
    banned: Seq<Seq<char>>,
    backoff: Map<Seq<char>, BackoffState>,
    now: u64,
    k: nat,
) -> Seq<EventModel>
    decreases k,
{
    if k == 0 {
        Seq::empty()
    } else {
        ban_events(banned, backoff, now, (k - 1) as nat).push(
            EventModel::PeerBanned {
                peer_id: banned[k - 1],
                reason: ban_reason(next_backoff(backoff, banned[k - 1], now).attempts),
            },
        ).push(EventModel::PeerDisconnected { peer_id: banned[k - 1], inbound: false })
    }
}

/// Whether a peer's score falls to the threshold or below.
pub open spec fn is_banned(m: PeersModel, peer: Seq<char>, by: i64, threshold: i64) -> bool {
    m.scores.contains_key(peer) && decayed(m.scores[peer], by) <= threshold
}

/// The peers after a decay and the bans that follow from it.
pub open spec fn pruned(m: PeersModel, by: i64, threshold: i64, now: u64) -> PeersModel {
    PeersModel {
        peers: m.peers.filter(|p: Seq<char>| !is_banned(m, p, by, threshold)),
        scores: Map::new(
            |p: Seq<char>| m.scores.contains_key(p) && !is_banned(m, p, by, threshold),
            |p: Seq<char>| decayed(m.scores[p], by),
        ),
        backoff: Map::new(
            |p: Seq<char>| m.backoff.contains_key(p) || is_banned(m, p, by, threshold),
            |p: Seq<char>|
                if is_banned(m, p, by, threshold) {
                    next_backoff(m.backoff, p, now)
                } else {
                    m.backoff[p]
                },
        ),
        counts: m.counts,
    }
}

/// The score of a peer; unknown peers start at zero.
pub open spec fn score_of(m: PeersModel, peer: Seq<char>) -> i64 {
    if m.scores.contains_key(peer) {
        m.scores[peer]
    } else {
        0
    }
}

/// The peers after a change of one score.
pub open spec fn rescored(m: PeersModel, peer: Seq<char>, delta: i64) -> PeersModel {
    PeersModel {
        scores: m.scores.insert(peer, clamped(score_of(m, peer) + delta)),
        ..m
    }
}

/// The peers after a connection. A peer that is connected already changes
/// nothing; another one keeps its score, or starts at zero, its backoff ends, and the
/// connection is counted in its direction.
pub open spec fn connected(m: PeersModel, peer: Seq<char>, inbound: bool) -> PeersModel {
    if m.peers.contains(peer) {
        m
    } else {
        PeersModel {
            peers: m.peers.insert(peer),
            scores: m.scores.insert(peer, score_of(m, peer)),
            backoff: m.backoff.remove(peer),
            counts: m.counts.opened(inbound),
        }
    }
}

/// The peers after a disconnection. A peer that is not connected changes nothing;
/// another one loses its score, and the disconnection is counted in its direction.
pub open spec fn disconnected(m: PeersModel, peer: Seq<char>, inbound: bool) -> PeersModel {
    if !m.peers.contains(peer) {
        m
    } else {
        PeersModel {
            peers: m.peers.remove(peer),
            scores: m.scores.remove(peer),
            backoff: m.backoff,
            counts: m.counts.closed(inbound),
        }
    }
}

impl PeerManager {
    /// The indexes are in order.
    pub closed spec fn wf(&self) -> bool {
        self.peers.wf() && self.scores.wf() && self.backoff.wf()
    }

    /// The order in which the scores are kept. Which one it is depends on how the scores
    /// came and went.
    pub closed spec fn score_order(&self) -> Seq<Seq<char>> {
        self.scores.key_seq()
    }

    /// The order lists every peer with a score once, and no other peer.
    pub proof fn law_order_lists_each_score_once(&self)
        requires
            self.wf(),
        ensures
            self.score_order().no_duplicates(),
            forall|p: Seq<char>| #[trigger]
                self.score_order().contains(p) <==> self@.scores.contains_key(p),
    {
        self.scores.lemma_keys();
        assert forall|p: Seq<char>| #[trigger]
            self.score_order().contains(p) <==> self@.scores.contains_key(p) by {
            if self@.scores.contains_key(p) {
                let i = choose|i: int| 0 <= i < self.score_order().len() && self.score_order()[i] == p;
                assert(self.score_order()[i] == p);
            }
        }
    }

    /// A registry without peers.
    pub fn new() -> (r: Self)
        ensures
            r.wf(),
            r@ == (PeersModel {
                peers: Set::empty(),
                scores: Map::empty(),
                backoff: Map::empty(),
                counts: CountsModel::zero(),
            }),
    {
        let counts = ConnectionCounts {
            connected_inbound: AtomicCounter::new(),
            connected_outbound: AtomicCounter::new(),
            disconnected_inbound: AtomicCounter::new(),
            disconnected_outbound: AtomicCounter::new(),
        };
        let r = PeerManager {
            peers: NameMap::new(),
            scores: NameMap::new(),
            backoff: NameMap::new(),
            counts,
        };
        assert(r@.peers =~= Set::empty());
        r
    }

    /// What has been counted.
    pub fn connection_counts(&self) -> (r: ConnectionCounts)
        ensures
            r@ == self@.counts,
    {
        self.counts
    }

    /// Registers a peer as connected.
    pub fn connect(&mut self, peer_id: String, inbound: bool)
        requires
            old(self).wf(),
        ensures
            final(self).wf(),
            final(self)@ == connected(old(self)@, peer_id@, inbound),
    {
        let ghost m = self@;
        if self.peers.contains(&peer_id) {
            return;
        }
        let score: i64 = match self.scores.get(&peer_id) {
            Some(s) => *s,
            None => 0,
        };
        self.peers.insert(peer_id.clone(), true);
        self.scores.insert(peer_id.clone(), score);
        self.backoff.remove(&peer_id);
        if inbound {
            self.counts.connected_inbound.inc();
        } else {
            self.counts.connected_outbound.inc();
        }
        assert(self@.peers =~= m.peers.insert(peer_id@));
        assert(self@ =~= connected(m, peer_id@, inbound));
    }

    /// Removes a peer and its score.
    pub fn disconnect(&mut self, peer_id: &String, inbound: bool)
        requires
            old(self).wf(),
        ensures
            final(self).wf(),
            final(self)@ == disconnected(old(self)@, peer_id@, inbound),
    {
        let ghost m = self@;
        if !self.peers.contains(peer_id) {
            return;
        }
        self.peers.remove(peer_id);
        self.scores.remove(peer_id);
        if inbound {
            self.counts.disconnected_inbound.inc();
        } else {
            self.counts.disconnected_outbound.inc();
        }
        assert(self@.peers =~= m.peers.remove(peer_id@));
        assert(self@ =~= disconnected(m, peer_id@, inbound));
    }

    /// Changes a peer's score. The answer is the new score, and the event tells
    /// it.
    pub fn score_delta(&mut self, peer_id: &String, delta: i64) -> (r: (i64, NetworkEvent))
        requires
            old(self).wf(),
        ensures
            final(self).wf(),
            final(self)@ == rescored(old(self)@, peer_id@, delta),
            r.0 == clamped(score_of(old(self)@, peer_id@) + delta),
            r.1@ == (EventModel::PeerScored { peer_id: peer_id@, score: r.0 }),
    {
        let ghost m = self@;
        let score: i64 = match self.scores.get(peer_id) {
            Some(s) => *s,
            None => 0,
        };
        let now: i64 = clamp_score(score as i128 + delta as i128);
        self.scores.insert(peer_id.clone(), now);
        assert(self@ =~= rescored(m, peer_id@, delta));
        (now, NetworkEvent::PeerScored { peer_id: peer_id.clone(), score: now })
    }

    /// Rewards a peer for a good response.
    pub fn successful_response_from_peer(&mut self, peer_id: &String) -> (r: (i64, NetworkEvent))
        requires
            old(self).wf(),
        ensures
            final(self).wf(),
            final(self)@ == rescored(old(self)@, peer_id@, 10),
            r.0 == clamped(score_of(old(self)@, peer_id@) + 10),
            r.1@ == (EventModel::PeerScored { peer_id: peer_id@, score: r.0 }),
    {
        self.score_delta(peer_id, 10)
    }

    /// Blames a peer for a failed response.
    pub fn failed_response_from_peer(&mut self, peer_id: &String) -> (r: (i64, NetworkEvent))
        requires
            old(self).wf(),
        ensures
            final(self).wf(),
            final(self)@ == rescored(old(self)@, peer_id@, -20i64),
            r.0 == clamped(score_of(old(self)@, peer_id@) - 20),
            r.1@ == (EventModel::PeerScored { peer_id: peer_id@, score: r.0 }),
    {
        self.score_delta(peer_id, -20)
    }

    /// The score of a peer, if it has one.
    pub fn score(&self, peer_id: &String) -> (r: Option<i64>)
        requires
            self.wf(),
        ensures
            r == (if self@.scores.contains_key(peer_id@) {
                Some(self@.scores[peer_id@])
            } else {
                None
            }),
    {
        match self.scores.get(peer_id) {
            Some(s) => Some(*s),
            None => None,
        }
    }

    /// Whether a peer is connected.
    pub fn is_connected(&self, peer_id: &String) -> (r: bool)
        requires
            self.wf(),
        ensures
            r == self@.peers.contains(peer_id@),
    {
        self.peers.contains(peer_id)
    }

    /// Number of connected peers.
    pub fn peer_count(&self) -> (r: usize)
        requires
            self.wf(),
        ensures
            r == self@.peers.len(),
    {
        proof {
            self.peers.lemma_len();
        }
        self.peers.len()
    }

    /// The connected peers, each once.
    pub fn list(&self) -> (r: Vec<String>)
        requires
            self.wf(),
        ensures
            names(r@).no_duplicates(),
            names(r@).to_set() == self@.peers,
    {
        let n: usize = self.peers.len();
        let mut out: Vec<String> = Vec::new();
        let mut i: usize = 0;
        while i < n
            invariant
                i <= n,
                self.wf(),
                n == self.peers.key_seq().len(),
                names(out@) == self.peers.key_seq().take(i as int),
            decreases n - i,
        {
            let key: String = self.peers.key_at(i).clone();
            let ghost before = names(out@);
            assert(key@ == self.peers.key_seq()[i as int]);
            out.push(key);
            assert(names(out@) =~= before.push(key@));
            assert(names(out@) =~= self.peers.key_seq().take(i + 1));
            i = i + 1;
        }
        proof {
            self.peers.lemma_keys();
            assert(names(out@) =~= self.peers.key_seq());
            assert(names(out@).to_set() =~= self@.peers) by {
                assert forall|k: Seq<char>| self@.peers.contains(k) implies names(
                    out@,
                ).to_set().contains(k) by {
                    assert(self.peers@.contains_key(k));
                    let j = choose|j: int|
                        0 <= j < self.peers.key_seq().len() && self.peers.key_seq()[j] == k;
                    assert(names(out@)[j] == k);
                }
                assert forall|k: Seq<char>| names(out@).to_set().contains(k) implies self@.peers
                    .contains(k) by {
                    let j = choose|j: int| 0 <= j < names(out@).len() && names(out@)[j] == k;
                    assert(self.peers@.contains_key(self.peers.key_seq()[j]));
                }
            }
        }
        out
    }

    /// Nanoseconds until a peer may be dialed again, if it has to wait.
    pub fn backoff_remaining(&self, peer_id: &String, now: u64) -> (r: Option<u64>)
        requires
            self.wf(),
        ensures
            r == (if self@.backoff.contains_key(peer_id@)
                && self@.backoff[peer_id@].next_allowed > now {
                Some((self@.backoff[peer_id@].next_allowed - now) as u64)
            } else {
                None
            }),
    {
        match self.backoff.get(peer_id) {
            Some(b) => if b.next_allowed > now {
                Some(b.next_allowed - now)
            } else {
                None
            },
            None => None,
        }
    }
}

/// The texts of a list of names.
pub open spec fn names(v: Seq<String>) -> Seq<Seq<char>> {
    v.map_values(|s: String| s@)
}

/// All scores decayed.
pub open spec fn all_decayed(scores: Map<Seq<char>, i64>, by: i64) -> Map<Seq<char>, i64> {
    Map::new(|p: Seq<char>| scores.contains_key(p), |p: Seq<char>| decayed(scores[p], by))
}

/// The banned ones among the first `k` peers: each once, and only peers at or
/// below the threshold.
proof fn lemma_banned(
    order: Seq<Seq<char>>,
    scores: Map<Seq<char>, i64>,
    by: i64,
    threshold: i64,
    k: nat,
)
    requires
        k <= order.len(),
        order.no_duplicates(),
    ensures
        banned_peers(order, scores, by, threshold, k).no_duplicates(),
        forall|p: Seq<char>|
            banned_peers(order, scores, by, threshold, k).contains(p) <==> (exists|i: int|
                0 <= i < k && #[trigger] order[i] == p) && decayed(scores[p], by) <= threshold,
    decreases k,
{
    if k > 0 {
        let before = banned_peers(order, scores, by, threshold, (k - 1) as nat);
        let now = banned_peers(order, scores, by, threshold, k);
        let last = order[k - 1];
        lemma_banned(order, scores, by, threshold, (k - 1) as nat);
        assert(!before.contains(last)) by {
            if before.contains(last) {
                let i = choose|i: int| 0 <= i < k - 1 && #[trigger] order[i] == last;
                assert(order[i] != order[k - 1]);
            }
        }
        assert forall|p: Seq<char>| now.contains(p) <==> (exists|i: int|
            0 <= i < k && #[trigger] order[i] == p) && decayed(scores[p], by) <= threshold by {
            if now.contains(p) {
                let j = choose|j: int| 0 <= j < now.len() && now[j] == p;
                if j < before.len() {
                    assert(before[j] == p);
                    assert(before.contains(p));
                    let i = choose|i: int| 0 <= i < k - 1 && #[trigger] order[i] == p;
                    assert(order[i] == p);
                } else {
                    assert(order[k - 1] == p);
                }
            }
            if (exists|i: int| 0 <= i < k && #[trigger] order[i] == p) && decayed(scores[p], by)
                <= threshold {
                let i = choose|i: int| 0 <= i < k && #[trigger] order[i] == p;
                if i < k - 1 {
                    assert(order[i] == p);
                    assert(before.contains(p));
                    let j = choose|j: int| 0 <= j < before.len() && before[j] == p;
                    assert(now[j] == p);
                } else {
                    assert(now.last() == p);
                }
            }
        }
    }
}

impl PeerManager {
    /// Decays all scores and tells them.
    fn decay_all(&mut self, decay_by: i64, out: &mut Vec<NetworkEvent>)
        requires
            old(self).wf(),
        ensures
            final(self).wf(),
            final(self).score_order() == old(self).score_order(),
            final(self)@ == (PeersModel {
                scores: all_decayed(old(self)@.scores, decay_by),
                ..old(self)@
            }),
            events::event_models(final(out)@) == events::event_models(old(out)@) + score_events(
                old(self).score_order(),
                old(self)@.scores,
                decay_by,
                old(self).score_order().len(),
            ),
    {
        let ghost m = self@;
        let ghost order = self.scores.key_seq();
        let ghost counts = self.counts;
        let ghost told = events::event_models(out@);
        let n: usize = self.scores.len();
        let mut i: usize = 0;
        proof {
            self.scores.lemma_keys();
            assert(told + score_events(order, m.scores, decay_by, 0) =~= told);
        }
        while i < n
            invariant
                i <= n,
                n == order.len(),
                self.wf(),
                order == self.scores.key_seq(),
                order.no_duplicates(),
                self.counts == counts,
                self.peers@.dom() == m.peers,
                self.backoff@ == m.backoff,
                self.scores@.dom() == m.scores.dom(),
                forall|j: int|
                    0 <= j < order.len() ==> m.scores.contains_key(#[trigger] order[j]),
                forall|j: int|
                    0 <= j < order.len() ==> #[trigger] self.scores@[order[j]] == (if j < i {
                        decayed(m.scores[order[j]], decay_by)
                    } else {
                        m.scores[order[j]]
                    }),
                events::event_models(out@) == told + score_events(
                    order,
                    m.scores,
                    decay_by,
                    i as nat,
                ),
            decreases n - i,
        {
            let peer_id: String = self.scores.key_at(i).clone();
            assert(peer_id@ == order[i as int]);
            let score: i64 = decay_score(*self.scores.value_at(i), decay_by);
            let ghost before = self.scores@;
            self.scores.insert(peer_id.clone(), score);
            let ghost k = peer_id@;
            assert(self.scores@.dom() =~= m.scores.dom());
            assert forall|j: int| 0 <= j < order.len() implies #[trigger] self.scores@[order[j]]
                == (if j < i + 1 {
                decayed(m.scores[order[j]], decay_by)
            } else {
                m.scores[order[j]]
            }) by {
                if j != i {
                    assert(order[j] != order[i as int]);
                    assert(self.scores@[order[j]] == before[order[j]]);
                }
            }
            put_event(out, NetworkEvent::PeerScored { peer_id, score });
            assert(events::event_models(out@) =~= told + score_events(
                order,
                m.scores,
                decay_by,
                (i + 1) as nat,
            ));
            i = i + 1;
        }
        proof {
            self.scores.lemma_keys();
            assert(self@.scores =~= all_decayed(m.scores, decay_by)) by {
                assert forall|p: Seq<char>| self.scores@.contains_key(p) implies self.scores@[p]
                    == decayed(m.scores[p], decay_by) by {
                    let j = choose|j: int| 0 <= j < order.len() && order[j] == p;
                    assert(self.scores@[order[j]] == decayed(m.scores[order[j]], decay_by));
                }
            }
        }
    }

    /// The peers whose score is at or below the threshold.
    fn peers_to_ban(&self, ban_threshold: i64) -> (r: Vec<String>)
        requires
            self.wf(),
        ensures
            names(r@) == low_scores(
                self.score_order(),
                self@.scores,
                ban_threshold,
                self.score_order().len(),
            ),
    {
        let mut out: Vec<String> = Vec::new();
        let n: usize = self.scores.len();
        let mut i: usize = 0;
        assert(names(out@) =~= Seq::empty());
        while i < n
            invariant
                i <= n,
                self.wf(),
                n == self.score_order().len(),
                names(out@) == low_scores(
                    self.score_order(),
                    self@.scores,
                    ban_threshold,
                    i as nat,
                ),
            decreases n - i,
        {
            let score: i64 = *self.scores.value_at(i);
            let ghost before = names(out@);
            if score <= ban_threshold {
                let peer_id: String = self.scores.key_at(i).clone();
                assert(peer_id@ == self.score_order()[i as int]);
                out.push(peer_id);
                assert(names(out@) =~= before.push(peer_id@));
            }
            i = i + 1;
        }
        out
    }

    /// Decays all scores, then bans and removes the peers whose score is at or
    /// below the threshold. The answer is the banned peers and the events.
    pub fn decay_and_prune(&mut self, decay_by: i64, ban_threshold: i64, now: u64) -> (r: (
        Vec<String>,
        Vec<NetworkEvent>,
    ))
        requires
            old(self).wf(),
        ensures
            final(self).wf(),
            final(self)@ == pruned(old(self)@, decay_by, ban_threshold, now),
            names(r.0@).no_duplicates(),
            forall|p: Seq<char>| #[trigger]
                names(r.0@).contains(p) <==> is_banned(old(self)@, p, decay_by, ban_threshold),
            names(r.0@) == banned_peers(
                old(self).score_order(),
                old(self)@.scores,
                decay_by,
                ban_threshold,
                old(self).score_order().len(),
            ),
            events::event_models(r.1@) == score_events(
                old(self).score_order(),
                old(self)@.scores,
                decay_by,
                old(self).score_order().len(),
            ) + ban_events(names(r.0@), old(self)@.backoff, now, r.0@.len()),
    {
        let ghost m = self@;
        let ghost order = self.scores.key_seq();
        let ghost counts = self.counts@;
        let mut out = events::no_events();
        proof {
            self.scores.lemma_keys();
        }
        self.decay_all(decay_by, &mut out);
        let ghost told = events::event_models(out@);
        assert(told =~= score_events(order, m.scores, decay_by, order.len()));
        let banned = self.peers_to_ban(ban_threshold);
        let ghost gone = names(banned@);
        proof {
            lemma_low_scores(order, m.scores, decay_by, ban_threshold, order.len());
            lemma_banned(order, m.scores, decay_by, ban_threshold, order.len());
            assert(told + ban_events(gone, m.backoff, now, 0) =~= told);
            assert(gone.take(0) =~= Seq::empty());
        }
        let mut j: usize = 0;
        while j < banned.len()
            invariant
                j <= banned@.len(),
                gone == names(banned@),
                gone.no_duplicates(),
                self.wf(),
                self.counts@ == counts,
                forall|p: Seq<char>| #[trigger]
                    self.peers@.contains_key(p) <==> m.peers.contains(p) && !gone.take(
                        j as int,
                    ).contains(p),
                forall|p: Seq<char>| #[trigger]
                    self.scores@.contains_key(p) <==> m.scores.contains_key(p) && !gone.take(
                        j as int,
                    ).contains(p),
                forall|p: Seq<char>| #[trigger]
                    self.scores@.contains_key(p) ==> self.scores@[p] == decayed(
                        m.scores[p],
                        decay_by,
                    ),
                forall|p: Seq<char>| #[trigger]
                    self.backoff@.contains_key(p) <==> m.backoff.contains_key(p) || gone.take(
                        j as int,
                    ).contains(p),
                forall|p: Seq<char>| #[trigger]
                    self.backoff@.contains_key(p) ==> self.backoff@[p] == (if gone.take(
                        j as int,
                    ).contains(p) {
                        next_backoff(m.backoff, p, now)
                    } else {
                        m.backoff[p]
                    }),
                events::event_models(out@) == told + ban_events(gone, m.backoff, now, j as nat),
            decreases banned@.len() - j,
        {
            let peer_id: String = banned[j].clone();
            let ghost p = peer_id@;
            assert(gone[j as int] == p);
            proof {
                lemma_take_next(gone, j as int);
            }
            assert(!gone.take(j as int).contains(p));
            self.scores.remove(&peer_id);
            self.peers.remove(&peer_id);
            let attempts_before: u32 = match self.backoff.get(&peer_id) {
                Some(b) => b.attempts,
                None => 0,
            };
            let attempts: u32 = if attempts_before < u32::MAX {
                attempts_before + 1
            } else {
                attempts_before
            };
            let secs: u64 = backoff_seconds(attempts);
            let nanos: u64 = secs * NANOS_PER_SEC;
            let next_allowed: u64 = if nanos <= u64::MAX - now {
                now + nanos
            } else {
                now
            };
            self.backoff.insert(peer_id.clone(), BackoffState { attempts, next_allowed });
            assert(self.backoff@[p] == next_backoff(m.backoff, p, now));
            let mut reason: String = "score below ban threshold (backoff ".to_string();
            reason.append(text::decimal_string(secs).as_str());
            reason.append("s)");
            put_event(&mut out, NetworkEvent::PeerBanned { peer_id: peer_id.clone(), reason });
            put_event(&mut out, NetworkEvent::PeerDisconnected { peer_id, inbound: false });
            assert(events::event_models(out@) =~= told + ban_events(
                gone,
                m.backoff,
                now,
                (j + 1) as nat,
            ));
            j = j + 1;
        }
        proof {
            assert(gone.take(gone.len() as int) =~= gone);
            self.scores.lemma_keys();
            assert forall|p: Seq<char>| gone.contains(p) <==> is_banned(
                m,
                p,
                decay_by,
                ban_threshold,
            ) by {
                if m.scores.contains_key(p) {
                    let i = choose|i: int| 0 <= i < order.len() && order[i] == p;
                    assert(order[i] == p);
                }
            }
            assert(self@ =~= pruned(m, decay_by, ban_threshold, now));
        }
        (banned, out)
    }
}

/// Those of the first `k` peers whose score is at or below the threshold.
pub open spec fn low_scores(
    order: Seq<Seq<char>>,
    scores: Map<Seq<char>, i64>,
    threshold: i64,
    k: nat,
) -> Seq<Seq<char>>
    decreases k,
{
    if k == 0 {
        Seq::empty()
    } else {
        let before = low_scores(order, scores, threshold, (k - 1) as nat);
        if scores[order[k - 1]] <= threshold {
            before.push(order[k - 1])
        } else {
            before
        }
    }
}

/// The low ones among the decayed scores are the banned ones.
proof fn lemma_low_scores(
    order: Seq<Seq<char>>,
    scores: Map<Seq<char>, i64>,
    by: i64,
    threshold: i64,
    k: nat,
)
    requires
        k <= order.len(),
        forall|i: int| 0 <= i < order.len() ==> scores.contains_key(#[trigger] order[i]),
    ensures
        low_scores(order, all_decayed(scores, by), threshold, k) == banned_peers(
            order,
            scores,
            by,
            threshold,
            k,
        ),
    decreases k,
{
    if k > 0 {
        lemma_low_scores(order, scores, by, threshold, (k - 1) as nat);
        assert(scores.contains_key(order[k - 1]));
    }
}

/// One more element of a prefix.
proof fn lemma_take_next(s: Seq<Seq<char>>, j: int)
    requires
        0 <= j < s.len(),
        s.no_duplicates(),
    ensures
        !s.take(j).contains(s[j]),
        forall|p: Seq<char>|
            #[trigger] s.take(j + 1).contains(p) <==> s.take(j).contains(p) || p == s[j],
{
    assert forall|p: Seq<char>| #[trigger] s.take(j + 1).contains(p) <==> s.take(j).contains(p)
        || p == s[j] by {
        let longer = s.take(j + 1);
        if longer.contains(p) {
            let i = choose|i: int| 0 <= i < longer.len() && longer[i] == p;
            if i < j {
                assert(s.take(j)[i] == p);
            }
        }
        if s.take(j).contains(p) {
            let i = choose|i: int| 0 <= i < j && s.take(j)[i] == p;
            assert(s.take(j + 1)[i] == p);
        }
        if p == s[j] {
            assert(s.take(j + 1)[j] == p);
        }
    }
    if s.take(j).contains(s[j]) {
        let i = choose|i: int| 0 <= i < j && s.take(j)[i] == s[j];
        assert(s[i] == s[j]);
    }
}

/// Scores only move towards zero as time passes, and a peer within the limits
/// stays.
pub proof fn law_decay_moves_towards_zero(score: i64, by: i64)
    requires
        by >= 0,
    ensures
        score >= 0 ==> 0 <= decayed(score, by) <= score,
        score <= 0 ==> score <= decayed(score, by) <= 0,
{
}

/// After a prune no known score is at or below the threshold, no banned peer is
/// connected, and every banned peer has to wait.
pub proof fn law_pruned_peers_are_above_threshold(
    m: PeersModel,
    by: i64,
    threshold: i64,
    now: u64,
    peer: Seq<char>,
)
    requires
        now + 120 * NANOS_PER_SEC <= u64::MAX,
    ensures
        pruned(m, by, threshold, now).scores.contains_key(peer) ==> pruned(
            m,
            by,
            threshold,
            now,
        ).scores[peer] > threshold,
        is_banned(m, peer, by, threshold) ==> !pruned(m, by, threshold, now).peers.contains(peer)
            && pruned(m, by, threshold, now).backoff[peer].next_allowed > now,
{
}

/// Further bans never shorten the backoff, and it stays between two seconds and
/// two minutes.
pub proof fn law_backoff_grows(a: u32, b: u32)
    requires
        a <= b,
    ensures
        2 <= backoff_secs(a) <= backoff_secs(b) <= 120,
{
}

} // verus!
