//! How peers are scored, banned and limited.

use crate::networking::events::EventModel;
use crate::networking::peer_manager;
use crate::networking::peer_manager::{BackoffState, PeersModel};
use crate::networking::rate_limiter::LimiterModel;
use crate::networking::runtime;
use crate::networking::runtime::NetworkingModel;
use vstd::prelude::*;

verus! {

/// A score moves towards zero by the amount of the decay and stops at zero.
pub proof fn law_decay(score: i64, by: i64)
    requires
        by >= 0,
    ensures
        score >= by ==> peer_manager::decayed(score, by) == score - by,
        -by <= score <= by ==> peer_manager::decayed(score, by) == 0,
        score <= -by ==> peer_manager::decayed(score, by) == score + by,
{
}

/// The first ban lasts two seconds, every further one twice as long as the one before, and none
/// longer than two minutes.
pub proof fn law_backoff_doubles(attempts: u32)
    ensures
        attempts <= 1 ==> peer_manager::backoff_secs(attempts) == 2,
        1 <= attempts < 6 ==> peer_manager::backoff_secs((attempts + 1) as u32) == 2
            * peer_manager::backoff_secs(attempts),
        attempts > 6 ==> peer_manager::backoff_secs(attempts) == 120,
{
}

/// A decay bans exactly the peers whose score it leaves at or below the threshold. A banned peer
/// is no longer connected, has no score and waits as long as its number of bans asks for. Every
/// other peer stays connected, keeps its decayed score and the backoff that it had.
pub proof fn law_prune(m: PeersModel, by: i64, threshold: i64, now: u64, peer: Seq<char>)
    requires
        by >= 0,
        now <= 0xffff_ffff_ffff_ffff - 120_000_000_000,
    ensures
        ({
            let after = peer_manager::pruned(m, by, threshold, now);
            let falls = m.scores.contains_key(peer) && {
                let s = m.scores[peer];
                let left = if s >= by {
                    s - by
                } else if s <= -by {
                    s + by
                } else {
                    0int
                };
                left <= threshold
            };
            let bans = if m.backoff.contains_key(peer) { m.backoff[peer].attempts as int } else { 0 };
            &&& falls ==> {
                &&& !after.peers.contains(peer)
                &&& !after.scores.contains_key(peer)
                &&& after.backoff.contains_key(peer)
                &&& bans < u32::MAX ==> {
                    &&& after.backoff[peer].attempts == bans + 1
                    &&& after.backoff[peer].next_allowed == now + 1_000_000_000
                        * peer_manager::backoff_secs((bans + 1) as u32)
                }
            }
            &&& !falls ==> {
                &&& after.peers.contains(peer) == m.peers.contains(peer)
                &&& after.scores.contains_key(peer) == m.scores.contains_key(peer)
                &&& m.scores.contains_key(peer) ==> after.scores[peer] > threshold
                &&& after.backoff.contains_key(peer) == m.backoff.contains_key(peer)
                &&& m.backoff.contains_key(peer) ==> after.backoff[peer] == m.backoff[peer]
            }
            &&& after.counts == m.counts
        }),
{
    if m.scores.contains_key(peer) {
        law_decay(m.scores[peer], by);
    }
    let bans: u32 = if m.backoff.contains_key(peer) { m.backoff[peer].attempts } else { 0 };
    if bans < u32::MAX {
        let secs = peer_manager::backoff_secs((bans + 1) as u32);
        peer_manager::law_backoff_grows((bans + 1) as u32, (bans + 1) as u32);
        assert(secs * 1_000_000_000 <= 120_000_000_000);
    }
}

/// A change of a score adds to it, and an unknown peer starts at zero; at the ends of its range
/// a score stays. Nothing else changes.
pub proof fn law_scores_add_up(m: PeersModel, peer: Seq<char>, delta: i64, other: Seq<char>)
    ensures
        ({
            let after = peer_manager::rescored(m, peer, delta);
            let before = if m.scores.contains_key(peer) { m.scores[peer] as int } else { 0 };
            &&& after.scores.contains_key(peer)
            &&& i64::MIN <= before + delta <= i64::MAX ==> after.scores[peer] == before + delta
            &&& before + delta > i64::MAX ==> after.scores[peer] == i64::MAX
            &&& before + delta < i64::MIN ==> after.scores[peer] == i64::MIN
            &&& other != peer ==> after.scores.contains_key(other) == m.scores.contains_key(other)
                && after.scores[other] == m.scores[other]
            &&& after.peers == m.peers && after.backoff == m.backoff && after.counts == m.counts
        }),
{
}

/// A connection lists the peer, keeps its score or starts it at zero, ends its backoff and is
/// counted once in its direction; a peer that is connected already changes nothing.
pub proof fn law_connections(m: PeersModel, peer: Seq<char>, inbound: bool)
    requires
        m.counts.connected_inbound < u64::MAX,
        m.counts.connected_outbound < u64::MAX,
    ensures
        ({
            let after = peer_manager::connected(m, peer, inbound);
            &&& after.peers.contains(peer)
            &&& m.peers.contains(peer) ==> after == m
            &&& !m.peers.contains(peer) ==> {
                &&& after.peers.remove(peer) == m.peers
                &&& after.scores.contains_key(peer)
                &&& after.scores[peer] == (if m.scores.contains_key(peer) {
                    m.scores[peer]
                } else {
                    0
                })
                &&& !after.backoff.contains_key(peer)
                &&& after.counts.connected_inbound == m.counts.connected_inbound + (if inbound {
                    1int
                } else {
                    0
                })
                &&& after.counts.connected_outbound == m.counts.connected_outbound + (if inbound {
                    0int
                } else {
                    1
                })
                &&& after.counts.disconnected_inbound == m.counts.disconnected_inbound
                &&& after.counts.disconnected_outbound == m.counts.disconnected_outbound
            }
        }),
{
    assert(!m.peers.contains(peer) ==> m.peers.insert(peer).remove(peer) =~= m.peers);
}

/// A disconnection takes the peer and its score away and is counted once in its direction; its
/// backoff stays. A peer that is not connected changes nothing.
pub proof fn law_disconnections(m: PeersModel, peer: Seq<char>, inbound: bool)
    requires
        m.counts.disconnected_inbound < u64::MAX,
        m.counts.disconnected_outbound < u64::MAX,
    ensures
        ({
            let after = peer_manager::disconnected(m, peer, inbound);
            &&& !after.peers.contains(peer)
            &&& !m.peers.contains(peer) ==> after == m
            &&& m.peers.contains(peer) ==> {
                &&& after.peers.insert(peer) == m.peers
                &&& !after.scores.contains_key(peer)
                &&& after.backoff == m.backoff
                &&& after.counts.disconnected_inbound == m.counts.disconnected_inbound + (
                if inbound {
                    1int
                } else {
                    0
                })
                &&& after.counts.disconnected_outbound == m.counts.disconnected_outbound + (
                if inbound {
                    0int
                } else {
                    1
                })
                &&& after.counts.connected_inbound == m.counts.connected_inbound
                &&& after.counts.connected_outbound == m.counts.connected_outbound
            }
        }),
{
    assert(m.peers.contains(peer) ==> m.peers.remove(peer).insert(peer) =~= m.peers);
}

/// An event opens a window of its key when there is none or more time than the window has
/// passed since it opened; otherwise it counts in the open one. It may pass exactly when the
/// window then holds no more events than allowed. A refused event counts too.
pub proof fn law_windows(m: LimiterModel, key: Seq<char>, now: u64, other: Seq<char>)
    ensures
        ({
            let after = m.after(key, now);
            let running = m.counts.contains_key(key) && now - m.counts[key].start <= m.window;
            let count = if running { m.counts[key].count as int } else { 0 };
            let start = if running { m.counts[key].start } else { now };
            &&& after.counts.contains_key(key)
            &&& after.counts[key].start == start
            &&& count < u64::MAX ==> after.counts[key].count == count + 1
            &&& count < u64::MAX ==> (m.allows(key, now) <==> count + 1 <= m.max_events)
            &&& other != key ==> after.counts.contains_key(other) == m.counts.contains_key(other)
                && after.counts[other] == m.counts[other]
            &&& after.window == m.window && after.max_events == m.max_events
        }),
{
}

/// The score of a peer after a change within the range of scores.
pub open spec fn changes_by(
    before: PeersModel,
    after: PeersModel,
    peer: Seq<char>,
    delta: int,
) -> bool {
    let was = if before.scores.contains_key(peer) { before.scores[peer] as int } else { 0 };
    i64::MIN <= was + delta <= i64::MAX ==> after.scores.contains_key(peer) && after.scores[peer]
        == was + delta
}

/// A gossip message that both limits let pass earns its sender one point, one over the limit of
/// the topic costs ten, one over the limit of the sender five. The topic's limit counts only
/// what the sender's let pass. A refusal is told before the new score. A message without a
/// sender changes no score.
pub proof fn law_gossip_earns_and_costs(
    m: NetworkingModel,
    peer: Seq<char>,
    topic: Seq<char>,
    now: u64,
)
    ensures
        ({
            let sender = "gossip_in:"@ + peer;
            let pair = "gossip_topic:"@ + peer + ":"@ + topic;
            let (after, told) = runtime::gossip_step(m, Some(peer), topic, now);
            let first = m.gossip_limiter.allows(sender, now);
            let second = m.topic_limiter.allows(pair, now);
            &&& after.gossip_limiter == m.gossip_limiter.after(sender, now)
            &&& first ==> after.topic_limiter == m.topic_limiter.after(pair, now)
            &&& !first ==> after.topic_limiter == m.topic_limiter
            &&& peer != "unknown"@ && first && second ==> changes_by(m.peers, after.peers, peer, 1)
                && told.len() == 1
            &&& peer != "unknown"@ && first && !second ==> changes_by(
                m.peers,
                after.peers,
                peer,
                -10,
            ) && told.len() == 2
            &&& peer != "unknown"@ && !first ==> changes_by(m.peers, after.peers, peer, -5)
                && told.len() == 2
            &&& !first ==> told[0] == (EventModel::RateLimited {
                peer_id: peer,
                category: "gossip_in"@,
            })
            &&& first && !second ==> told[0] == (EventModel::RateLimited {
                peer_id: peer,
                category: "gossip_topic"@,
            })
            &&& peer != "unknown"@ ==> (told.last() matches EventModel::PeerScored {
                peer_id,
                score,
            } && peer_id == peer && after.peers.scores[peer] == score)
            &&& after.reqresp_limiter == m.reqresp_limiter
        }),
        runtime::gossip_step(m, None, topic, now).0.peers == m.peers,
{
}

/// A request or response within its limit earns ten points, one over it costs twenty. A refusal
/// is told before the new score.
pub proof fn law_requests_earn_and_cost(
    m: NetworkingModel,
    peer: Seq<char>,
    protocol: Seq<char>,
    now: u64,
)
    ensures
        ({
            let key = "reqresp_in:"@ + peer + ":"@ + protocol;
            let (after, told) = runtime::reqresp_step(m, peer, protocol, now);
            let passes = m.reqresp_limiter.allows(key, now);
            &&& after.reqresp_limiter == m.reqresp_limiter.after(key, now)
            &&& passes ==> changes_by(m.peers, after.peers, peer, 10) && told.len() == 1
            &&& !passes ==> changes_by(m.peers, after.peers, peer, -20) && told.len() == 2
                && told[0] == (EventModel::RateLimited {
                peer_id: peer,
                category: "reqresp_in"@,
            })
            &&& told.last() matches EventModel::PeerScored { peer_id, score }
            &&& peer_id == peer && after.peers.scores[peer] == score
            &&& after.gossip_limiter == m.gossip_limiter && after.topic_limiter == m.topic_limiter
        }),
{
}

/// Where a decay bans, the peers are told in the order in which the scores are kept: first
/// every score, then a ban and a disconnection for each banned peer.
pub proof fn law_told_scores(
    order: Seq<Seq<char>>,
    scores: Map<Seq<char>, i64>,
    by: i64,
    k: nat,
    i: int,
)
    requires
        k <= order.len(),
        0 <= i < k,
    ensures
        peer_manager::score_events(order, scores, by, k).len() == k,
        peer_manager::score_events(order, scores, by, k)[i] == (EventModel::PeerScored {
            peer_id: order[i],
            score: peer_manager::decayed(scores[order[i]], by),
        }),
    decreases k,
{
    if k > 1 {
        if i < k - 1 {
            law_told_scores(order, scores, by, (k - 1) as nat, i);
        } else {
            law_told_scores(order, scores, by, (k - 1) as nat, 0);
        }
    } else {
        reveal_with_fuel(peer_manager::score_events, 2);
    }
}

/// Of each banned peer a ban is told, with the seconds of its backoff, and then a disconnection.
pub proof fn law_told_bans(
    banned: Seq<Seq<char>>,
    backoff: Map<Seq<char>, BackoffState>,
    now: u64,
    k: nat,
    i: int,
)
    requires
        k <= banned.len(),
        0 <= i < k,
    ensures
        ({
            let told = peer_manager::ban_events(banned, backoff, now, k);
            &&& told.len() == 2 * k
            &&& told[2 * i] matches EventModel::PeerBanned { peer_id, .. }
            &&& peer_id == banned[i]
            &&& told[2 * i + 1] == (EventModel::PeerDisconnected {
                peer_id: banned[i],
                inbound: false,
            })
        }),
    decreases k,
{
    if k > 1 {
        if i < k - 1 {
            law_told_bans(banned, backoff, now, (k - 1) as nat, i);
        } else {
            law_told_bans(banned, backoff, now, (k - 1) as nat, 0);
        }
    } else {
        reveal_with_fuel(peer_manager::ban_events, 2);
    }
}

} // verus!
