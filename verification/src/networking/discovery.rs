//! Seed addresses that are dialed in turn.

use std::collections::VecDeque;

use libp2p::multiaddr::Protocol;
use libp2p::Multiaddr;
use vstd::prelude::*;

use crate::keyed_map::NameMap;
use crate::networking::peer_manager::PeerManager;

verus! {

/// What parsing a text with `<Multiaddr as FromStr>::from_str` and printing the
/// address again gives, or nothing where the text is no address.
pub uninterp spec fn address_text(s: Seq<char>) -> Option<Seq<char>>;

/// The parts of the address that a text names, as `Multiaddr::iter` lists them:
/// the peer of a `p2p` part, nothing for any other part. Without parts where the
/// text is no address.
pub uninterp spec fn address_parts(s: Seq<char>) -> Seq<Option<Seq<char>>>;

/// A text that there may be.
pub open spec fn option_text(s: Option<String>) -> Option<Seq<char>> {
    match s {
        Some(s) => Some(s@),
        None => None,
    }
}

/// The texts of a list of texts that there may be.
pub open spec fn option_texts(v: Seq<Option<String>>) -> Seq<Option<Seq<char>>> {
    v.map_values(|s: Option<String>| option_text(s))
}

/// `<Multiaddr as FromStr>::from_str`, and the address printed again.
#[verifier::external_body]
pub(crate) fn canonical_address(s: &str) -> (r: Option<String>)
    ensures
        option_text(r) == address_text(s@),
{
    match s.parse::<Multiaddr>() {
        Ok(address) => Some(address.to_string()),
        Err(_) => None,
    }
}

/// `Multiaddr::iter` over the address that a text names, each part mapped to the
/// peer that it names.
#[verifier::external_body]
fn address_peers(s: &str) -> (r: Vec<Option<String>>)
    ensures
        option_texts(r@) == address_parts(s@),
{
    match s.parse::<Multiaddr>() {
        Ok(address) => address.iter().map(|part| match part {
            Protocol::P2p(peer) => Some(peer.to_string()),
            _ => None,
        }).collect(),
        Err(_) => Vec::new(),
    }
}

/// The first peer among the parts from `i` on.
pub open spec fn first_peer(parts: Seq<Option<Seq<char>>>, i: nat) -> Option<Seq<char>>
    decreases parts.len() - i,
{
    if i >= parts.len() {
        None
    } else if parts[i as int] is Some {
        parts[i as int]
    } else {
        first_peer(parts, i + 1)
    }
}

/// Finds the first peer among the parts of an address.
pub fn find_first_peer(parts: &Vec<Option<String>>) -> (r: Option<String>)
    ensures
        option_text(r) == first_peer(option_texts(parts@), 0),
{
    let ghost all = option_texts(parts@);
    let mut i: usize = 0;
    while i < parts.len()
        invariant
            i <= parts@.len(),
            all == option_texts(parts@),
            first_peer(all, i as nat) == first_peer(all, 0),
        decreases parts@.len() - i,
    {
        assert(all[i as int] == option_text(parts@[i as int]));
        if let Some(p) = &parts[i] {
            return Some(p.clone());
        }
        i = i + 1;
    }
    None
}

/// The seeds with the first one moved to the end.
pub open spec fn rotated(queue: Seq<Seq<char>>) -> Seq<Seq<char>> {
    queue.skip(1).push(queue[0])
}

/// The seeds after a number of turns.
pub open spec fn rotated_times(queue: Seq<Seq<char>>, k: nat) -> Seq<Seq<char>>
    decreases k,
{
    if k == 0 {
        queue
    } else {
        rotated(rotated_times(queue, (k - 1) as nat))
    }
}

/// The seeds with an address added at the end, unless it is there already.
pub open spec fn with_seed(queue: Seq<Seq<char>>, address: Seq<char>) -> Seq<Seq<char>> {
    if queue.contains(address) {
        queue
    } else {
        queue.push(address)
    }
}

/// Seed addresses that are dialed in turn, one for each interval.
pub struct Discovery {
    seeds: VecDeque<String>,
    seed_set: NameMap<bool>,
    interval_secs: u64,
}

impl Discovery {
    /// The seeds in the order in which they are dialed.
    pub closed spec fn queue(&self) -> Seq<Seq<char>> {
        self.seeds@.map_values(|s: String| s@)
    }

    /// Seconds between two dials.
    pub closed spec fn interval(&self) -> u64 {
        self.interval_secs
    }

    /// Every seed is there once.
    pub closed spec fn wf(&self) -> bool {
        &&& self.seed_set.wf()
        &&& self.queue().no_duplicates()
        &&& forall|a: Seq<char>| #[trigger]
            self.seed_set@.contains_key(a) <==> self.queue().contains(a)
    }

    /// Every seed is there once.
    pub proof fn law_every_seed_stands_once(&self)
        requires
            self.wf(),
        ensures
            self.queue().no_duplicates(),
    {
    }

    /// Without seeds, for one dial in each interval.
    pub fn new(interval_secs: u64) -> (r: Self)
        ensures
            r.wf(),
            r.queue() == Seq::<Seq<char>>::empty(),
            r.interval() == interval_secs,
    {
        let r = Discovery { seeds: VecDeque::new(), seed_set: NameMap::new(), interval_secs };
        assert(r.queue() =~= Seq::<Seq<char>>::empty());
        r
    }

    /// Seconds between two dials.
    pub fn interval_secs(&self) -> (r: u64)
        ensures
            r == self.interval(),
    {
        self.interval_secs
    }

    /// Adds a parsed seed, unless it is there already.
    pub fn add_address(&mut self, address: String)
        requires
            old(self).wf(),
        ensures
            final(self).wf(),
            final(self).queue() == with_seed(old(self).queue(), address@),
            final(self).interval() == old(self).interval(),
    {
        if self.seed_set.contains(&address) {
            return;
        }
        let ghost before = self.queue();
        self.seed_set.insert(address.clone(), true);
        self.seeds.push_back(address);
        proof {
            assert(self.queue() =~= before.push(address@));
            assert forall|a: Seq<char>| #[trigger]
                self.seed_set@.contains_key(a) <==> self.queue().contains(a) by {
                if before.contains(a) {
                    let i = choose|i: int| 0 <= i < before.len() && before[i] == a;
                    assert(self.queue()[i] == a);
                }
                if a == address@ {
                    assert(self.queue().last() == a);
                }
            }
        }
    }

    /// Adds a seed, unless it is no address or is there already.
    pub fn add_seed(&mut self, seed_addr: &str)
        requires
            old(self).wf(),
        ensures
            final(self).wf(),
            final(self).queue() == (match address_text(seed_addr@) {
                Some(a) => with_seed(old(self).queue(), a),
                None => old(self).queue(),
            }),
            final(self).interval() == old(self).interval(),
    {
        match canonical_address(seed_addr) {
            Some(a) => self.add_address(a),
            None => {},
        }
    }

    /// The next seed, which moves to the end.
    pub fn next_seed(&mut self) -> (r: Option<String>)
        requires
            old(self).wf(),
        ensures
            final(self).wf(),
            final(self).interval() == old(self).interval(),
            match r {
                Some(a) => old(self).queue().len() > 0 && a@ == old(self).queue()[0] && final(self).queue() == rotated(old(self).queue()),
                None => old(self).queue().len() == 0 && final(self).queue() == old(self).queue(),
            },
    {
        let ghost before = self.queue();
        match self.seeds.pop_front() {
            None => {
                assert(self.queue() =~= before);
                None
            },
            Some(next) => {
                self.seeds.push_back(next.clone());
                proof {
                    assert(self.queue() =~= rotated(before));
                    lemma_rotated(before);
                }
                Some(next)
            },
        }
    }

    /// The address to dial next: the next seed, unless its peer is connected.
    pub fn next_dial(&mut self, peers: &PeerManager) -> (r: Option<String>)
        requires
            old(self).wf(),
            peers.wf(),
        ensures
            final(self).wf(),
            final(self).interval() == old(self).interval(),
            if old(self).queue().len() == 0 {
                r is None && final(self).queue() == old(self).queue()
            } else {
                let seed = old(self).queue()[0];
                &&& final(self).queue() == rotated(old(self).queue())
                &&& option_text(r) == (match first_peer(address_parts(seed), 0) {
                    Some(p) => if peers@.peers.contains(p) {
                        None
                    } else {
                        Some(seed)
                    },
                    None => Some(seed),
                })
            },
    {
        let seed = match self.next_seed() {
            Some(s) => s,
            None => {
                return None;
            },
        };
        let parts = address_peers(seed.as_str());
        match find_first_peer(&parts) {
            Some(p) => if peers.is_connected(&p) {
                None
            } else {
                Some(seed)
            },
            None => Some(seed),
        }
    }
}

/// A turn keeps the seeds.
proof fn lemma_rotated(queue: Seq<Seq<char>>)
    requires
        queue.len() > 0,
        queue.no_duplicates(),
    ensures
        rotated(queue).no_duplicates(),
        forall|a: Seq<char>| #[trigger] rotated(queue).contains(a) <==> queue.contains(a),
{
    let r = rotated(queue);
    assert forall|a: Seq<char>| #[trigger] r.contains(a) <==> queue.contains(a) by {
        if r.contains(a) {
            let i = choose|i: int| 0 <= i < r.len() && r[i] == a;
            if i < r.len() - 1 {
                assert(queue[i + 1] == a);
            } else {
                assert(queue[0] == a);
            }
        }
        if queue.contains(a) {
            let i = choose|i: int| 0 <= i < queue.len() && queue[i] == a;
            if i > 0 {
                assert(r[i - 1] == a);
            } else {
                assert(r.last() == a);
            }
        }
    }
}

/// The seeds take turns: after `k` turns the first `k` seeds stand at the end in
/// their order, so as many turns as there are seeds dial each of them once and
/// bring the first order back.
pub proof fn law_seeds_take_turns(queue: Seq<Seq<char>>, k: nat)
    requires
        k <= queue.len(),
    ensures
        rotated_times(queue, k) == queue.skip(k as int) + queue.take(k as int),
        k < queue.len() ==> rotated_times(queue, k)[0] == queue[k as int],
        rotated_times(queue, queue.len()) == queue,
{
    lemma_turns(queue, k);
    lemma_turns(queue, queue.len());
    assert(queue.skip(queue.len() as int) + queue.take(queue.len() as int) =~= queue);
}

proof fn lemma_turns(queue: Seq<Seq<char>>, k: nat)
    requires
        k <= queue.len(),
    ensures
        rotated_times(queue, k) == queue.skip(k as int) + queue.take(k as int),
    decreases k,
{
    if k == 0 {
        assert(queue.skip(0) + queue.take(0) =~= queue);
    } else {
        lemma_turns(queue, (k - 1) as nat);
        assert(rotated(queue.skip(k - 1) + queue.take(k - 1)) =~= queue.skip(k as int)
            + queue.take(k as int));
    }
}

} // verus!
