//! Event counts per key within a time window.

use vstd::prelude::*;

use crate::keyed_map::NameMap;

verus! {

/// The count of a key within its window.
#[derive(Clone, Copy, Debug, PartialEq, Eq, Structural)]
pub struct WindowCount {
    /// Events in the window.
    pub count: u64,
    /// When the window began, on the caller's clock.
    pub start: u64,
}

/// Lets at most a given number of events per key pass within a time window.
pub struct RateLimiter {
    window: u64,
    max_events: u64,
    counts: NameMap<WindowCount>,
}

/// The value of a [`RateLimiter`].
#[verifier::ext_equal]
pub struct LimiterModel {
    pub window: u64,
    pub max_events: u64,
    pub counts: Map<Seq<char>, WindowCount>,
}

impl View for RateLimiter {
    type V = LimiterModel;

    closed spec fn view(&self) -> LimiterModel {
        LimiterModel { window: self.window, max_events: self.max_events, counts: self.counts@ }
    }
}

impl LimiterModel {
    /// The count of a key with one more event at the given time. The count stops
    /// at the largest number.
    pub open spec fn counted(self, key: Seq<char>, now: u64) -> WindowCount {
        let entry = if self.counts.contains_key(key) {
            self.counts[key]
        } else {
            WindowCount { count: 0, start: now }
        };
        let open = if now > entry.start && now - entry.start > self.window {
            WindowCount { count: 0, start: now }
        } else {
            entry
        };
        WindowCount {
            count: if open.count < u64::MAX {
                (open.count + 1) as u64
            } else {
                open.count
            },
            start: open.start,
        }
    }

    /// Whether one more event may pass.
    pub open spec fn allows(self, key: Seq<char>, now: u64) -> bool {
        self.counted(key, now).count <= self.max_events
    }

    /// The limiter after one more event.
    pub open spec fn after(self, key: Seq<char>, now: u64) -> LimiterModel {
        LimiterModel { counts: self.counts.insert(key, self.counted(key, now)), ..self }
    }

    /// The limiter after events of one key at the given times.
    pub open spec fn after_all(self, key: Seq<char>, times: Seq<u64>) -> LimiterModel
        decreases times.len(),
    {
        if times.len() == 0 {
            self
        } else {
            self.after_all(key, times.drop_last()).after(key, times.last())
        }
    }

    /// Within a window that a key opens, exactly the allowed number of events
    /// passes.
    pub proof fn law_window_budget(self, key: Seq<char>, times: Seq<u64>, now: u64)
        requires
            !self.counts.contains_key(key),
            times.len() < u64::MAX,
            forall|i: int|
                0 <= i < times.len() ==> times[0] <= #[trigger] times[i] && times[i] - times[0]
                    <= self.window,
            times.len() > 0 ==> times[0] <= now && now - times[0] <= self.window,
        ensures
            self.after_all(key, times).allows(key, now) <==> times.len() < self.max_events,
            self.after_all(key, times).window == self.window,
            self.after_all(key, times).max_events == self.max_events,
            times.len() > 0 ==> self.after_all(key, times).counts.contains_key(key)
                && self.after_all(key, times).counts[key] == (WindowCount {
                count: times.len() as u64,
                start: times[0],
            }),
        decreases times.len(),
    {
        if times.len() > 0 {
            let rest = times.drop_last();
            if rest.len() > 0 {
                assert(rest[0] == times[0]);
                assert forall|i: int| 0 <= i < rest.len() implies rest[0] <= #[trigger] rest[i]
                    && rest[i] - rest[0] <= self.window by {
                    assert(rest[i] == times[i]);
                }
            }
            self.law_window_budget(key, rest, times.last());
        }
    }

    /// Events of one key leave the other keys alone.
    pub proof fn law_keys_are_independent(self, key: Seq<char>, now: u64, other: Seq<char>, at: u64)
        requires
            key != other,
        ensures
            self.after(key, now).allows(other, at) == self.allows(other, at),
    {
    }
}

impl RateLimiter {
    /// The index of the counts is in order.
    pub closed spec fn wf(&self) -> bool {
        self.counts.wf()
    }

    /// A limiter for the given window, in the units of the caller's clock.
    pub fn new(window: u64, max_events: u64) -> (r: Self)
        ensures
            r.wf(),
            r@ == (LimiterModel { window, max_events, counts: Map::empty() }),
    {
        RateLimiter { window, max_events, counts: NameMap::new() }
    }

    /// Counts an event and tells whether it may pass.
    pub fn allow(&mut self, key: &str, now: u64) -> (r: bool)
        requires
            old(self).wf(),
        ensures
            final(self).wf(),
            r == old(self)@.allows(key@, now),
            final(self)@ == old(self)@.after(key@, now),
    {
        let name: String = key.to_string();
        let entry = match self.counts.get(&name) {
            Some(e) => *e,
            None => WindowCount { count: 0, start: now },
        };
        let open = if now > entry.start && now - entry.start > self.window {
            WindowCount { count: 0, start: now }
        } else {
            entry
        };
        let counted = WindowCount {
            count: if open.count < u64::MAX {
                open.count + 1
            } else {
                open.count
            },
            start: open.start,
        };
        let ghost before = self@;
        self.counts.insert(name, counted);
        assert(self@ =~= before.after(key@, now));
        counted.count <= self.max_events
    }
}

} // verus!
