use vstd::prelude::*;
use crate::clock::now_millis;
use crate::text::str_eq;

verus! {

/// The timestamps of `stamps`, in order, that lie at most `window_ms`
/// before `now`.
pub open spec fn recent(stamps: Seq<i64>, now: int, window_ms: int) -> Seq<i64>
    decreases stamps.len(),
{
    if stamps.len() == 0 {
        Seq::empty()
    } else {
        let kept = recent(stamps.drop_last(), now, window_ms);
        if now - stamps.last() <= window_ms {
            kept.push(stamps.last())
        } else {
            kept
        }
    }
}

/// A count as a `u32`, saturating at the largest value.
pub open spec fn count_u32(n: nat) -> u32 {
    if n > u32::MAX {
        u32::MAX
    } else {
        n as u32
    }
}

/// The timestamps recorded for one pattern name.
pub struct PatternWindow {
    name: String,
    stamps: Vec<i64>,
}

/// Per-pattern sliding windows of occurrence times.
pub struct FrequencyTracker {
    trackers: Vec<PatternWindow>,
    max_same_errors_per_minute: u32,
    time_window_seconds: u32,
}

impl FrequencyTracker {
    pub closed spec fn max_count(&self) -> u32 {
        self.max_same_errors_per_minute
    }

    pub closed spec fn window_seconds(&self) -> u32 {
        self.time_window_seconds
    }

    /// At most one window per pattern name.
    pub closed spec fn wf(&self) -> bool {
        forall|i: int, j: int|
            0 <= i < self.trackers@.len() && 0 <= j < self.trackers@.len() && i != j
                ==> (#[trigger] self.trackers@[i]).name@ != (#[trigger] self.trackers@[j]).name@
    }

    /// The timestamps kept for `name`; empty for a name never seen.
    pub closed spec fn stamps_of(&self, name: Seq<char>) -> Seq<i64> {
        if exists|i: int| 0 <= i < self.trackers@.len() && #[trigger] self.trackers@[i].name@ == name {
            let i = choose|i: int|
                0 <= i < self.trackers@.len() && #[trigger] self.trackers@[i].name@ == name;
            self.trackers@[i].stamps@
        } else {
            Seq::empty()
        }
    }

    /// What one call at time `now` does: drop the stale timestamps of
    /// `name`, record `now`, and report the count when it exceeds the limit.
    pub open spec fn track_step(
        old: &FrequencyTracker,
        new: &FrequencyTracker,
        name: Seq<char>,
        now: i64,
        r: Option<u32>,
    ) -> bool {
        let kept = recent(old.stamps_of(name), now as int, old.window_seconds() * 1000).push(now);
        &&& new.wf()
        &&& new.max_count() == old.max_count()
        &&& new.window_seconds() == old.window_seconds()
        &&& new.stamps_of(name) == kept
        &&& forall|other: Seq<char>|
            other != name ==> #[trigger] new.stamps_of(other) == old.stamps_of(other)
        &&& r == if kept.len() > old.max_count() {
            Some(count_u32(kept.len()))
        } else {
            None
        }
    }

    /// The index of the window kept for `name`, if any.
    fn find(&self, name: &str) -> (r: Option<usize>)
        ensures
            match r {
                Some(i) => i < self.trackers@.len() && self.trackers@[i as int].name@ == name@,
                None => forall|j: int|
                    0 <= j < self.trackers@.len() ==> (#[trigger] self.trackers@[j]).name@ != name@,
            },
    {
        let mut idx: usize = 0;
        while idx < self.trackers.len()
            invariant
                idx <= self.trackers@.len(),
                forall|j: int| 0 <= j < idx ==> (#[trigger] self.trackers@[j]).name@ != name@,
            decreases self.trackers@.len() - idx,
        {
            if str_eq(self.trackers[idx].name.as_str(), name) {
                return Some(idx);
            }
            idx += 1;
        }
        None
    }

    proof fn lemma_stamps_at(&self, i: int)
        requires
            self.wf(),
            0 <= i < self.trackers@.len(),
        ensures
            self.stamps_of(self.trackers@[i].name@) == self.trackers@[i].stamps@,
    {
    }

    pub fn new(max_same_errors_per_minute: u32, time_window_seconds: u32) -> (r: FrequencyTracker)
        ensures
            r.wf(),
            r.max_count() == max_same_errors_per_minute,
            r.window_seconds() == time_window_seconds,
            forall|name: Seq<char>| #[trigger] r.stamps_of(name) == Seq::<i64>::empty(),
    {
        FrequencyTracker { trackers: Vec::new(), max_same_errors_per_minute, time_window_seconds }
    }

    pub fn max_same_errors_per_minute(&self) -> (r: u32)
        ensures
            r == self.max_count(),
    {
        self.max_same_errors_per_minute
    }

    pub fn time_window_seconds(&self) -> (r: u32)
        ensures
            r == self.window_seconds(),
    {
        self.time_window_seconds
    }

    /// Records one occurrence of `pattern_name` at `now_ms` (milliseconds) and
    /// returns the number of occurrences in the window when it exceeds the
    /// limit.
    pub fn track_event_at(&mut self, pattern_name: &str, now_ms: i64) -> (r: Option<u32>)
        requires
            old(self).wf(),
        ensures
            FrequencyTracker::track_step(old(self), final(self), pattern_name@, now_ms, r),
    {
        let ghost name = pattern_name@;
        let found = self.find(pattern_name);
        let idx: usize = match found {
            Some(i) => i,
            None => self.trackers.len(),
        };
        if idx == self.trackers.len() {
            proof {
                assert(self.stamps_of(name) == Seq::<i64>::empty());
            }
            self.trackers.push(PatternWindow { name: pattern_name.to_owned(), stamps: Vec::new() });
            proof {
                let n = self.trackers@.len() - 1;
                assert(self.trackers@[n].name@ == name);
                assert forall|other: Seq<char>| other != name implies #[trigger] self.stamps_of(other)
                    == old(self).stamps_of(other) by {
                    if exists|i: int| 0 <= i < old(self).trackers@.len() && #[trigger] old(self).trackers@[i].name@ == other {
                        let i = choose|i: int| 0 <= i < old(self).trackers@.len() && #[trigger] old(self).trackers@[i].name@ == other;
                        old(self).lemma_stamps_at(i);
                        self.lemma_stamps_at(i);
                    } else {
                        assert(!exists|i: int| 0 <= i < self.trackers@.len() && #[trigger] self.trackers@[i].name@ == other);
                    }
                }
                self.lemma_stamps_at(n);
            }
        }
        let ghost mid = *self;
        proof {
            self.lemma_stamps_at(idx as int);
        }
        let window_ms: i128 = (self.time_window_seconds as i128) * 1000;
        let mut kept: Vec<i64> = Vec::new();
        let mut k: usize = 0;
        let old_len = self.trackers[idx].stamps.len();
        while k < old_len
            invariant
                *self == mid,
                idx < self.trackers@.len(),
                old_len == self.trackers@[idx as int].stamps@.len(),
                window_ms == self.time_window_seconds * 1000,
                k <= old_len,
                kept@ == recent(self.trackers@[idx as int].stamps@.subrange(0, k as int), now_ms as int, window_ms as int),
            decreases old_len - k,
        {
            let t = self.trackers[idx].stamps[k];
            let ghost s = self.trackers@[idx as int].stamps@;
            assert(s.subrange(0, k as int + 1).drop_last() == s.subrange(0, k as int));
            if (now_ms as i128) - (t as i128) <= window_ms {
                kept.push(t);
            }
            k += 1;
        }
        assert(self.trackers@[idx as int].stamps@.subrange(0, old_len as int) == self.trackers@[idx as int].stamps@);
        kept.push(now_ms);
        let count: usize = kept.len();
        let entry_name = self.trackers[idx].name.clone();
        self.trackers.set(idx, PatternWindow { name: entry_name, stamps: kept });
        proof {
            assert forall|i: int| 0 <= i < self.trackers@.len() implies (#[trigger] self.trackers@[i]).name
                == mid.trackers@[i].name by {}
            assert(self.wf());
            self.lemma_stamps_at(idx as int);
            assert forall|other: Seq<char>| other != name implies #[trigger] self.stamps_of(other)
                == mid.stamps_of(other) by {
                if exists|i: int| 0 <= i < mid.trackers@.len() && #[trigger] mid.trackers@[i].name@ == other {
                    let i = choose|i: int| 0 <= i < mid.trackers@.len() && #[trigger] mid.trackers@[i].name@ == other;
                    mid.lemma_stamps_at(i);
                    self.lemma_stamps_at(i);
                } else {
                    assert(!exists|i: int| 0 <= i < self.trackers@.len() && #[trigger] self.trackers@[i].name@ == other);
                }
            }
        }
        if count > self.max_same_errors_per_minute as usize {
            if count > u32::MAX as usize {
                Some(u32::MAX)
            } else {
                Some(count as u32)
            }
        } else {
            None
        }
    }

    /// Records one occurrence of `pattern_name` now, as `track_event_at` does
    /// for the current time.
    pub fn track_event(&mut self, pattern_name: &str) -> (r: Option<u32>)
        requires
            old(self).wf(),
        ensures
            exists|now: i64| FrequencyTracker::track_step(old(self), final(self), pattern_name@, now, r),
    {
        let now = now_millis();
        self.track_event_at(pattern_name, now)
    }
}

/// Sliding-window eviction: every timestamp that still counts lies at most
/// one window before the current time, so an event older than the window
/// never adds to the total, and every timestamp within the window is kept.
pub proof fn lemma_stale_events_never_count(stamps: Seq<i64>, now: int, window_ms: int)
    ensures
        forall|k: int|
            0 <= k < recent(stamps, now, window_ms).len() ==> now - #[trigger] recent(
                stamps,
                now,
                window_ms,
            )[k] <= window_ms,
        forall|k: int|
            0 <= k < stamps.len() && now - stamps[k] <= window_ms ==> recent(
                stamps,
                now,
                window_ms,
            ).contains(#[trigger] stamps[k]),
    decreases stamps.len(),
{
    if stamps.len() > 0 {
        lemma_stale_events_never_count(stamps.drop_last(), now, window_ms);
        let kept = recent(stamps.drop_last(), now, window_ms);
        assert forall|k: int| 0 <= k < stamps.len() && now - stamps[k] <= window_ms implies recent(
            stamps,
            now,
            window_ms,
        ).contains(#[trigger] stamps[k]) by {
            if k < stamps.len() - 1 {
                assert(stamps.drop_last()[k] == stamps[k]);
                let w = choose|w: int| 0 <= w < kept.len() && kept[w] == stamps[k];
                if now - stamps.last() <= window_ms {
                    assert(kept.push(stamps.last())[w] == stamps[k]);
                }
            } else {
                assert(kept.push(stamps.last())[kept.len() as int] == stamps[k]);
            }
        }
    }
}

} // verus!
