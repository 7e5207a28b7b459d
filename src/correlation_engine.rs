use vstd::prelude::*;
use std::collections::VecDeque;
use crate::clock::{instant_now, monotonic_millis};
use crate::detection::{severity_of, Detection, Severity};
use crate::rules::{CorrelatedRule, TriggerRule};
use crate::text::{lower_of, str_eq};

verus! {

/// A detection and the time (in milliseconds of the engine's monotonic
/// clock) at which the engine saw it.
pub struct Event {
    pub timestamp: i64,
    pub detection: Detection,
}

/// How far back, in seconds, the buffer keeps events: the widest window of
/// all rules, or 60 seconds when there is no rule.
pub open spec fn horizon_seconds(rules: Seq<CorrelatedRule>) -> nat
    decreases rules.len(),
{
    if rules.len() == 0 {
        60
    } else if rules.len() == 1 {
        rules[0].time_window_seconds as nat
    } else {
        let rest = horizon_seconds(rules.drop_last());
        let w = rules.last().time_window_seconds as nat;
        if w > rest {
            w
        } else {
            rest
        }
    }
}

/// `events` without its longest leading run of events older than `cutoff`.
pub open spec fn prune(events: Seq<Event>, cutoff: int) -> Seq<Event>
    decreases events.len(),
{
    if events.len() > 0 && events[0].timestamp < cutoff {
        prune(events.subrange(1, events.len() as int), cutoff)
    } else {
        events
    }
}

/// The position of the most recent event whose pattern name is `name`.
pub open spec fn last_pos(events: Seq<Event>, name: Seq<char>) -> Option<int>
    decreases events.len(),
{
    if events.len() == 0 {
        None
    } else if events.last().detection.pattern_name@ == name {
        Some(events.len() - 1)
    } else {
        last_pos(events.drop_last(), name)
    }
}

proof fn lemma_last_pos_in_bounds(events: Seq<Event>, name: Seq<char>)
    ensures
        last_pos(events, name) matches Some(p) ==> 0 <= p < events.len()
            && events[p].detection.pattern_name@ == name,
    decreases events.len(),
{
    if events.len() > 0 {
        lemma_last_pos_in_bounds(events.drop_last(), name);
    }
}

/// How many of `events` carry `name` and are no older than `start`.
pub open spec fn count_triggers(events: Seq<Event>, name: Seq<char>, start: int) -> nat
    decreases events.len(),
{
    if events.len() == 0 {
        0
    } else {
        let rest = count_triggers(events.drop_last(), name, start);
        if events.last().detection.pattern_name@ == name && events.last().timestamp >= start {
            rest + 1
        } else {
            rest
        }
    }
}

/// The rule fires: its `followed_by` event is buffered, and before the most
/// recent one stand enough trigger events within the rule's window of `now`.
pub open spec fn fires(rule: CorrelatedRule, events: Seq<Event>, now: int) -> bool {
    match last_pos(events, rule.followed_by@) {
        Some(p) => count_triggers(
            events.subrange(0, p),
            rule.trigger_on_rule.name@,
            now - rule.time_window_seconds * 1000,
        ) >= rule.trigger_on_rule.count,
        None => false,
    }
}

/// `k` is the first rule that fires.
pub open spec fn is_first_firing(rules: Seq<CorrelatedRule>, events: Seq<Event>, now: int, k: int) -> bool {
    &&& 0 <= k < rules.len()
    &&& fires(rules[k], events, now)
    &&& forall|j: int| 0 <= j < k ==> !fires(#[trigger] rules[j], events, now)
}

/// `d` is the detection that `rule` synthesizes: the rule's name and
/// severity at the place of the most recent `followed_by` event.
pub open spec fn explains(rule: CorrelatedRule, events: Seq<Event>, d: Detection) -> bool {
    let p = last_pos(events, rule.followed_by@)->0;
    &&& d.severity == severity_of(lower_of(rule.severity@))
    &&& d.pattern_name@ == rule.name@
    &&& d.file_path == events[p].detection.file_path
    &&& d.line_number == events[p].detection.line_number
    &&& d.matched_line == events[p].detection.matched_line
}

/// What the rules conclude from the buffer at time `now`.
pub open spec fn check_outcome(
    rules: Seq<CorrelatedRule>,
    events: Seq<Event>,
    now: int,
    r: Option<Detection>,
) -> bool {
    match r {
        None => forall|k: int| 0 <= k < rules.len() ==> !fires(#[trigger] rules[k], events, now),
        Some(d) => exists|k: int| is_first_firing(rules, events, now, k) && explains(rules[k], events, d),
    }
}

/// Evaluates correlated rules over a time-ordered buffer of recent detections.
pub struct CorrelationEngine {
    rules: Vec<CorrelatedRule>,
    recent_events: VecDeque<Event>,
    origin: std::time::Instant,
}

impl TriggerRule {
    /// A field-by-field copy.
    pub fn copy(&self) -> (r: TriggerRule)
        ensures
            r == *self,
    {
        TriggerRule { name: self.name.clone(), count: self.count }
    }
}

impl CorrelatedRule {
    /// A field-by-field copy.
    pub fn copy(&self) -> (r: CorrelatedRule)
        ensures
            r == *self,
    {
        CorrelatedRule {
            name: self.name.clone(),
            severity: self.severity.clone(),
            description: self.description.clone(),
            time_window_seconds: self.time_window_seconds,
            trigger_on_rule: self.trigger_on_rule.copy(),
            followed_by: self.followed_by.clone(),
        }
    }
}

/// A copy of each rule, in order.
pub fn copy_rules(rules: &[CorrelatedRule]) -> (r: Vec<CorrelatedRule>)
    ensures
        r@ == rules@,
{
    let mut r: Vec<CorrelatedRule> = Vec::new();
    let mut i: usize = 0;
    while i < rules.len()
        invariant
            i <= rules@.len(),
            r@ == rules@.subrange(0, i as int),
        decreases rules@.len() - i,
    {
        r.push(rules[i].copy());
        i += 1;
    }
    assert(r@ =~= rules@);
    r
}

impl CorrelationEngine {
    pub closed spec fn rules(&self) -> Seq<CorrelatedRule> {
        self.rules@
    }

    pub closed spec fn events(&self) -> Seq<Event> {
        self.recent_events@
    }

    pub fn new(rules: Vec<CorrelatedRule>) -> (r: CorrelationEngine)
        ensures
            r.rules() == rules@,
            r.events() == Seq::<Event>::empty(),
    {
        CorrelationEngine { rules, recent_events: VecDeque::new(), origin: instant_now() }
    }

    /// The retention horizon in seconds.
    fn horizon(&self) -> (r: u64)
        ensures
            r as nat == horizon_seconds(self.rules@),
    {
        if self.rules.len() == 0 {
            return 60;
        }
        let mut best: u64 = self.rules[0].time_window_seconds;
        let mut i: usize = 1;
        while i < self.rules.len()
            invariant
                1 <= i <= self.rules@.len(),
                best as nat == horizon_seconds(self.rules@.subrange(0, i as int)),
            decreases self.rules@.len() - i,
        {
            assert(self.rules@.subrange(0, i as int + 1).drop_last() == self.rules@.subrange(0, i as int));
            if self.rules[i].time_window_seconds > best {
                best = self.rules[i].time_window_seconds;
            }
            i += 1;
        }
        assert(self.rules@.subrange(0, i as int) == self.rules@);
        best
    }

    /// Drops, from the front, every event older than the retention horizon
    /// before `now`.
    pub fn cleanup_old_events(&mut self, now: i64)
        ensures
            final(self).rules() == old(self).rules(),
            final(self).events() == prune(
                old(self).events(),
                now - horizon_seconds(old(self).rules()) * 1000,
            ),
    {
        let cutoff: i128 = (now as i128) - (self.horizon() as i128) * 1000;
        let ghost target = prune(self.recent_events@, cutoff as int);
        while self.recent_events.len() > 0 && (self.recent_events[0].timestamp as i128) < cutoff
            invariant
                self.rules@ == old(self).rules@,
                prune(self.recent_events@, cutoff as int) == target,
            decreases self.recent_events@.len(),
        {
            self.recent_events.pop_front();
        }
    }

    /// The position of the most recent buffered event named `name`.
    fn last_position(&self, name: &str) -> (r: Option<usize>)
        ensures
            match r {
                Some(p) => last_pos(self.recent_events@, name@) == Some(p as int) && p
                    < self.recent_events@.len(),
                None => last_pos(self.recent_events@, name@) is None,
            },
    {
        let ghost s = self.recent_events@;
        let mut j: usize = self.recent_events.len();
        assert(s.subrange(0, j as int) == s);
        proof {
            lemma_last_pos_in_bounds(s, name@);
        }
        while j > 0
            invariant
                j <= s.len(),
                s == self.recent_events@,
                last_pos(s, name@) == last_pos(s.subrange(0, j as int), name@),
            decreases j,
        {
            assert(s.subrange(0, j as int).drop_last() == s.subrange(0, j as int - 1));
            if str_eq(self.recent_events[j - 1].detection.pattern_name.as_str(), name) {
                return Some(j - 1);
            }
            j -= 1;
        }
        None
    }

    /// Counts the events before position `p` that are named `name` and no
    /// older than `start`.
    fn count_before(&self, p: usize, name: &str, start: i128) -> (r: usize)
        requires
            p <= self.recent_events@.len(),
        ensures
            r as nat == count_triggers(self.recent_events@.subrange(0, p as int), name@, start as int),
    {
        let ghost s = self.recent_events@;
        let mut n: usize = 0;
        let mut i: usize = 0;
        while i < p
            invariant
                i <= p <= s.len(),
                s == self.recent_events@,
                n <= i,
                n as nat == count_triggers(s.subrange(0, i as int), name@, start as int),
            decreases p - i,
        {
            assert(s.subrange(0, i as int + 1).drop_last() == s.subrange(0, i as int));
            let e = &self.recent_events[i];
            if str_eq(e.detection.pattern_name.as_str(), name) && (e.timestamp as i128) >= start {
                n += 1;
            }
            i += 1;
        }
        n
    }

    /// The detection of the first correlated rule that fires at `now`.
    pub fn check_rules(&self, now: i64) -> (r: Option<Detection>)
        ensures
            check_outcome(self.rules(), self.events(), now as int, r),
    {
        let mut k: usize = 0;
        while k < self.rules.len()
            invariant
                k <= self.rules@.len(),
                forall|j: int| 0 <= j < k ==> !fires(#[trigger] self.rules@[j], self.recent_events@, now as int),
            decreases self.rules@.len() - k,
        {
            let rule = &self.rules[k];
            match self.last_position(rule.followed_by.as_str()) {
                Some(p) => {
                    let start: i128 = (now as i128) - (rule.time_window_seconds as i128) * 1000;
                    let count = self.count_before(p, rule.trigger_on_rule.name.as_str(), start);
                    if count >= rule.trigger_on_rule.count {
                        let e = &self.recent_events[p];
                        let d = Detection {
                            severity: Severity::from_tag(rule.severity.as_str()),
                            file_path: e.detection.file_path.clone(),
                            line_number: e.detection.line_number,
                            matched_line: e.detection.matched_line.clone(),
                            pattern_name: rule.name.clone(),
                        };
                        assert(is_first_firing(self.rules@, self.recent_events@, now as int, k as int));
                        return Some(d);
                    }
                },
                None => {},
            }
            k += 1;
        }
        None
    }

    /// Buffers `detection` as seen at `now`, prunes the buffer, and returns
    /// the detection synthesized by the first correlated rule that fires.
    pub fn add_detection_at(&mut self, detection: Detection, now: i64) -> (r: Option<Detection>)
        ensures
            final(self).rules() == old(self).rules(),
            final(self).events() == prune(
                old(self).events().push(Event { timestamp: now, detection }),
                now - horizon_seconds(old(self).rules()) * 1000,
            ),
            check_outcome(old(self).rules(), final(self).events(), now as int, r),
    {
        self.recent_events.push_back(Event { timestamp: now, detection });
        self.cleanup_old_events(now);
        self.check_rules(now)
    }

    /// The engine's clock: milliseconds since it was made.
    pub fn clock_millis(&self) -> (r: i64)
        ensures
            r >= 0,
    {
        monotonic_millis(&self.origin)
    }

    /// `add_detection_at` at the current time.
    pub fn add_detection(&mut self, detection: Detection) -> (r: Option<Detection>)
        ensures
            final(self).rules() == old(self).rules(),
            exists|now: i64|
                {
                    &&& final(self).events() == prune(
                        old(self).events().push(Event { timestamp: now, detection }),
                        now - horizon_seconds(old(self).rules()) * 1000,
                    )
                    &&& check_outcome(old(self).rules(), final(self).events(), now as int, r)
                },
    {
        let now = self.clock_millis();
        self.add_detection_at(detection, now)
    }
}

} // verus!
