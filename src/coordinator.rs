use vstd::prelude::*;
use crate::correlation_engine::{copy_rules, CorrelationEngine, Event};
use crate::detection::Detection;
use crate::frequency_tracker::FrequencyTracker;
use crate::log_reader::{all_valid, pass_ok, read_from, split_lines, views, ReadError};
use crate::pattern_matcher::PatternMatcher;
use crate::rules::Rules;
use crate::text::str_eq;

verus! {

/// What is kept for one watched file between two read passes.
pub struct FileReadState {
    pub file_path: String,
    pub byte_offset: u64,
    pub line_number: usize,
    pub engine: CorrelationEngine,
    pub tracker: Option<FrequencyTracker>,
}

/// The read state of every watched file, keyed by path. Each file's state
/// changes only through its own read passes.
pub struct Coordinator {
    states: Vec<FileReadState>,
}

/// `t0` and `e0` are the analyzers of a file read for the first time: a
/// tracker with no timestamps when `rules` has a frequency rule, and an
/// engine with the correlated rules and an empty buffer.
pub open spec fn fresh_analyzers(rules: Rules, t0: Option<FrequencyTracker>, e0: CorrelationEngine) -> bool {
    &&& match rules.frequency_rules {
        None => t0 is None,
        Some(f) => t0 matches Some(t) && t.wf() && t.max_count() == f.max_same_errors_per_minute
            && t.window_seconds() == f.time_window_seconds && forall|name: Seq<char>|
            #[trigger] t.stamps_of(name) == Seq::<i64>::empty(),
    }
    &&& e0.rules() == rules.correlated_rules@
    &&& e0.events() == Seq::<Event>::empty()
}

/// A pass over a file whose saved state is `entry` starts from the saved
/// analyzers, or from fresh ones when the file was not read before.
pub open spec fn starts_from(
    entry: Option<FileReadState>,
    rules: Rules,
    t0: Option<FrequencyTracker>,
    e0: CorrelationEngine,
) -> bool {
    match entry {
        Some(s) => t0 == s.tracker && e0 == s.engine,
        None => fresh_analyzers(rules, t0, e0),
    }
}

impl Coordinator {
    /// At most one state per path, and every frequency tracker well formed.
    pub closed spec fn wf(&self) -> bool {
        &&& forall|i: int, j: int|
            0 <= i < self.states@.len() && 0 <= j < self.states@.len() && i != j
                ==> (#[trigger] self.states@[i]).file_path@ != (#[trigger] self.states@[j]).file_path@
        &&& forall|i: int|
            0 <= i < self.states@.len() ==> ((#[trigger] self.states@[i]).tracker matches Some(t)
                ==> t.wf())
    }

    /// The saved state of `path`, if it was read before.
    pub closed spec fn entry(&self, path: Seq<char>) -> Option<FileReadState> {
        if exists|i: int| 0 <= i < self.states@.len() && #[trigger] self.states@[i].file_path@ == path {
            let i = choose|i: int|
                0 <= i < self.states@.len() && #[trigger] self.states@[i].file_path@ == path;
            Some(self.states@[i])
        } else {
            None
        }
    }

    /// The saved offset and line number of `path`, if it was read before.
    pub open spec fn position(&self, path: Seq<char>) -> Option<(u64, usize)> {
        match self.entry(path) {
            Some(s) => Some((s.byte_offset, s.line_number)),
            None => None,
        }
    }

    /// Where a read of `path` resumes: its saved position, or the start of
    /// the file.
    pub open spec fn start_of(&self, path: Seq<char>) -> (u64, usize) {
        match self.position(path) {
            Some(p) => p,
            None => (0, 0),
        }
    }

    proof fn lemma_entry_at(&self, i: int)
        requires
            self.wf(),
            0 <= i < self.states@.len(),
        ensures
            self.entry(self.states@[i].file_path@) == Some(self.states@[i]),
    {
    }

    proof fn lemma_same_paths_same_entries(&self, other: &Coordinator, path: Seq<char>, skip: int)
        requires
            self.wf(),
            other.wf(),
            self.states@.len() == other.states@.len(),
            forall|i: int|
                0 <= i < self.states@.len() && i != skip ==> #[trigger] self.states@[i] == other.states@[i],
            0 <= skip < self.states@.len() ==> self.states@[skip].file_path@ == other.states@[skip].file_path@,
            0 <= skip < self.states@.len() ==> self.states@[skip].file_path@ != path,
        ensures
            self.entry(path) == other.entry(path),
    {
        if exists|i: int| 0 <= i < self.states@.len() && #[trigger] self.states@[i].file_path@ == path {
            let i = choose|i: int| 0 <= i < self.states@.len() && #[trigger] self.states@[i].file_path@ == path;
            self.lemma_entry_at(i);
            other.lemma_entry_at(i);
        } else {
            assert(!exists|i: int| 0 <= i < other.states@.len() && #[trigger] other.states@[i].file_path@ == path) by {
                if exists|i: int| 0 <= i < other.states@.len() && #[trigger] other.states@[i].file_path@ == path {
                    let i = choose|i: int| 0 <= i < other.states@.len() && #[trigger] other.states@[i].file_path@ == path;
                    assert(self.states@[i].file_path@ == path);
                }
            }
        }
    }

    pub fn new() -> (r: Coordinator)
        ensures
            r.wf(),
            forall|path: Seq<char>| #[trigger] r.entry(path) is None,
    {
        Coordinator { states: Vec::new() }
    }

    fn find(&self, path: &str) -> (r: Option<usize>)
        ensures
            match r {
                Some(i) => i < self.states@.len() && self.states@[i as int].file_path@ == path@,
                None => forall|j: int|
                    0 <= j < self.states@.len() ==> (#[trigger] self.states@[j]).file_path@ != path@,
            },
    {
        let mut i: usize = 0;
        while i < self.states.len()
            invariant
                i <= self.states@.len(),
                forall|j: int| 0 <= j < i ==> (#[trigger] self.states@[j]).file_path@ != path@,
            decreases self.states@.len() - i,
        {
            if str_eq(self.states[i].file_path.as_str(), path) {
                return Some(i);
            }
            i += 1;
        }
        None
    }

    /// The offset and line number from which `path` is read next.
    pub fn resume_point(&self, path: &str) -> (r: (u64, usize))
        requires
            self.wf(),
        ensures
            r == self.start_of(path@),
    {
        match self.find(path) {
            Some(i) => {
                proof {
                    self.lemma_entry_at(i as int);
                }
                (self.states[i].byte_offset, self.states[i].line_number)
            },
            None => (0, 0),
        }
    }

    /// Handles a change of `path`: reads `chunk`, the bytes that follow the
    /// file's saved offset, with the file's own analyzers (fresh ones on the
    /// first read), and saves the new position. No other file's state moves.
    pub fn on_change(
        &mut self,
        path: &str,
        chunk: &Vec<u8>,
        matcher: &PatternMatcher,
        rules: &Rules,
    ) -> (r: Result<Vec<Detection>, ReadError>)
        requires
            old(self).wf(),
            matcher.wf(),
        ensures
            final(self).wf(),
            r is Ok <==> {
                &&& old(self).start_of(path@).0 + chunk@.len() <= u64::MAX
                &&& old(self).start_of(path@).1 + chunk@.len() < usize::MAX
                &&& all_valid(split_lines(chunk@))
            },
            r is Err ==> final(self).entry(path@) == old(self).entry(path@),
            forall|other: Seq<char>|
                other != path@ ==> #[trigger] final(self).entry(other) == old(self).entry(other),
            r matches Ok(d) ==> final(self).entry(path@) matches Some(st) && exists|
                t0: Option<FrequencyTracker>,
                e0: CorrelationEngine,
            |
                #[trigger] starts_from(old(self).entry(path@), *rules, t0, e0) && pass_ok(
                    *matcher,
                    path@,
                    chunk@,
                    old(self).start_of(path@).0,
                    old(self).start_of(path@).1,
                    t0,
                    e0,
                    st.tracker,
                    st.engine,
                    st.byte_offset,
                    st.line_number,
                    views(d@),
                ),
    {
        let found = self.find(path);
        let ghost before = *self;
        let mut st = match found {
            Some(i) => {
                proof {
                    self.lemma_entry_at(i as int);
                }
                self.states.remove(i)
            },
            None => {
                let tracker = match &rules.frequency_rules {
                    Some(f) => Some(
                        FrequencyTracker::new(f.max_same_errors_per_minute, f.time_window_seconds),
                    ),
                    None => None,
                };
                FileReadState {
                    file_path: path.to_owned(),
                    byte_offset: 0,
                    line_number: 0,
                    engine: CorrelationEngine::new(copy_rules(rules.correlated_rules.as_slice())),
                    tracker,
                }
            },
        };
        let ghost st0 = st;
        assert(st.byte_offset == before.start_of(path@).0 && st.line_number == before.start_of(path@).1);
        let fits = chunk.len() as u64 <= u64::MAX - st.byte_offset && chunk.len() < usize::MAX - st.line_number;
        let res = if fits {
            read_from(matcher, path, chunk, st.byte_offset, st.line_number, &mut st.tracker, &mut st.engine)
        } else {
            Err(ReadError::PositionOverflow)
        };
        let ok = res.is_ok();
        match res {
            Ok((o, n, _)) => {
                st.byte_offset = o;
                st.line_number = n;
            },
            Err(_) => {},
        }
        let ghost stf = st;
        proof {
            assert(starts_from(before.entry(path@), *rules, st0.tracker, st0.engine));
            if !ok {
                assert(stf == st0);
            }
        }
        match found {
            Some(i) => {
                self.states.insert(i, st);
                proof {
                    assert(self.states@ == before.states@.update(i as int, st));
                    assert(self.wf());
                    self.lemma_entry_at(i as int);
                    assert(self.states@[i as int] == stf);
                    assert(self.entry(path@) == Some(stf));
                    assert forall|other: Seq<char>| other != path@ implies #[trigger] self.entry(other)
                        == before.entry(other) by {
                        self.lemma_same_paths_same_entries(&before, other, i as int);
                    }
                }
            },
            None => {
                if ok {
                    self.states.push(st);
                    proof {
                        let k = before.states@.len() as int;
                        assert(self.wf());
                        self.lemma_entry_at(k);
                        assert(self.entry(path@) == Some(stf));
                        assert forall|other: Seq<char>| other != path@ implies #[trigger] self.entry(other)
                            == before.entry(other) by {
                            if exists|j: int| 0 <= j < before.states@.len() && #[trigger] before.states@[j].file_path@ == other {
                                let j = choose|j: int| 0 <= j < before.states@.len() && #[trigger] before.states@[j].file_path@ == other;
                                before.lemma_entry_at(j);
                                assert(self.states@[j] == before.states@[j]);
                                self.lemma_entry_at(j);
                            } else {
                                assert(!exists|j: int| 0 <= j < self.states@.len() && #[trigger] self.states@[j].file_path@ == other);
                            }
                        }
                    }
                }
            },
        }
        proof {
            if !ok {
                assert(self.states@ =~= before.states@);
            }
        }
        match res {
            Ok((o, n, d)) => {
                assert(pass_ok(
                    *matcher,
                    path@,
                    chunk@,
                    before.start_of(path@).0,
                    before.start_of(path@).1,
                    st0.tracker,
                    st0.engine,
                    stf.tracker,
                    stf.engine,
                    stf.byte_offset,
                    stf.line_number,
                    views(d@),
                ));
                assert(self.entry(path@) == Some(stf));
                assert(starts_from(before.entry(path@), *rules, st0.tracker, st0.engine));
                assert(before == *old(self));
                Ok(d)
            },
            Err(e) => Err(e),
        }
    }
}

} // verus!
