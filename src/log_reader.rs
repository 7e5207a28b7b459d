use vstd::prelude::*;
use vstd::utf8::{decode_utf8, valid_utf8};
use crate::clock::now_millis;
use crate::correlation_engine::{check_outcome, horizon_seconds, prune, CorrelationEngine, Event};
use crate::detection::{
    create_detection, create_frequency_detection, frequency_label, severity_of, Detection, Finding,
    Severity,
};
use crate::frequency_tracker::FrequencyTracker;
use crate::pattern_matcher::{match_line, PatternMatcher};
use crate::text::lower_of;

verus! {

/// Relies on `String::from_utf8`: a string exactly when the bytes are valid
/// UTF-8, holding the characters they encode.
#[verifier::external_body]
fn decode_line(bytes: Vec<u8>) -> (r: Option<String>)
    ensures
        r is Some <==> valid_utf8(bytes@),
        r matches Some(s) ==> s@ == decode_utf8(bytes@),
{
    String::from_utf8(bytes).ok()
}

/// The number of bytes before the first newline (all of them if there is none).
pub open spec fn line_len(b: Seq<u8>) -> nat
    decreases b.len(),
{
    if b.len() == 0 {
        0
    } else if b[0] == 10u8 {
        0
    } else {
        1 + line_len(b.subrange(1, b.len() as int))
    }
}

/// A line without the carriage return that may end it.
pub open spec fn strip_cr(line: Seq<u8>) -> Seq<u8> {
    if line.len() > 0 && line.last() == 13u8 {
        line.drop_last()
    } else {
        line
    }
}

/// Where the rest of `b` starts once its first line and newline are consumed.
pub open spec fn after_line(b: Seq<u8>) -> int {
    if line_len(b) + 1 < b.len() {
        (line_len(b) + 1) as int
    } else {
        b.len() as int
    }
}

/// The lines of `b`, split at each newline; a last line without newline is a
/// line too.
pub open spec fn split_lines(b: Seq<u8>) -> Seq<Seq<u8>>
    decreases b.len(),
{
    if b.len() == 0 {
        Seq::empty()
    } else {
        let e = if line_len(b) < b.len() {
            line_len(b) as int
        } else {
            b.len() as int
        };
        seq![strip_cr(b.subrange(0, e))] + split_lines(b.subrange(after_line(b), b.len() as int))
    }
}

/// The detection, if any, that the line `text` at `line_number` raises.
pub open spec fn line_findings(
    m: PatternMatcher,
    path: Seq<char>,
    text: Seq<char>,
    line_number: int,
) -> Seq<Finding> {
    match match_line(m.errors(), m.warnings(), m.regexes(), text) {
        Some((sev, name)) => seq![
            Finding {
                severity: severity_of(lower_of(sev)),
                file_path: path,
                line_number,
                pattern_name: name,
                matched_line: text,
            },
        ],
        None => Seq::empty(),
    }
}

/// The detections raised by `lines`, the line before them being numbered
/// `line_number`.
pub open spec fn findings(
    m: PatternMatcher,
    path: Seq<char>,
    lines: Seq<Seq<u8>>,
    line_number: int,
) -> Seq<Finding>
    decreases lines.len(),
{
    if lines.len() == 0 {
        Seq::empty()
    } else {
        line_findings(m, path, decode_utf8(lines[0]), line_number + 1) + findings(
            m,
            path,
            lines.drop_first(),
            line_number + 1,
        )
    }
}

/// Every line is valid UTF-8.
pub open spec fn all_valid(lines: Seq<Seq<u8>>) -> bool {
    forall|i: int| 0 <= i < lines.len() ==> valid_utf8(#[trigger] lines[i])
}

pub proof fn lemma_line_len(s: Seq<u8>)
    ensures
        line_len(s) <= s.len(),
        line_len(s) < s.len() ==> s[line_len(s) as int] == 10u8,
        forall|k: int| 0 <= k < line_len(s) ==> s[k] != 10u8,
    decreases s.len(),
{
    if s.len() > 0 && s[0] != 10u8 {
        let t = s.subrange(1, s.len() as int);
        lemma_line_len(t);
        assert forall|k: int| 0 <= k < line_len(s) implies s[k] != 10u8 by {
            if k > 0 {
                assert(s[k] == t[k - 1]);
            }
        }
    }
}

pub proof fn lemma_line_len_at(s: Seq<u8>, e: int)
    requires
        0 <= e <= s.len(),
        forall|k: int| 0 <= k < e ==> s[k] != 10u8,
        e == s.len() || s[e] == 10u8,
    ensures
        line_len(s) == e,
    decreases s.len(),
{
    if s.len() > 0 && e > 0 {
        let t = s.subrange(1, s.len() as int);
        assert forall|k: int| 0 <= k < e - 1 implies t[k] != 10u8 by {
            assert(t[k] == s[k + 1]);
        }
        if e < s.len() {
            assert(t[e - 1] == s[e]);
        }
        lemma_line_len_at(t, e - 1);
    }
}

pub proof fn lemma_findings_concat(
    m: PatternMatcher,
    path: Seq<char>,
    l1: Seq<Seq<u8>>,
    l2: Seq<Seq<u8>>,
    n: int,
)
    ensures
        findings(m, path, l1 + l2, n) == findings(m, path, l1, n) + findings(
            m,
            path,
            l2,
            n + l1.len(),
        ),
    decreases l1.len(),
{
    if l1.len() == 0 {
        assert(l1 + l2 == l2);
    } else {
        assert((l1 + l2).drop_first() == l1.drop_first() + l2);
        assert((l1 + l2)[0] == l1[0]);
        lemma_findings_concat(m, path, l1.drop_first(), l2, n + 1);
    }
}

/// Resuming is re-reading: when `a` ends at a line boundary, the lines of
/// `a` followed by `b` are the lines of `a` and then those of `b`, and the
/// detections of a full read are those of `a` followed by those that a read
/// of `b` alone gives when resumed at the line number where `a` stopped.
pub proof fn lemma_resume_matches_full_read(
    m: PatternMatcher,
    path: Seq<char>,
    a: Seq<u8>,
    b: Seq<u8>,
    n: int,
)
    requires
        a.len() == 0 || a.last() == 10u8,
    ensures
        split_lines(a + b) == split_lines(a) + split_lines(b),
        findings(m, path, split_lines(a + b), n) == findings(m, path, split_lines(a), n)
            + findings(m, path, split_lines(b), n + split_lines(a).len()),
    decreases a.len(),
{
    if a.len() == 0 {
        assert(a + b == b);
        assert(split_lines(a) == Seq::<Seq<u8>>::empty());
        assert(split_lines(a) + split_lines(b) == split_lines(b));
    } else {
        let ab = a + b;
        lemma_line_len(a);
        let e = line_len(a) as int;
        if e == a.len() {
            assert(a[a.len() - 1] != 10u8);
        }
        assert(e < a.len());
        assert forall|k: int| 0 <= k < e implies ab[k] != 10u8 by {
            assert(ab[k] == a[k]);
        }
        assert(ab[e] == a[e]);
        lemma_line_len_at(ab, e);
        let rest = a.subrange(after_line(a), a.len() as int);
        assert(ab.subrange(0, e) == a.subrange(0, e));
        assert(after_line(ab) == e + 1);
        assert(after_line(a) <= e + 1);
        if e + 1 < a.len() {
            assert(rest.last() == a.last());
            assert(ab.subrange(after_line(ab), ab.len() as int) == rest + b);
        } else {
            assert(after_line(a) == a.len());
            assert(rest.len() == 0);
            assert(ab.subrange(after_line(ab), ab.len() as int) == rest + b);
        }
        lemma_resume_matches_full_read(m, path, rest, b, n);
        assert(split_lines(ab) == seq![strip_cr(a.subrange(0, e))] + split_lines(rest + b));
        assert(split_lines(a) == seq![strip_cr(a.subrange(0, e))] + split_lines(rest));
        assert(split_lines(ab) == split_lines(a) + split_lines(b));
    }
    lemma_findings_concat(m, path, split_lines(a), split_lines(b), n);
}

/// Why a chunk of a file could not be read.
#[derive(Debug, Clone, Copy, PartialEq, Eq, Structural)]
pub enum ReadError {
    /// The line with this number is not valid UTF-8.
    InvalidUtf8 { line_number: usize },
    /// The offset or the line number would pass the largest value it can hold.
    PositionOverflow,
}

/// The views of a list of detections.
pub open spec fn views(d: Seq<Detection>) -> Seq<Finding> {
    d.map_values(|x: Detection| x@)
}

/// Reads the bytes that follow `offset` (the line before them numbered
/// `line_number`) and returns the offset and line number after them, with
/// the detection of every line that a rule matches, in line order.
pub fn scan_chunk(
    matcher: &PatternMatcher,
    file_path: &str,
    chunk: &Vec<u8>,
    offset: u64,
    line_number: usize,
) -> (r: Result<(u64, usize, Vec<Detection>), ReadError>)
    requires
        matcher.wf(),
        offset + chunk@.len() <= u64::MAX,
        line_number + chunk@.len() < usize::MAX,
    ensures
        r is Ok <==> all_valid(split_lines(chunk@)),
        r matches Ok((o, n, d)) ==> {
            &&& o == offset + chunk@.len()
            &&& n == line_number + split_lines(chunk@).len()
            &&& views(d@) == findings(*matcher, file_path@, split_lines(chunk@), line_number as int)
        },
        r matches Err(e) ==> e is InvalidUtf8,
        r matches Err(ReadError::InvalidUtf8 { line_number: k }) ==> {
            &&& line_number < k <= line_number + split_lines(chunk@).len()
            &&& !valid_utf8(split_lines(chunk@)[k - line_number - 1])
        },
{
    let ghost b = chunk@;
    let ghost m = *matcher;
    let ghost path = file_path@;
    let len = chunk.len();
    let mut pos: usize = 0;
    let mut cur: usize = line_number;
    let mut dets: Vec<Detection> = Vec::new();
    let ghost mut done: Seq<Seq<u8>> = Seq::empty();
    assert(b.subrange(0, len as int) == b);
    while pos < len
        invariant
            len == b.len(),
            b == chunk@,
            m == *matcher,
            path == file_path@,
            matcher.wf(),
            line_number + len < usize::MAX,
            pos <= len,
            split_lines(b) == done + split_lines(b.subrange(pos as int, len as int)),
            cur == line_number + done.len(),
            done.len() <= pos,
            all_valid(done),
            views(dets@) == findings(m, path, done, line_number as int),
        decreases len - pos,
    {
        let mut e: usize = pos;
        while e < len && chunk[e] != 10u8
            invariant
                pos <= e <= len,
                len == chunk@.len(),
                forall|k: int| pos <= k < e ==> chunk@[k] != 10u8,
            decreases len - e,
        {
            e += 1;
        }
        let mut end: usize = e;
        if end > pos && chunk[end - 1] == 13u8 {
            end -= 1;
        }
        let mut bytes: Vec<u8> = Vec::new();
        let mut k: usize = pos;
        while k < end
            invariant
                pos <= k <= end <= len,
                len == chunk@.len(),
                bytes@ == chunk@.subrange(pos as int, k as int),
            decreases end - k,
        {
            bytes.push(chunk[k]);
            k += 1;
        }
        let ghost rest = b.subrange(pos as int, len as int);
        let ghost line = bytes@;
        let next: usize = if e < len { e + 1 } else { len };
        proof {
            assert forall|j: int| 0 <= j < e - pos implies rest[j] != 10u8 by {
                assert(rest[j] == b[pos + j]);
            }
            if e < len {
                assert(rest[e - pos] == b[e as int]);
            }
            lemma_line_len_at(rest, e - pos);
            assert(rest.subrange(0, e - pos) == b.subrange(pos as int, e as int));
            if end < e {
                assert(b.subrange(pos as int, end as int) == b.subrange(pos as int, e as int).drop_last());
            }
            assert(line == strip_cr(rest.subrange(0, e - pos)));
            assert(rest.subrange(after_line(rest), rest.len() as int) == b.subrange(next as int, len as int));
            assert(split_lines(rest) == seq![line] + split_lines(b.subrange(next as int, len as int)));
            assert(split_lines(b) == done.push(line) + split_lines(b.subrange(next as int, len as int)));
            assert(split_lines(b)[done.len() as int] == line);
        }
        match decode_line(bytes) {
            None => {
                return Err(ReadError::InvalidUtf8 { line_number: cur + 1 });
            },
            Some(text) => {
                cur += 1;
                proof {
                    lemma_findings_concat(m, path, done, seq![line], line_number as int);
                    assert(seq![line].drop_first() == Seq::<Seq<u8>>::empty());
                    let lf = line_findings(m, path, decode_utf8(line), cur as int);
                    assert(findings(m, path, Seq::<Seq<u8>>::empty(), cur as int) == Seq::<Finding>::empty());
                    assert(findings(m, path, seq![line], line_number + done.len())
                        == lf + Seq::<Finding>::empty());
                    assert(lf + Seq::<Finding>::empty() == lf);
                    assert(findings(m, path, done.push(line), line_number as int)
                        == findings(m, path, done, line_number as int) + lf) by {
                        assert(done + seq![line] == done.push(line));
                    }
                }
                match matcher.check_for_patterns(text.as_str()) {
                    Some((sev, name)) => {
                        let d = create_detection(sev, file_path, cur, text.as_str(), name);
                        let ghost before = dets@;
                        dets.push(d);
                        assert(views(dets@) == views(before).push(d@));
                        assert(line_findings(m, path, decode_utf8(line), cur as int) == seq![d@]);
                        assert(views(before).push(d@) == views(before) + seq![d@]);
                    },
                    None => {
                        assert(line_findings(m, path, decode_utf8(line), cur as int) == Seq::<Finding>::empty());
                        assert(views(dets@) + Seq::<Finding>::empty() == views(dets@));
                    },
                }
                proof {
                    done = done.push(line);
                }
                pos = next;
            },
        }
    }
    assert(b.subrange(pos as int, len as int) == Seq::<u8>::empty());
    assert(split_lines(b) == done);
    Ok(((offset + len as u64), cur, dets))
}

/// The frequency warning raised for `d` when `count` occurrences exceed the
/// limit of `t`.
pub open spec fn frequency_finding(d: Finding, count: u32, t: FrequencyTracker) -> Finding {
    Finding {
        severity: Severity::Warning,
        file_path: d.file_path,
        line_number: d.line_number,
        pattern_name: frequency_label(
            d.pattern_name,
            count as nat,
            t.window_seconds() as nat,
            t.max_count() as nat,
        ),
        matched_line: d.matched_line,
    }
}

/// One detection run through the analyzers: the frequency tracker (if any)
/// at `freq_now` returned `fr`, the correlation engine at `corr_now`
/// returned `cr`, and `out` is the detection, then the frequency warning,
/// then the correlated detection, each where one was raised.
pub open spec fn analysis_step(
    old_t: Option<FrequencyTracker>,
    new_t: Option<FrequencyTracker>,
    old_e: CorrelationEngine,
    new_e: CorrelationEngine,
    d: Detection,
    freq_now: i64,
    corr_now: i64,
    fr: Option<u32>,
    cr: Option<Detection>,
    out: Seq<Finding>,
) -> bool {
    &&& match old_t {
        None => new_t is None && fr is None,
        Some(t) => new_t matches Some(nt) && FrequencyTracker::track_step(
            &t,
            &nt,
            d.pattern_name@,
            freq_now,
            fr,
        ),
    }
    &&& new_e.rules() == old_e.rules()
    &&& new_e.events() == prune(
        old_e.events().push(Event { timestamp: corr_now, detection: d }),
        corr_now - horizon_seconds(old_e.rules()) * 1000,
    )
    &&& check_outcome(old_e.rules(), new_e.events(), corr_now as int, cr)
    &&& out == seq![d@] + match fr {
        Some(c) => seq![frequency_finding(d@, c, old_t->0)],
        None => Seq::empty(),
    } + match cr {
        Some(c) => seq![c@],
        None => Seq::empty(),
    }
}

/// Runs one matched detection through the frequency tracker (if any) at
/// `freq_now` and the correlation engine at `corr_now`, and returns it
/// followed by what they raised.
pub fn analyze_at(
    d: Detection,
    tracker: &mut Option<FrequencyTracker>,
    engine: &mut CorrelationEngine,
    freq_now: i64,
    corr_now: i64,
) -> (r: Vec<Detection>)
    requires
        (*old(tracker)) matches Some(t) ==> t.wf(),
    ensures
        exists|fr: Option<u32>, cr: Option<Detection>|
            analysis_step(
                *old(tracker),
                *final(tracker),
                *old(engine),
                *final(engine),
                d,
                freq_now,
                corr_now,
                fr,
                cr,
                views(r@),
            ),
{
    let ghost old_t = *tracker;
    let mut out: Vec<Detection> = Vec::new();
    out.push(d.copy());
    let mut fr: Option<u32> = None;
    match tracker {
        Some(t) => {
            fr = t.track_event_at(d.pattern_name.as_str(), freq_now);
            match fr {
                Some(count) => {
                    out.push(
                        create_frequency_detection(
                            d.pattern_name.as_str(),
                            count,
                            t.max_same_errors_per_minute(),
                            t.time_window_seconds(),
                            d.file_path.as_str(),
                            d.line_number,
                            d.matched_line.as_str(),
                        ),
                    );
                },
                None => {},
            }
        },
        None => {},
    }
    let ghost mid = views(out@);
    let ghost dv = d;
    let cr = engine.add_detection_at(d, corr_now);
    let ghost crg = cr;
    match cr {
        Some(c) => {
            out.push(c);
        },
        None => {},
    }
    proof {
        let fpart = match fr {
            Some(c) => seq![frequency_finding(dv@, c, old_t->0)],
            None => Seq::<Finding>::empty(),
        };
        let cpart = match crg {
            Some(c) => seq![c@],
            None => Seq::<Finding>::empty(),
        };
        assert(mid == seq![dv@] + fpart);
        assert(views(out@) == seq![dv@] + fpart + cpart);
        assert(analysis_step(old_t, *tracker, *old(engine), *engine, dv, freq_now, corr_now, fr, crg, views(out@)));
    }
    out
}

/// The history of one read pass through the analyzers: the matched
/// detections in line order, the tracker and engine before and after each
/// of them, the clock readings used, what the analyzers returned, and the
/// detections each one produced.
pub struct AnalysisTrace {
    pub inputs: Seq<Detection>,
    pub trackers: Seq<Option<FrequencyTracker>>,
    pub engines: Seq<CorrelationEngine>,
    pub freq_nows: Seq<i64>,
    pub corr_nows: Seq<i64>,
    pub freq_results: Seq<Option<u32>>,
    pub corr_results: Seq<Option<Detection>>,
    pub parts: Seq<Seq<Finding>>,
}

/// The first `n` steps of `tr` each run one detection through the analyzers,
/// every step starting from the state the previous one left.
pub open spec fn steps_hold(tr: AnalysisTrace, n: int) -> bool {
    &&& 0 <= n
    &&& tr.inputs.len() == n
    &&& tr.trackers.len() == n + 1
    &&& tr.engines.len() == n + 1
    &&& tr.freq_nows.len() == n
    &&& tr.corr_nows.len() == n
    &&& tr.freq_results.len() == n
    &&& tr.corr_results.len() == n
    &&& tr.parts.len() == n
    &&& forall|j: int|
        0 <= j < n ==> analysis_step(
            tr.trackers[j],
            tr.trackers[j + 1],
            tr.engines[j],
            tr.engines[j + 1],
            tr.inputs[j],
            tr.freq_nows[j],
            tr.corr_nows[j],
            tr.freq_results[j],
            tr.corr_results[j],
            #[trigger] tr.parts[j],
        )
}

/// `tr` takes the detections `prim`, in order, from tracker `t0` and engine
/// `e0` to `t1` and `e1`, and `out` is what the steps produced, in order.
pub open spec fn threaded(
    tr: AnalysisTrace,
    prim: Seq<Finding>,
    t0: Option<FrequencyTracker>,
    e0: CorrelationEngine,
    t1: Option<FrequencyTracker>,
    e1: CorrelationEngine,
    out: Seq<Finding>,
) -> bool {
    &&& steps_hold(tr, prim.len() as int)
    &&& views(tr.inputs) == prim
    &&& tr.trackers[0] == t0
    &&& tr.engines[0] == e0
    &&& tr.trackers[prim.len() as int] == t1
    &&& tr.engines[prim.len() as int] == e1
    &&& out == tr.parts.flatten()
}

/// A successful read pass over `chunk` from `offset` and `line_number`:
/// it ends at offset `o` and line `n`, takes the tracker and engine from
/// `t0`, `e0` to `t1`, `e1`, and produces `out`.
pub open spec fn pass_ok(
    m: PatternMatcher,
    path: Seq<char>,
    chunk: Seq<u8>,
    offset: u64,
    line_number: usize,
    t0: Option<FrequencyTracker>,
    e0: CorrelationEngine,
    t1: Option<FrequencyTracker>,
    e1: CorrelationEngine,
    o: u64,
    n: usize,
    out: Seq<Finding>,
) -> bool {
    &&& o == offset + chunk.len()
    &&& n == line_number + split_lines(chunk).len()
    &&& exists|tr: AnalysisTrace|
        #[trigger] threaded(
            tr,
            findings(m, path, split_lines(chunk), line_number as int),
            t0,
            e0,
            t1,
            e1,
            out,
        )
}

/// Reads the bytes that follow `offset`, as `scan_chunk` does, and runs
/// each matched detection, in line order, through the analyzers at the
/// current time, as `analyze_at` does: each detection is followed by the
/// frequency warning and then the correlated detection that it raised, and
/// each step starts from the tracker and engine that the previous one left.
pub fn read_from(
    matcher: &PatternMatcher,
    file_path: &str,
    chunk: &Vec<u8>,
    offset: u64,
    line_number: usize,
    tracker: &mut Option<FrequencyTracker>,
    engine: &mut CorrelationEngine,
) -> (r: Result<(u64, usize, Vec<Detection>), ReadError>)
    requires
        matcher.wf(),
        offset + chunk@.len() <= u64::MAX,
        line_number + chunk@.len() < usize::MAX,
        (*old(tracker)) matches Some(t) ==> t.wf(),
    ensures
        r is Ok <==> all_valid(split_lines(chunk@)),
        r matches Err(e) ==> e is InvalidUtf8,
        r matches Err(ReadError::InvalidUtf8 { line_number: k }) ==> {
            &&& line_number < k <= line_number + split_lines(chunk@).len()
            &&& !valid_utf8(split_lines(chunk@)[k - line_number - 1])
        },
        r is Err ==> *final(tracker) == *old(tracker) && *final(engine) == *old(engine),
        r matches Ok((o, n, d)) ==> pass_ok(
            *matcher,
            file_path@,
            chunk@,
            offset,
            line_number,
            *old(tracker),
            *old(engine),
            *final(tracker),
            *final(engine),
            o,
            n,
            views(d@),
        ),
        (*final(tracker)) matches Some(t) ==> t.wf(),
{
    let scanned = scan_chunk(matcher, file_path, chunk, offset, line_number);
    match scanned {
        Err(e) => {
            Err(e)
        },
        Ok((o, n, primaries)) => {
            let ghost prim = views(primaries@);
            let mut out: Vec<Detection> = Vec::new();
            let ghost mut tr = AnalysisTrace {
                inputs: Seq::empty(),
                trackers: seq![*tracker],
                engines: seq![*engine],
                freq_nows: Seq::empty(),
                corr_nows: Seq::empty(),
                freq_results: Seq::empty(),
                corr_results: Seq::empty(),
                parts: Seq::empty(),
            };
            let mut i: usize = 0;
            while i < primaries.len()
                invariant
                    i <= primaries@.len(),
                    prim == views(primaries@),
                    steps_hold(tr, i as int),
                    tr.inputs == primaries@.subrange(0, i as int),
                    tr.trackers[0] == *old(tracker),
                    tr.engines[0] == *old(engine),
                    tr.trackers[i as int] == *tracker,
                    tr.engines[i as int] == *engine,
                    views(out@) == tr.parts.flatten(),
                    *tracker matches Some(t) ==> t.wf(),
                decreases primaries@.len() - i,
            {
                let freq_now = now_millis();
                let corr_now = engine.clock_millis();
                let ghost old_t = *tracker;
                let ghost old_e = *engine;
                let d = primaries[i].copy();
                let ghost dv = d;
                let mut part = analyze_at(d, tracker, engine, freq_now, corr_now);
                let ghost pv = views(part@);
                let ghost before = views(out@);
                out.append(&mut part);
                proof {
                    let (fr, cr) = choose|fr: Option<u32>, cr: Option<Detection>|
                        analysis_step(
                            old_t,
                            *tracker,
                            old_e,
                            *engine,
                            dv,
                            freq_now,
                            corr_now,
                            fr,
                            cr,
                            pv,
                        );
                    let tr0 = tr;
                    tr.parts.lemma_flatten_push(pv);
                    tr = AnalysisTrace {
                        inputs: tr0.inputs.push(dv),
                        trackers: tr0.trackers.push(*tracker),
                        engines: tr0.engines.push(*engine),
                        freq_nows: tr0.freq_nows.push(freq_now),
                        corr_nows: tr0.corr_nows.push(corr_now),
                        freq_results: tr0.freq_results.push(fr),
                        corr_results: tr0.corr_results.push(cr),
                        parts: tr0.parts.push(pv),
                    };
                    assert(views(out@) == before + pv);
                    assert(tr.inputs == primaries@.subrange(0, i as int + 1));
                    assert forall|j: int| 0 <= j < i + 1 implies analysis_step(
                        tr.trackers[j],
                        tr.trackers[j + 1],
                        tr.engines[j],
                        tr.engines[j + 1],
                        tr.inputs[j],
                        tr.freq_nows[j],
                        tr.corr_nows[j],
                        tr.freq_results[j],
                        tr.corr_results[j],
                        #[trigger] tr.parts[j],
                    ) by {
                        if j < i {
                            assert(tr0.parts[j] == tr.parts[j]);
                        }
                    }
                    assert(steps_hold(tr, i + 1));
                }
                i += 1;
            }
            proof {
                assert(tr.inputs == primaries@);
                assert(threaded(tr, prim, *old(tracker), *old(engine), *tracker, *engine, views(out@)));
            }
            Ok((o, n, out))
        },
    }
}

proof fn lemma_plain_steps(tr: AnalysisTrace, total: int, n: int)
    requires
        steps_hold(tr, total),
        0 <= n <= total,
        tr.trackers[0] is None,
        tr.engines[0].rules().len() == 0,
    ensures
        tr.trackers[n] is None,
        tr.engines[n].rules().len() == 0,
        tr.parts.subrange(0, n).flatten() == views(tr.inputs.subrange(0, n)),
    decreases n,
{
    if n == 0 {
        assert(tr.parts.subrange(0, 0) == Seq::<Seq<Finding>>::empty());
        assert(views(tr.inputs.subrange(0, 0)) == Seq::<Finding>::empty());
    } else {
        lemma_plain_steps(tr, total, n - 1);
        let j = n - 1;
        let pj = tr.parts[j];
        assert(analysis_step(
            tr.trackers[j],
            tr.trackers[j + 1],
            tr.engines[j],
            tr.engines[j + 1],
            tr.inputs[j],
            tr.freq_nows[j],
            tr.corr_nows[j],
            tr.freq_results[j],
            tr.corr_results[j],
            pj,
        ));
        assert(tr.corr_results[j] is None);
        assert(pj == seq![tr.inputs[j]@]);
        assert(tr.parts.subrange(0, n) == tr.parts.subrange(0, j).push(pj));
        tr.parts.subrange(0, j).lemma_flatten_push(pj);
        assert(tr.inputs.subrange(0, n) == tr.inputs.subrange(0, j).push(tr.inputs[j]));
        assert(views(tr.inputs.subrange(0, n)) == views(tr.inputs.subrange(0, j)).push(tr.inputs[j]@));
        assert(seq![tr.inputs[j]@] == Seq::<Finding>::empty().push(tr.inputs[j]@));
    }
}

/// Without a frequency rule and without correlated rules, a read pass
/// produces exactly the detections of the matched lines, in line order.
/// Together with `lemma_resume_matches_full_read`, a read resumed at the
/// offset and line number of an earlier full read then yields exactly the
/// detections that a fresh read of the whole file gives for the new lines.
pub proof fn lemma_pass_without_analyzers(
    tr: AnalysisTrace,
    prim: Seq<Finding>,
    e0: CorrelationEngine,
    t1: Option<FrequencyTracker>,
    e1: CorrelationEngine,
    out: Seq<Finding>,
)
    requires
        threaded(tr, prim, None, e0, t1, e1, out),
        e0.rules().len() == 0,
    ensures
        out == prim,
        t1 is None,
        e1.rules().len() == 0,
{
    let n = prim.len() as int;
    lemma_plain_steps(tr, n, n);
    assert(tr.parts.subrange(0, n) == tr.parts);
    assert(tr.inputs.subrange(0, n) == tr.inputs);
}

/// Offset resumption, over read passes: with no frequency rule and no
/// correlated rules, reading `a` (which ends at a line break) from offset 0,
/// then the appended bytes `b` from where that read stopped, gives the same
/// final offset and line number as one fresh read of `a + b`, and together
/// exactly its detections: none repeated and none missed.
pub proof fn lemma_resumed_pass_matches_fresh_pass(
    m: PatternMatcher,
    path: Seq<char>,
    a: Seq<u8>,
    b: Seq<u8>,
    e_a: CorrelationEngine,
    e_b: CorrelationEngine,
    e_full: CorrelationEngine,
    t_a: Option<FrequencyTracker>,
    t_b: Option<FrequencyTracker>,
    t_full: Option<FrequencyTracker>,
    f_a: CorrelationEngine,
    f_b: CorrelationEngine,
    f_full: CorrelationEngine,
    o1: u64,
    n1: usize,
    o2: u64,
    n2: usize,
    o: u64,
    n: usize,
    out_a: Seq<Finding>,
    out_b: Seq<Finding>,
    out_full: Seq<Finding>,
)
    requires
        a.len() == 0 || a.last() == 10u8,
        e_a.rules().len() == 0,
        e_b.rules().len() == 0,
        e_full.rules().len() == 0,
        pass_ok(m, path, a, 0, 0, None, e_a, t_a, f_a, o1, n1, out_a),
        pass_ok(m, path, b, o1, n1, None, e_b, t_b, f_b, o2, n2, out_b),
        pass_ok(m, path, a + b, 0, 0, None, e_full, t_full, f_full, o, n, out_full),
    ensures
        o2 == o,
        n2 == n,
        out_full == out_a + out_b,
{
    let tra = choose|tr: AnalysisTrace|
        #[trigger] threaded(tr, findings(m, path, split_lines(a), 0), None, e_a, t_a, f_a, out_a);
    lemma_pass_without_analyzers(tra, findings(m, path, split_lines(a), 0), e_a, t_a, f_a, out_a);
    let trb = choose|tr: AnalysisTrace|
        #[trigger] threaded(tr, findings(m, path, split_lines(b), n1 as int), None, e_b, t_b, f_b, out_b);
    lemma_pass_without_analyzers(trb, findings(m, path, split_lines(b), n1 as int), e_b, t_b, f_b, out_b);
    let trf = choose|tr: AnalysisTrace|
        #[trigger] threaded(tr, findings(m, path, split_lines(a + b), 0), None, e_full, t_full, f_full, out_full);
    lemma_pass_without_analyzers(trf, findings(m, path, split_lines(a + b), 0), e_full, t_full, f_full, out_full);
    lemma_resume_matches_full_read(m, path, a, b, 0);
}

} // verus!
