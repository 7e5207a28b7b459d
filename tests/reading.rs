use rusthound::correlation_engine::CorrelationEngine;
use rusthound::detection::{Detection, Severity};
use rusthound::frequency_tracker::FrequencyTracker;
use rusthound::log_files::{is_log_file_name, select_log_files};
use rusthound::log_reader::{analyze_at, read_from, scan_chunk, ReadError};
use rusthound::pattern_matcher::PatternMatcher;
use rusthound::rules::{CorrelatedRule, PatternConfig, Rules, TriggerRule};

fn matcher() -> PatternMatcher {
    let rules = Rules {
        patterns: PatternConfig {
            error_patterns: vec!["ERROR".to_string()],
            warning_patterns: vec!["WARN".to_string()],
        },
        ..Rules::default()
    };
    PatternMatcher::new(&rules).unwrap()
}

fn key(d: &Detection) -> (Severity, String, usize, String, String) {
    (d.severity, d.file_path.clone(), d.line_number, d.pattern_name.clone(), d.matched_line.clone())
}

#[test]
fn scan_reports_matches_offset_and_line_count() {
    let m = matcher();
    let chunk = b"ok\nERROR one\r\nWARN two\nlast ERROR".to_vec();
    let (offset, line, dets) = scan_chunk(&m, "f.log", &chunk, 0, 0).unwrap();
    assert_eq!(offset, chunk.len() as u64);
    assert_eq!(line, 4);
    let got: Vec<_> = dets.iter().map(key).collect();
    assert_eq!(
        got,
        vec![
            (Severity::Error, "f.log".to_string(), 2, "ERROR".to_string(), "ERROR one".to_string()),
            (Severity::Warning, "f.log".to_string(), 3, "WARN".to_string(), "WARN two".to_string()),
            (Severity::Error, "f.log".to_string(), 4, "ERROR".to_string(), "last ERROR".to_string()),
        ]
    );
}

#[test]
fn empty_chunk_leaves_offset_and_line_unchanged() {
    let m = matcher();
    let (offset, line, dets) = scan_chunk(&m, "f.log", &Vec::new(), 42, 7).unwrap();
    assert_eq!((offset, line), (42, 7));
    assert!(dets.is_empty());
}

#[test]
fn resumed_read_equals_full_read() {
    let m = matcher();
    let first = b"ERROR a\nfine\n".to_vec();
    let appended = b"WARN b\nERROR c\n".to_vec();
    let (o1, l1, d1) = scan_chunk(&m, "f.log", &first, 0, 0).unwrap();
    let (o2, l2, d2) = scan_chunk(&m, "f.log", &appended, o1, l1).unwrap();
    let mut whole = first.clone();
    whole.extend_from_slice(&appended);
    let (o, l, d) = scan_chunk(&m, "f.log", &whole, 0, 0).unwrap();
    assert_eq!((o2, l2), (o, l));
    let resumed: Vec<_> = d1.iter().chain(d2.iter()).map(key).collect();
    let full: Vec<_> = d.iter().map(key).collect();
    assert_eq!(resumed, full);
    assert_eq!(d2.len(), 2);
    assert_eq!(d2[0].line_number, 3);
}

#[test]
fn rereading_with_no_new_bytes_yields_nothing() {
    let m = matcher();
    let (o, l, d) = scan_chunk(&m, "f.log", &Vec::new(), 13, 2).unwrap();
    assert_eq!((o, l, d.len()), (13, 2, 0));
}

#[test]
fn invalid_utf8_line_is_reported_by_number() {
    let m = matcher();
    let chunk = vec![b'o', b'k', b'\n', 0xff, 0xfe, b'\n'];
    assert_eq!(scan_chunk(&m, "f.log", &chunk, 0, 10).err(), Some(ReadError::InvalidUtf8 { line_number: 12 }));
}

#[test]
fn read_from_adds_frequency_and_correlation_findings() {
    let m = matcher();
    let rule = CorrelatedRule {
        name: "warned_after_error".to_string(),
        severity: "high".to_string(),
        description: String::new(),
        time_window_seconds: 60,
        trigger_on_rule: TriggerRule { name: "ERROR".to_string(), count: 1 },
        followed_by: "WARN".to_string(),
    };
    let mut tracker = Some(FrequencyTracker::new(1, 60));
    let mut engine = CorrelationEngine::new(vec![rule]);
    let chunk = b"ERROR a\nERROR b\nWARN c\n".to_vec();
    let (offset, line, dets) = read_from(&m, "f.log", &chunk, 0, 0, &mut tracker, &mut engine).unwrap();
    assert_eq!((offset, line), (chunk.len() as u64, 3));
    let names: Vec<_> = dets.iter().map(|d| d.pattern_name.clone()).collect();
    assert_eq!(
        names,
        vec![
            "ERROR".to_string(),
            "ERROR".to_string(),
            "Too many \"ERROR\" errors (2 in 60s, threshold: 1)".to_string(),
            "WARN".to_string(),
            "warned_after_error".to_string(),
        ]
    );
    assert_eq!(dets[4].severity, Severity::High);
    assert_eq!(dets[4].line_number, 3);
}

#[test]
fn read_from_without_analyzers_returns_matches_only() {
    let m = matcher();
    let mut tracker = None;
    let mut engine = CorrelationEngine::new(vec![]);
    let chunk = b"ERROR a\nWARN b\n".to_vec();
    let (_, _, dets) = read_from(&m, "f.log", &chunk, 0, 0, &mut tracker, &mut engine).unwrap();
    assert_eq!(dets.len(), 2);
}

#[test]
fn analyze_at_orders_detection_then_frequency_then_correlation() {
    let m = matcher();
    let (_, _, dets) = scan_chunk(&m, "f.log", &b"ERROR a\n".to_vec(), 0, 0).unwrap();
    let mut tracker = Some(FrequencyTracker::new(0, 60));
    let rule = CorrelatedRule {
        name: "self".to_string(),
        severity: "warn".to_string(),
        description: String::new(),
        time_window_seconds: 60,
        trigger_on_rule: TriggerRule { name: "ERROR".to_string(), count: 0 },
        followed_by: "ERROR".to_string(),
    };
    let mut engine = CorrelationEngine::new(vec![rule]);
    let out = analyze_at(dets[0].copy(), &mut tracker, &mut engine, 5, 5);
    assert_eq!(out.len(), 3);
    assert_eq!(out[0].pattern_name, "ERROR");
    assert_eq!(out[1].severity, Severity::Warning);
    assert_eq!(out[2].pattern_name, "self");
    assert_eq!(out[2].severity, Severity::Warning);
}

#[test]
fn directory_scan_keeps_log_files_in_order() {
    let names = vec!["b.log".to_string(), "a.log".to_string(), "c.txt".to_string()];
    assert_eq!(select_log_files(names), vec!["a.log".to_string(), "b.log".to_string()]);
}

#[test]
fn log_extension_needs_a_stem() {
    assert!(is_log_file_name("x.log"));
    assert!(is_log_file_name("a.b.log"));
    assert!(!is_log_file_name(".log"));
    assert!(!is_log_file_name("log"));
    assert!(!is_log_file_name("x.log.gz"));
    assert!(!is_log_file_name("x.LOG"));
}
