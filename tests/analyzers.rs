use rusthound::correlation_engine::CorrelationEngine;
use rusthound::detection::{create_detection, create_frequency_detection, Detection, Severity};
use rusthound::frequency_tracker::FrequencyTracker;
use rusthound::pattern_matcher::{PatternError, PatternMatcher};
use rusthound::rules::{CorrelatedRule, PatternConfig, RegexRule, Rules, TriggerRule};

fn s(x: &str) -> String {
    x.to_string()
}

fn sample_rules() -> Rules {
    Rules {
        patterns: PatternConfig {
            error_patterns: vec![s("ERROR"), s("FATAL")],
            warning_patterns: vec![s("WARN")],
        },
        regex_rules: vec![
            RegexRule { name: s("oom_kill"), pattern: s("Out of memory|Memory.*exceeded"), severity: s("critical") },
            RegexRule { name: s("disk"), pattern: s("Disk I/O error"), severity: s("high") },
        ],
        frequency_rules: None,
        correlated_rules: vec![],
    }
}

fn detection(name: &str, line: usize) -> Detection {
    create_detection("error", "app.log", line, &format!("line {line}"), name)
}

#[test]
fn severity_tags_map_without_regard_to_case() {
    assert_eq!(Severity::from_tag("CRITICAL"), Severity::Critical);
    assert_eq!(Severity::from_tag("high"), Severity::High);
    assert_eq!(Severity::from_tag("Warn"), Severity::Warning);
    assert_eq!(Severity::from_tag("warning"), Severity::Warning);
    assert_eq!(Severity::from_tag("FATAL"), Severity::Error);
    assert_eq!(Severity::from_tag("exception"), Severity::Error);
    assert_eq!(Severity::from_tag("error"), Severity::Error);
    assert_eq!(Severity::from_tag("bogus"), Severity::Info);
    assert_eq!(Severity::from_tag(""), Severity::Info);
    assert_eq!(Severity::from_lowercase_tag("CRITICAL"), Severity::Info);
}

#[test]
fn severities_are_ordered_by_urgency() {
    assert!(Severity::Critical < Severity::High);
    assert!(Severity::High < Severity::Warning);
    assert!(Severity::Warning < Severity::Error);
    assert!(Severity::Error < Severity::Info);
    assert_eq!(Severity::Warning.label(), "WARNING");
}

#[test]
fn create_detection_copies_its_fields() {
    let d = create_detection("High", "/var/log/a.log", 7, "boom", "rule");
    assert_eq!(d.severity, Severity::High);
    assert_eq!(d.file_path, "/var/log/a.log");
    assert_eq!(d.line_number, 7);
    assert_eq!(d.matched_line, "boom");
    assert_eq!(d.pattern_name, "rule");
}

#[test]
fn frequency_detection_names_count_window_and_threshold() {
    let d = create_frequency_detection("ERROR", 11, 10, 60, "a.log", 3, "ERROR x");
    assert_eq!(d.severity, Severity::Warning);
    assert_eq!(d.pattern_name, "Too many \"ERROR\" errors (11 in 60s, threshold: 10)");
    assert_eq!(d.line_number, 3);
    assert_eq!(d.matched_line, "ERROR x");
    assert_eq!(d.file_path, "a.log");
}

#[test]
fn error_substring_wins_over_warning_and_regex() {
    let m = PatternMatcher::new(&sample_rules()).unwrap();
    assert_eq!(m.check_for_patterns("WARN: Out of memory, FATAL then ERROR"), Some(("ERROR", "ERROR")));
    assert_eq!(m.check_for_patterns("FATAL: Out of memory"), Some(("ERROR", "FATAL")));
}

#[test]
fn warning_substring_comes_before_regex() {
    let m = PatternMatcher::new(&sample_rules()).unwrap();
    assert_eq!(m.check_for_patterns("WARN Disk I/O error"), Some(("WARNING", "WARN")));
}

#[test]
fn regex_rules_report_their_own_severity_and_name() {
    let m = PatternMatcher::new(&sample_rules()).unwrap();
    assert_eq!(m.check_for_patterns("Memory limit exceeded"), Some(("critical", "oom_kill")));
    assert_eq!(m.check_for_patterns("Disk I/O error on sda"), Some(("high", "disk")));
    assert_eq!(m.check_for_patterns("all fine"), None);
    assert_eq!(m.check_for_patterns("error in lower case"), None);
}

#[test]
fn matching_twice_gives_the_same_result() {
    let m = PatternMatcher::new(&sample_rules()).unwrap();
    for line in ["ERROR a", "WARN b", "Out of memory", "quiet"] {
        assert_eq!(m.check_for_patterns(line), m.check_for_patterns(line));
    }
}

#[test]
fn malformed_regex_is_refused_at_construction() {
    let mut rules = sample_rules();
    rules.regex_rules.push(RegexRule { name: s("bad"), pattern: s("foo(bar"), severity: s("high") });
    match PatternMatcher::new(&rules) {
        Err(e) => assert_eq!(e, PatternError::InvalidRegex { index: 2 }),
        Ok(_) => panic!("a malformed pattern must be refused"),
    }
}

#[test]
fn empty_rule_set_matches_nothing() {
    let m = PatternMatcher::new(&Rules::default()).unwrap();
    assert_eq!(m.check_for_patterns("ERROR"), None);
}

#[test]
fn frequency_reports_on_the_fourth_of_four_matches() {
    let mut t = FrequencyTracker::new(3, 60);
    assert_eq!(t.track_event_at("ERROR", 0), None);
    assert_eq!(t.track_event_at("ERROR", 1_000), None);
    assert_eq!(t.track_event_at("ERROR", 2_000), None);
    assert_eq!(t.track_event_at("ERROR", 3_000), Some(4));
    assert_eq!(t.track_event_at("ERROR", 4_000), Some(5));
}

#[test]
fn frequency_windows_are_kept_per_pattern() {
    let mut t = FrequencyTracker::new(1, 60);
    assert_eq!(t.track_event_at("a", 0), None);
    assert_eq!(t.track_event_at("b", 10), None);
    assert_eq!(t.track_event_at("a", 20), Some(2));
}

#[test]
fn stale_events_do_not_count() {
    let mut t = FrequencyTracker::new(1, 60);
    assert_eq!(t.track_event_at("ERROR", 0), None);
    assert_eq!(t.track_event_at("ERROR", 60_001), None);
    assert_eq!(t.track_event_at("ERROR", 120_002), None);
    assert_eq!(t.track_event_at("ERROR", 130_000), Some(2));
}

#[test]
fn event_exactly_one_window_old_still_counts() {
    let mut t = FrequencyTracker::new(1, 60);
    assert_eq!(t.track_event_at("ERROR", 0), None);
    assert_eq!(t.track_event_at("ERROR", 60_000), Some(2));
    assert_eq!(t.track_event_at("ERROR", 120_000), Some(2));
    assert_eq!(t.track_event_at("ERROR", 180_001), None);
}

#[test]
fn frequency_with_the_clock_reports_over_a_zero_limit() {
    let mut t = FrequencyTracker::new(0, 60);
    assert_eq!(t.track_event("ERROR"), Some(1));
    assert_eq!(t.max_same_errors_per_minute(), 0);
    assert_eq!(t.time_window_seconds(), 60);
}

fn auth_rule(count: usize) -> CorrelatedRule {
    CorrelatedRule {
        name: s("brute_force"),
        severity: s("Critical"),
        description: s("failures then a success"),
        time_window_seconds: 60,
        trigger_on_rule: TriggerRule { name: s("auth_fail"), count },
        followed_by: s("login_ok"),
    }
}

#[test]
fn correlation_fires_after_two_failures_and_a_login() {
    let mut e = CorrelationEngine::new(vec![auth_rule(2)]);
    assert!(e.add_detection_at(detection("auth_fail", 1), 0).is_none());
    assert!(e.add_detection_at(detection("auth_fail", 2), 1_000).is_none());
    let c = e.add_detection_at(detection("login_ok", 3), 2_000).expect("correlation");
    assert_eq!(c.pattern_name, "brute_force");
    assert_eq!(c.severity, Severity::Critical);
    assert_eq!(c.line_number, 3);
    assert_eq!(c.matched_line, "line 3");
    assert_eq!(c.file_path, "app.log");
}

#[test]
fn correlation_needs_enough_failures() {
    let mut e = CorrelationEngine::new(vec![auth_rule(2)]);
    assert!(e.add_detection_at(detection("auth_fail", 1), 0).is_none());
    assert!(e.add_detection_at(detection("login_ok", 2), 2_000).is_none());
}

#[test]
fn correlation_ignores_failures_after_the_login() {
    let mut e = CorrelationEngine::new(vec![auth_rule(2)]);
    assert!(e.add_detection_at(detection("login_ok", 1), 0).is_none());
    assert!(e.add_detection_at(detection("auth_fail", 2), 1_000).is_none());
    assert!(e.add_detection_at(detection("auth_fail", 3), 2_000).is_none());
}

#[test]
fn correlation_refires_on_later_events() {
    let mut e = CorrelationEngine::new(vec![auth_rule(2)]);
    e.add_detection_at(detection("auth_fail", 1), 0);
    e.add_detection_at(detection("auth_fail", 2), 1_000);
    assert!(e.add_detection_at(detection("login_ok", 3), 2_000).is_some());
    let again = e.add_detection_at(detection("other", 4), 3_000).expect("re-trigger");
    assert_eq!(again.line_number, 3);
}

#[test]
fn correlation_forgets_events_outside_the_window() {
    let mut e = CorrelationEngine::new(vec![auth_rule(2)]);
    e.add_detection_at(detection("auth_fail", 1), 0);
    e.add_detection_at(detection("auth_fail", 2), 1_000);
    assert!(e.add_detection_at(detection("login_ok", 3), 90_000).is_none());
}

#[test]
fn first_correlated_rule_wins() {
    let mut second = auth_rule(1);
    second.name = s("second");
    let mut e = CorrelationEngine::new(vec![auth_rule(1), second]);
    e.add_detection_at(detection("auth_fail", 1), 0);
    let c = e.add_detection_at(detection("login_ok", 2), 10).expect("correlation");
    assert_eq!(c.pattern_name, "brute_force");
}

#[test]
fn engine_without_rules_never_correlates() {
    let mut e = CorrelationEngine::new(vec![]);
    assert!(e.add_detection(detection("login_ok", 1)).is_none());
    e.cleanup_old_events(1_000_000_000_000);
    assert!(e.check_rules(0).is_none());
}
