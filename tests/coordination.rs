use rusthound::coordinator::Coordinator;
use rusthound::log_reader::ReadError;
use rusthound::pattern_matcher::PatternMatcher;
use rusthound::rules::{FrequencyRules, PatternConfig, Rules};

fn rules() -> Rules {
    Rules {
        patterns: PatternConfig { error_patterns: vec!["ERROR".to_string()], warning_patterns: vec![] },
        ..Rules::default()
    }
}

#[test]
fn unknown_file_starts_at_the_beginning() {
    let c = Coordinator::new();
    assert_eq!(c.resume_point("a.log"), (0, 0));
}

#[test]
fn each_file_resumes_from_its_own_position() {
    let r = rules();
    let m = PatternMatcher::new(&r).unwrap();
    let mut c = Coordinator::new();
    let d = c.on_change("a.log", &b"ERROR 1\nok\n".to_vec(), &m, &r).unwrap();
    assert_eq!(d.len(), 1);
    assert_eq!(c.resume_point("a.log"), (11, 2));
    assert_eq!(c.resume_point("b.log"), (0, 0));
    let d = c.on_change("b.log", &b"ERROR x\n".to_vec(), &m, &r).unwrap();
    assert_eq!(d[0].line_number, 1);
    let d = c.on_change("a.log", &b"ERROR 3\n".to_vec(), &m, &r).unwrap();
    assert_eq!(d[0].line_number, 3);
    assert_eq!(d[0].file_path, "a.log");
    assert_eq!(c.resume_point("a.log"), (19, 3));
    assert_eq!(c.resume_point("b.log"), (8, 1));
}

#[test]
fn redundant_notification_is_a_no_op() {
    let r = rules();
    let m = PatternMatcher::new(&r).unwrap();
    let mut c = Coordinator::new();
    c.on_change("a.log", &b"ERROR 1\n".to_vec(), &m, &r).unwrap();
    let d = c.on_change("a.log", &Vec::new(), &m, &r).unwrap();
    assert!(d.is_empty());
    assert_eq!(c.resume_point("a.log"), (8, 1));
}

#[test]
fn failed_read_leaves_the_position_unchanged() {
    let r = rules();
    let m = PatternMatcher::new(&r).unwrap();
    let mut c = Coordinator::new();
    c.on_change("a.log", &b"ok\n".to_vec(), &m, &r).unwrap();
    let e = c.on_change("a.log", &vec![0xff, b'\n'], &m, &r);
    assert_eq!(e.err(), Some(ReadError::InvalidUtf8 { line_number: 2 }));
    assert_eq!(c.resume_point("a.log"), (3, 1));
    assert!(c.on_change("new.log", &vec![0xc0, b'\n'], &m, &r).is_err());
    assert_eq!(c.resume_point("new.log"), (0, 0));
}

#[test]
fn frequency_state_is_kept_per_file_across_passes() {
    let mut r = rules();
    r.frequency_rules = Some(FrequencyRules { max_same_errors_per_minute: 1, time_window_seconds: 3600 });
    let m = PatternMatcher::new(&r).unwrap();
    let mut c = Coordinator::new();
    assert_eq!(c.on_change("a.log", &b"ERROR 1\n".to_vec(), &m, &r).unwrap().len(), 1);
    assert_eq!(c.on_change("b.log", &b"ERROR 1\n".to_vec(), &m, &r).unwrap().len(), 1);
    let d = c.on_change("a.log", &b"ERROR 2\n".to_vec(), &m, &r).unwrap();
    assert_eq!(d.len(), 2);
    assert_eq!(d[1].pattern_name, "Too many \"ERROR\" errors (2 in 3600s, threshold: 1)");
}
