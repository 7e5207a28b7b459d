use vstd::prelude::*;
use crate::text::{decimal, decimal_string, lower_of, lowercase, str_eq};
use vstd::string::StringExecFns;

verus! {

/// Severity of a detection, ordered from most to least urgent.
#[derive(Debug, Clone, Copy, PartialEq, Eq, PartialOrd, Ord, Hash, Structural)]
pub enum Severity {
    Critical,
    High,
    Warning,
    Error,
    Info,
}

/// A line that a rule matched, or a finding synthesized from several lines.
#[derive(Debug)]
pub struct Detection {
    pub severity: Severity,
    pub file_path: String,
    pub line_number: usize,
    pub pattern_name: String,
    pub matched_line: String,
}

/// The mathematical value of a detection.
pub struct Finding {
    pub severity: Severity,
    pub file_path: Seq<char>,
    pub line_number: int,
    pub pattern_name: Seq<char>,
    pub matched_line: Seq<char>,
}

impl View for Detection {
    type V = Finding;

    open spec fn view(&self) -> Finding {
        Finding {
            severity: self.severity,
            file_path: self.file_path@,
            line_number: self.line_number as int,
            pattern_name: self.pattern_name@,
            matched_line: self.matched_line@,
        }
    }
}

/// The severity that a lower-case configuration tag stands for; unknown tags
/// fall to the lowest priority.
pub open spec fn severity_of(tag: Seq<char>) -> Severity {
    if tag == "critical"@ {
        Severity::Critical
    } else if tag == "high"@ {
        Severity::High
    } else if tag == "warn"@ || tag == "warning"@ {
        Severity::Warning
    } else if tag == "error"@ || tag == "fatal"@ || tag == "exception"@ {
        Severity::Error
    } else {
        Severity::Info
    }
}

/// The name that a frequency detection carries.
pub open spec fn frequency_label(
    pattern_name: Seq<char>,
    count: nat,
    window_seconds: nat,
    max_count: nat,
) -> Seq<char> {
    "Too many \""@ + pattern_name + "\" errors ("@ + decimal(count) + " in "@ + decimal(
        window_seconds,
    ) + "s, threshold: "@ + decimal(max_count) + ")"@
}

impl Severity {
    /// The severity of a tag that is already lower case.
    pub fn from_lowercase_tag(tag: &str) -> (r: Severity)
        ensures
            r == severity_of(tag@),
    {
        if str_eq(tag, "critical") {
            Severity::Critical
        } else if str_eq(tag, "high") {
            Severity::High
        } else if str_eq(tag, "warn") || str_eq(tag, "warning") {
            Severity::Warning
        } else if str_eq(tag, "error") || str_eq(tag, "fatal") || str_eq(tag, "exception") {
            Severity::Error
        } else {
            Severity::Info
        }
    }

    /// The severity of a configuration tag, compared without regard to case.
    pub fn from_tag(tag: &str) -> (r: Severity)
        ensures
            r == severity_of(lower_of(tag@)),
    {
        let lowered = lowercase(tag);
        Severity::from_lowercase_tag(lowered.as_str())
    }

    /// The upper-case tag used when a detection is shown.
    pub fn label(&self) -> (r: &'static str)
        ensures
            r@ == match *self {
                Severity::Critical => "CRITICAL"@,
                Severity::High => "HIGH"@,
                Severity::Warning => "WARNING"@,
                Severity::Error => "ERROR"@,
                Severity::Info => "INFO"@,
            },
    {
        match self {
            Severity::Critical => "CRITICAL",
            Severity::High => "HIGH",
            Severity::Warning => "WARNING",
            Severity::Error => "ERROR",
            Severity::Info => "INFO",
        }
    }
}

impl Detection {
    /// A field-by-field copy.
    pub fn copy(&self) -> (r: Detection)
        ensures
            r == *self,
    {
        Detection {
            severity: self.severity,
            file_path: self.file_path.clone(),
            line_number: self.line_number,
            pattern_name: self.pattern_name.clone(),
            matched_line: self.matched_line.clone(),
        }
    }
}

/// The detection for a line that a rule matched.
pub fn create_detection(
    severity: &str,
    file_path: &str,
    line_number: usize,
    matched_line: &str,
    rule_name: &str,
) -> (r: Detection)
    ensures
        r.severity == severity_of(lower_of(severity@)),
        r.file_path@ == file_path@,
        r.line_number == line_number,
        r.matched_line@ == matched_line@,
        r.pattern_name@ == rule_name@,
{
    Detection {
        severity: Severity::from_tag(severity),
        file_path: file_path.to_owned(),
        line_number,
        matched_line: matched_line.to_owned(),
        pattern_name: rule_name.to_owned(),
    }
}

/// The warning raised when one pattern is seen more often than the frequency
/// rule allows.
pub fn create_frequency_detection(
    pattern_name: &str,
    count: u32,
    max_same_errors_per_minute: u32,
    time_window_seconds: u32,
    file_path: &str,
    line_number: usize,
    matched_line: &str,
) -> (r: Detection)
    ensures
        r.severity == Severity::Warning,
        r.file_path@ == file_path@,
        r.line_number == line_number,
        r.matched_line@ == matched_line@,
        r.pattern_name@ == frequency_label(
            pattern_name@,
            count as nat,
            time_window_seconds as nat,
            max_same_errors_per_minute as nat,
        ),
{
    let mut name = "Too many \"".to_owned();
    name.append(pattern_name);
    name.append("\" errors (");
    let c = decimal_string(count as u64);
    name.append(c.as_str());
    name.append(" in ");
    let w = decimal_string(time_window_seconds as u64);
    name.append(w.as_str());
    name.append("s, threshold: ");
    let m = decimal_string(max_same_errors_per_minute as u64);
    name.append(m.as_str());
    name.append(")");
    Detection {
        severity: Severity::Warning,
        file_path: file_path.to_owned(),
        line_number,
        matched_line: matched_line.to_owned(),
        pattern_name: name,
    }
}

} // verus!
