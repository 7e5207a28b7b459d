use vstd::prelude::*;

verus! {

/// Plain substrings that mark a line as an error or a warning.
#[derive(Debug, Clone, Default)]
pub struct PatternConfig {
    pub error_patterns: Vec<String>,
    pub warning_patterns: Vec<String>,
}

/// The whole rule set, read-only once loaded.
#[derive(Debug, Clone, Default)]
pub struct Rules {
    pub patterns: PatternConfig,
    pub regex_rules: Vec<RegexRule>,
    pub frequency_rules: Option<FrequencyRules>,
    pub correlated_rules: Vec<CorrelatedRule>,
}

/// A named regular expression with the severity tag it reports.
#[derive(Debug, Clone)]
pub struct RegexRule {
    pub name: String,
    pub pattern: String,
    pub severity: String,
}

/// The single frequency rule, applied to every pattern name alike.
#[derive(Debug, Clone, Copy)]
pub struct FrequencyRules {
    pub max_same_errors_per_minute: u32,
    pub time_window_seconds: u32,
}

/// "At least `trigger_on_rule.count` trigger events, then `followed_by`, within the window."
#[derive(Debug, Clone)]
pub struct CorrelatedRule {
    pub name: String,
    pub severity: String,
    pub description: String,
    pub time_window_seconds: u64,
    pub trigger_on_rule: TriggerRule,
    pub followed_by: String,
}

/// The repeated precursor of a correlated rule.
#[derive(Debug, Clone)]
pub struct TriggerRule {
    pub name: String,
    pub count: usize,
}

} // verus!
