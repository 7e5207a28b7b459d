use vstd::prelude::*;
use crate::rules::{RegexRule, Rules};
use crate::text::{contains, has_substring};

verus! {

#[verifier::external_type_specification]
#[verifier::external_body]
pub struct ExRegex(regex::Regex);

#[verifier::external_type_specification]
#[verifier::external_body]
pub struct ExRegexError(regex::Error);

/// Whether `regex::Regex::new` accepts a pattern.
pub uninterp spec fn regex_compiles(pattern: Seq<char>) -> bool;

/// Whether the regex compiled from `pattern` matches somewhere in `hay`.
pub uninterp spec fn regex_finds(pattern: Seq<char>, hay: Seq<char>) -> bool;

/// Relies on `regex::Regex::new`: an error exactly when the pattern is
/// refused (malformed, or over the default size limit).
#[verifier::external_body]
fn compile_regex(pattern: &str) -> (r: Result<regex::Regex, regex::Error>)
    ensures
        r is Ok <==> regex_compiles(pattern@),
{
    regex::Regex::new(pattern)
}

/// A regular expression together with the source it was compiled from.
pub struct CompiledRegex {
    source: String,
    regex: regex::Regex,
}

impl CompiledRegex {
    pub closed spec fn source(&self) -> Seq<char> {
        self.source@
    }

    /// Compiles `pattern`, or reports that the regex crate refused it.
    pub fn new(pattern: &String) -> (r: Option<CompiledRegex>)
        ensures
            r is Some <==> regex_compiles(pattern@),
            r matches Some(c) ==> c.source() == pattern@,
    {
        match compile_regex(pattern.as_str()) {
            Ok(regex) => Some(CompiledRegex { source: pattern.clone(), regex }),
            Err(_) => None,
        }
    }
}

/// Relies on `regex::Regex::is_match`: whether the regex matches anywhere in
/// `hay`.
#[verifier::external_body]
fn regex_is_match(c: &CompiledRegex, hay: &str) -> (r: bool)
    ensures
        r == regex_finds(c.source(), hay@),
{
    c.regex.is_match(hay)
}

/// `k` is the first pattern of `pats` that occurs in `line`.
pub open spec fn is_first_hit(pats: Seq<Seq<char>>, line: Seq<char>, k: int) -> bool {
    &&& 0 <= k < pats.len()
    &&& has_substring(line, pats[k])
    &&& forall|j: int| 0 <= j < k ==> !has_substring(line, #[trigger] pats[j])
}

/// No pattern of `pats` occurs in `line`.
pub open spec fn no_hit(pats: Seq<Seq<char>>, line: Seq<char>) -> bool {
    forall|j: int| 0 <= j < pats.len() ==> !has_substring(line, #[trigger] pats[j])
}

/// `k` is the first regex rule that matches `line`.
pub open spec fn is_first_regex(rules: Seq<RegexRule>, line: Seq<char>, k: int) -> bool {
    &&& 0 <= k < rules.len()
    &&& regex_finds(rules[k].pattern@, line)
    &&& forall|j: int| 0 <= j < k ==> !regex_finds(#[trigger] rules[j].pattern@, line)
}

/// No regex rule matches `line`.
pub open spec fn no_regex(rules: Seq<RegexRule>, line: Seq<char>) -> bool {
    forall|j: int| 0 <= j < rules.len() ==> !regex_finds(#[trigger] rules[j].pattern@, line)
}

/// The severity tag and rule name that a line gets: error substrings first,
/// then warning substrings, then regex rules, each in configured order.
pub open spec fn match_line(
    errors: Seq<Seq<char>>,
    warnings: Seq<Seq<char>>,
    regexes: Seq<RegexRule>,
    line: Seq<char>,
) -> Option<(Seq<char>, Seq<char>)> {
    if exists|k: int| is_first_hit(errors, line, k) {
        let k = choose|k: int| is_first_hit(errors, line, k);
        Some(("ERROR"@, errors[k]))
    } else if exists|k: int| is_first_hit(warnings, line, k) {
        let k = choose|k: int| is_first_hit(warnings, line, k);
        Some(("WARNING"@, warnings[k]))
    } else if exists|k: int| is_first_regex(regexes, line, k) {
        let k = choose|k: int| is_first_regex(regexes, line, k);
        Some((regexes[k].severity@, regexes[k].name@))
    } else {
        None
    }
}

/// The characters of each string.
pub open spec fn strings_view(v: Seq<String>) -> Seq<Seq<char>> {
    v.map_values(|s: String| s@)
}

/// Why a rule set cannot be used.
#[derive(Debug, Clone, Copy, PartialEq, Eq, Structural)]
pub enum PatternError {
    /// The regex rule at this index does not compile.
    InvalidRegex { index: usize },
}

/// Decides which configured rule, if any, a line matches.
pub struct PatternMatcher {
    error_patterns: Vec<String>,
    warning_patterns: Vec<String>,
    regex_rules: Vec<RegexRule>,
    compiled: Vec<CompiledRegex>,
}

pub(crate) fn copy_strings(v: &Vec<String>) -> (r: Vec<String>)
    ensures
        r@ == v@,
{
    let mut r: Vec<String> = Vec::new();
    let mut i: usize = 0;
    while i < v.len()
        invariant
            i <= v.len(),
            r@ == v@.subrange(0, i as int),
        decreases v.len() - i,
    {
        r.push(v[i].clone());
        i += 1;
    }
    assert(r@ =~= v@);
    r
}

impl RegexRule {
    /// A field-by-field copy.
    pub fn copy(&self) -> (r: RegexRule)
        ensures
            r == *self,
    {
        RegexRule {
            name: self.name.clone(),
            pattern: self.pattern.clone(),
            severity: self.severity.clone(),
        }
    }
}

impl PatternMatcher {
    pub closed spec fn errors(&self) -> Seq<Seq<char>> {
        strings_view(self.error_patterns@)
    }

    pub closed spec fn warnings(&self) -> Seq<Seq<char>> {
        strings_view(self.warning_patterns@)
    }

    pub closed spec fn regexes(&self) -> Seq<RegexRule> {
        self.regex_rules@
    }

    /// Each regex rule sits beside the regex compiled from its pattern.
    pub closed spec fn wf(&self) -> bool {
        &&& self.compiled@.len() == self.regex_rules@.len()
        &&& forall|i: int|
            0 <= i < self.compiled@.len() ==> (#[trigger] self.compiled@[i]).source()
                == self.regex_rules@[i].pattern@
    }

    /// Compiles every regex rule once; fails on the first one that does not
    /// compile.
    pub fn new(rules: &Rules) -> (r: Result<PatternMatcher, PatternError>)
        ensures
            r is Ok <==> forall|i: int|
                0 <= i < rules.regex_rules@.len() ==> regex_compiles(
                    #[trigger] rules.regex_rules@[i].pattern@,
                ),
            r matches Ok(m) ==> {
                &&& m.wf()
                &&& m.errors() == strings_view(rules.patterns.error_patterns@)
                &&& m.warnings() == strings_view(rules.patterns.warning_patterns@)
                &&& m.regexes() == rules.regex_rules@
            },
            r matches Err(PatternError::InvalidRegex { index }) ==> {
                &&& index < rules.regex_rules@.len()
                &&& !regex_compiles(rules.regex_rules@[index as int].pattern@)
                &&& forall|j: int|
                    0 <= j < index ==> regex_compiles(#[trigger] rules.regex_rules@[j].pattern@)
            },
    {
        let mut regex_rules: Vec<RegexRule> = Vec::new();
        let mut compiled: Vec<CompiledRegex> = Vec::new();
        let mut i: usize = 0;
        while i < rules.regex_rules.len()
            invariant
                i <= rules.regex_rules@.len(),
                regex_rules@ == rules.regex_rules@.subrange(0, i as int),
                compiled@.len() == i,
                forall|j: int|
                    0 <= j < i ==> (#[trigger] compiled@[j]).source()
                        == rules.regex_rules@[j].pattern@,
                forall|j: int| 0 <= j < i ==> regex_compiles(#[trigger] rules.regex_rules@[j].pattern@),
            decreases rules.regex_rules@.len() - i,
        {
            let rule = &rules.regex_rules[i];
            match CompiledRegex::new(&rule.pattern) {
                Some(c) => {
                    compiled.push(c);
                    regex_rules.push(rule.copy());
                },
                None => {
                    return Err(PatternError::InvalidRegex { index: i });
                },
            }
            i += 1;
        }
        assert(regex_rules@ =~= rules.regex_rules@);
        Ok(
            PatternMatcher {
                error_patterns: copy_strings(&rules.patterns.error_patterns),
                warning_patterns: copy_strings(&rules.patterns.warning_patterns),
                regex_rules,
                compiled,
            },
        )
    }

    /// The severity tag and rule name of the first rule that matches `line`.
    pub fn check_for_patterns(&self, line: &str) -> (r: Option<(&str, &str)>)
        requires
            self.wf(),
        ensures
            match_view(r) == match_line(self.errors(), self.warnings(), self.regexes(), line@),
    {
        let mut i: usize = 0;
        while i < self.error_patterns.len()
            invariant
                i <= self.error_patterns@.len(),
                forall|j: int| 0 <= j < i ==> !has_substring(line@, #[trigger] self.errors()[j]),
            decreases self.error_patterns@.len() - i,
        {
            if contains(line, self.error_patterns[i].as_str()) {
                assert(is_first_hit(self.errors(), line@, i as int));
                return Some(("ERROR", self.error_patterns[i].as_str()));
            }
            i += 1;
        }
        assert(no_hit(self.errors(), line@));
        let mut i: usize = 0;
        while i < self.warning_patterns.len()
            invariant
                i <= self.warning_patterns@.len(),
                no_hit(self.errors(), line@),
                forall|j: int| 0 <= j < i ==> !has_substring(line@, #[trigger] self.warnings()[j]),
            decreases self.warning_patterns@.len() - i,
        {
            if contains(line, self.warning_patterns[i].as_str()) {
                assert(is_first_hit(self.warnings(), line@, i as int));
                return Some(("WARNING", self.warning_patterns[i].as_str()));
            }
            i += 1;
        }
        assert(no_hit(self.warnings(), line@));
        let mut i: usize = 0;
        while i < self.regex_rules.len()
            invariant
                self.wf(),
                i <= self.regex_rules@.len(),
                no_hit(self.errors(), line@),
                no_hit(self.warnings(), line@),
                forall|j: int| 0 <= j < i ==> !regex_finds(#[trigger] self.regexes()[j].pattern@, line@),
            decreases self.regex_rules@.len() - i,
        {
            if regex_is_match(&self.compiled[i], line) {
                assert(is_first_regex(self.regexes(), line@, i as int));
                let rule = &self.regex_rules[i];
                return Some((rule.severity.as_str(), rule.name.as_str()));
            }
            i += 1;
        }
        None
    }
}

/// The view of what `check_for_patterns` returns.
pub open spec fn match_view(r: Option<(&str, &str)>) -> Option<(Seq<char>, Seq<char>)> {
    match r {
        Some(p) => Some((p.0@, p.1@)),
        None => None,
    }
}

proof fn lemma_first_hit_exists(pats: Seq<Seq<char>>, line: Seq<char>, k: int)
    requires
        0 <= k < pats.len(),
        has_substring(line, pats[k]),
    ensures
        exists|j: int| 0 <= j <= k && is_first_hit(pats, line, j),
    decreases k,
{
    if exists|j: int| 0 <= j < k && has_substring(line, #[trigger] pats[j]) {
        let j = choose|j: int| 0 <= j < k && has_substring(line, #[trigger] pats[j]);
        lemma_first_hit_exists(pats, line, j);
    } else {
        assert(is_first_hit(pats, line, k));
    }
}

/// Error substrings take precedence: whatever the warning substrings and
/// regex rules, a line that contains a configured error substring gets the
/// tag "ERROR" and the first configured error substring that it contains.
pub proof fn lemma_error_substring_wins(
    errors: Seq<Seq<char>>,
    warnings: Seq<Seq<char>>,
    regexes: Seq<RegexRule>,
    line: Seq<char>,
    k: int,
)
    requires
        0 <= k < errors.len(),
        has_substring(line, errors[k]),
    ensures
        match_line(errors, warnings, regexes, line) matches Some((tag, name)) && tag == "ERROR"@
            && exists|j: int| 0 <= j <= k && name == errors[j] && has_substring(line, errors[j]),
        (forall|j: int| 0 <= j < k ==> !has_substring(line, #[trigger] errors[j])) ==> match_line(
            errors,
            warnings,
            regexes,
            line,
        ) == Some(("ERROR"@, errors[k])),
{
    lemma_first_hit_exists(errors, line, k);
    let j = choose|j: int| is_first_hit(errors, line, j);
    if forall|i: int| 0 <= i < k ==> !has_substring(line, #[trigger] errors[i]) {
        assert(is_first_hit(errors, line, k));
        assert(j == k) by {
            if j < k {
                assert(!has_substring(line, errors[j]));
            }
            if j > k {
                assert(!has_substring(line, errors[k]));
            }
        }
    }
}

/// Matching is idempotent: two calls of `check_for_patterns` with the same
/// matcher on the same line give the same tag and rule name.
pub proof fn lemma_match_idempotent(
    m: PatternMatcher,
    line: Seq<char>,
    first: Option<(Seq<char>, Seq<char>)>,
    second: Option<(Seq<char>, Seq<char>)>,
)
    requires
        first == match_line(m.errors(), m.warnings(), m.regexes(), line),
        second == match_line(m.errors(), m.warnings(), m.regexes(), line),
    ensures
        first == second,
{
}

} // verus!
