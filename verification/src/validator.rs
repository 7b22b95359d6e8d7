//! Configuration validation: syntax checks on every pattern, duplicate
//! line-number detection, file-existence checks, and version gating, each
//! reported as its own issue.

use vstd::prelude::*;

verus! {

use crate::config::{FileEntry, SelectiveIgnoreConfig};
use crate::engine::{contains_str, vec_contains_str};
use crate::error::IgnoreError;
use crate::pattern::{IgnorePattern, PatternType, spec_pattern_valid, spec_invalid_msg};
use crate::strutil::{spec_dec_string, spec_parse_usize, usize_to_dec};
use vstd::string::StringExecFns;

/// The line number a pattern names, when it is a line-number pattern with
/// a readable number.
pub open spec fn spec_line_no_of(p: IgnorePattern) -> Option<usize> {
    if p.pattern_type == PatternType::LineNumber {
        spec_parse_usize(p.specification@)
    } else {
        None
    }
}

/// The duplicate warning for one line number.
pub open spec fn spec_dup_msg(n: usize) -> Seq<char> {
    "Duplicate line number pattern for line "@ + spec_dec_string(n as int)
}

/// The duplicate-line-number warnings of a pattern list, in order: one for
/// each line-number pattern whose number an earlier one already named.
pub open spec fn spec_conflicts(ps: Seq<IgnorePattern>, i: int) -> Seq<Seq<char>>
    decreases ps.len() - i,
{
    if i < 0 || i >= ps.len() {
        Seq::empty()
    } else {
        let head: Seq<Seq<char>> = match spec_line_no_of(ps[i]) {
            Option::Some(n) => if exists|j: int|
                0 <= j < i && spec_line_no_of(#[trigger] ps[j]) == Some(n) {
                seq![spec_dup_msg(n)]
            } else {
                Seq::empty()
            },
            Option::None => Seq::empty(),
        };
        head + spec_conflicts(ps, i + 1)
    }
}

/// The semantic warnings for one pattern: rules that are well formed but
/// almost surely mistakes.
pub open spec fn spec_semantic_issues(p: IgnorePattern) -> Seq<Seq<char>> {
    match p.pattern_type {
        PatternType::LineRegex => {
            let a: Seq<Seq<char>> = if p.specification@.len() == 0 {
                seq!["Empty regex pattern will match nothing"@]
            } else {
                Seq::empty()
            };
            let b: Seq<Seq<char>> = if p.specification@ == ".*"@ {
                seq!["Pattern '.*' will match all lines"@]
            } else {
                Seq::empty()
            };
            a + b
        },
        PatternType::LineNumber => if spec_parse_usize(p.specification@) == Some(0usize) {
            seq!["Line numbers start from 1, not 0"@]
        } else {
            Seq::empty()
        },
        _ => Seq::empty(),
    }
}

/// The full issue list for one pattern: its syntax error, if any, then its
/// semantic warnings.
pub open spec fn spec_pattern_issues(p: IgnorePattern) -> Seq<Seq<char>> {
    let head: Seq<Seq<char>> = if spec_pattern_valid(p) {
        Seq::empty()
    } else {
        seq!["Invalid pattern "@ + p.id@ + ": "@ + spec_invalid_msg(p)]
    };
    head + spec_semantic_issues(p)
}

/// The issue lists of a pattern list, concatenated in order.
pub open spec fn spec_patterns_issues(ps: Seq<IgnorePattern>, i: int) -> Seq<Seq<char>>
    decreases ps.len() - i,
{
    if i < 0 || i >= ps.len() {
        Seq::empty()
    } else {
        spec_pattern_issues(ps[i]) + spec_patterns_issues(ps, i + 1)
    }
}

/// The issues of one configured file: a missing-file warning for a path
/// not among the existing ones (the wildcard key aside), the duplicate
/// warnings, then each pattern's own issues.
pub open spec fn spec_entry_issues(entry: FileEntry, existing: Seq<Seq<char>>) -> Seq<Seq<char>> {
    let head: Seq<Seq<char>> = if entry.path@ != "all"@ && !(exists|k: int|
        0 <= k < existing.len() && existing[k] == entry.path@) {
        seq!["File not found: "@ + entry.path@]
    } else {
        Seq::empty()
    };
    head + spec_conflicts(entry.patterns@, 0) + spec_patterns_issues(entry.patterns@, 0)
}

/// The issues of every configured file, concatenated in order.
pub open spec fn spec_entries_issues(
    entries: Seq<FileEntry>,
    i: int,
    existing: Seq<Seq<char>>,
) -> Seq<Seq<char>>
    decreases entries.len() - i,
{
    if i < 0 || i >= entries.len() {
        Seq::empty()
    } else {
        spec_entry_issues(entries[i], existing) + spec_entries_issues(entries, i + 1, existing)
    }
}

/// The whole configuration's issues: a version warning first, then each
/// file's issues in configuration order.
pub open spec fn spec_config_issues(
    config: SelectiveIgnoreConfig,
    existing: Seq<Seq<char>>,
) -> Seq<Seq<char>> {
    let head: Seq<Seq<char>> = if config.version@ != "1.0"@ {
        seq!["Unsupported config version: "@ + config.version@]
    } else {
        Seq::empty()
    };
    head + spec_entries_issues(config.files.entries@, 0, existing)
}


/// Membership among collected paths, restated over their views.
proof fn lemma_contains_str_mapped(v: Seq<String>, mapped: Seq<Seq<char>>, s: Seq<char>)
    requires
        mapped == v.map_values(|x: String| x@),
    ensures
        contains_str(v, s) <==> exists|k: int| 0 <= k < mapped.len() && #[trigger] mapped[k] == s,
{
    if contains_str(v, s) {
        let w = choose|k: int| 0 <= k < v.len() && (#[trigger] v[k])@ == s;
        assert(mapped[w] == s);
    }
    if exists|k: int| 0 <= k < mapped.len() && mapped[k] == s {
        let w = choose|k: int| 0 <= k < mapped.len() && mapped[k] == s;
        assert((v[w])@ == s);
        assert(contains_str(v, s));
    }
}

/// Checks a configuration and its patterns, reporting every issue found.
pub trait ConfigValidator {
    /// All issues of the whole configuration, given which of the
    /// configured paths exist in the working tree.
    fn validate_config(&self, config: &SelectiveIgnoreConfig, existing_paths: &Vec<String>) -> (r:
        Result<Vec<String>, IgnoreError>)
        ensures
            r matches Ok(v) ==> v@.map_values(|s: String| s@) == spec_config_issues(
                *config,
                existing_paths@.map_values(|s: String| s@),
            ),
    ;

    /// The issues of one pattern: its syntax error, if any, then its
    /// semantic warnings.
    fn validate_pattern(&self, pattern: &IgnorePattern) -> (r: Result<Vec<String>, IgnoreError>)
        ensures
            r matches Ok(v) ==> v@.map_values(|s: String| s@) == spec_pattern_issues(*pattern),
    ;
}

/// The standard checks: syntax per pattern, duplicate line numbers per
/// file, file existence, and the configuration version.
pub struct StandardValidator;

impl StandardValidator {
    /// A fresh validator.
    pub fn new() -> (r: Self) {
        StandardValidator
    }

    /// Whether a configured path names an existing file.
    pub fn check_file_exists(&self, file_path: &str, existing_paths: &Vec<String>) -> (r: bool)
        ensures
            r == contains_str(existing_paths@, file_path@),
    {
        vec_contains_str(existing_paths, file_path)
    }

    /// The duplicate-line-number warnings of one file's pattern list.
    pub fn check_pattern_conflicts(&self, patterns: &Vec<IgnorePattern>) -> (r: Vec<String>)
        ensures
            r@.map_values(|s: String| s@) == spec_conflicts(patterns@, 0),
    {
        let mut warnings: Vec<String> = Vec::new();
        let mut i: usize = 0;
        proof {
            assert(warnings@.map_values(|s: String| s@) + spec_conflicts(patterns@, 0)
                =~= spec_conflicts(patterns@, 0));
        }
        while i < patterns.len()
            invariant
                0 <= i <= patterns@.len(),
                spec_conflicts(patterns@, 0) == warnings@.map_values(|s: String| s@)
                    + spec_conflicts(patterns@, i as int),
            decreases patterns@.len() - i,
        {
            let p = &patterns[i];
            let mut line_num: Option<usize> = None;
            match p.pattern_type {
                PatternType::LineNumber => {
                    line_num = crate::strutil::parse_usize(p.specification.as_str());
                },
                _ => {},
            }
            proof {
                assert(line_num == spec_line_no_of(patterns@[i as int]));
            }
            match line_num {
                Some(n) => {
                    // look for an earlier pattern naming the same line
                    let mut seen = false;
                    let mut j: usize = 0;
                    while j < i
                        invariant
                            0 <= j <= i <= patterns@.len(),
                            seen <==> exists|k: int|
                                0 <= k < j && spec_line_no_of(#[trigger] patterns@[k]) == Some(n),
                        decreases i - j,
                    {
                        let q = &patterns[j];
                        let mut qn: Option<usize> = None;
                        match q.pattern_type {
                            PatternType::LineNumber => {
                                qn = crate::strutil::parse_usize(q.specification.as_str());
                            },
                            _ => {},
                        }
                        proof {
                            assert(qn == spec_line_no_of(patterns@[j as int]));
                        }
                        match qn {
                            Some(m) => if m == n {
                                seen = true;
                            },
                            None => {},
                        }
                        j += 1;
                    }
                    if seen {
                        let mut msg = String::from_str("Duplicate line number pattern for line ");
                        let dec = usize_to_dec(n);
                        msg.append(dec.as_str());
                        warnings.push(msg);
                        proof {
                            assert(warnings@.map_values(|s: String| s@) =~= warnings@.subrange(
                                0,
                                warnings@.len() - 1,
                            ).map_values(|s: String| s@).push(spec_dup_msg(n)));
                        }
                    }
                },
                None => {},
            }
            i += 1;
        }
        proof {
            assert(spec_conflicts(patterns@, patterns@.len() as int) =~= Seq::<Seq<char>>::empty());
            assert(warnings@.map_values(|s: String| s@) =~= spec_conflicts(patterns@, 0));
        }
        warnings
    }
}

impl ConfigValidator for StandardValidator {
    fn validate_config(&self, config: &SelectiveIgnoreConfig, existing_paths: &Vec<String>) -> (r:
        Result<Vec<String>, IgnoreError>) {
        let ghost existing = existing_paths@.map_values(|s: String| s@);
        let mut issues: Vec<String> = Vec::new();
        if !crate::strutil::str_eq(config.version.as_str(), "1.0") {
            let mut msg = String::from_str("Unsupported config version: ");
            msg.append(config.version.as_str());
            issues.push(msg);
        }
        let ghost head_issues = issues@;
        proof {
            assert(head_issues.map_values(|s: String| s@) =~= (if config.version@ != "1.0"@ {
                seq!["Unsupported config version: "@ + config.version@]
            } else {
                Seq::<Seq<char>>::empty()
            }));
        }
        let n = config.files.len();
        let mut i: usize = 0;
        proof {
            assert(issues@.map_values(|s: String| s@) + spec_entries_issues(
                config.files.entries@,
                0,
                existing,
            ) =~= head_issues.map_values(|s: String| s@) + spec_entries_issues(
                config.files.entries@,
                0,
                existing,
            ));
        }
        while i < n
            invariant
                0 <= i <= n,
                n == config.files.entries@.len(),
                existing == existing_paths@.map_values(|s: String| s@),
                head_issues.map_values(|s: String| s@) =~= (if config.version@ != "1.0"@ {
                    seq!["Unsupported config version: "@ + config.version@]
                } else {
                    Seq::<Seq<char>>::empty()
                }),
                issues@.map_values(|s: String| s@) + spec_entries_issues(
                    config.files.entries@,
                    i as int,
                    existing,
                ) == head_issues.map_values(|s: String| s@) + spec_entries_issues(
                    config.files.entries@,
                    0,
                    existing,
                ),
            decreases n - i,
        {
            let entry = &config.files.entries[i];
            let ghost before = issues@;
            proof {
                lemma_contains_str_mapped(existing_paths@, existing, config.files.entries@[i as int].path@);
            }
            if !crate::strutil::str_eq(entry.path.as_str(), "all") && !self.check_file_exists(
                entry.path.as_str(),
                existing_paths,
            ) {
                let mut msg = String::from_str("File not found: ");
                msg.append(entry.path.as_str());
                issues.push(msg);
                proof {
                    assert(issues@.map_values(|s: String| s@) =~= before.map_values(
                        |s: String| s@,
                    ).push("File not found: "@ + entry.path@));
                }
            }
            let ghost after_found = issues@;
            proof {
                assert(after_found.map_values(|s: String| s@) =~= before.map_values(
                    |s: String| s@,
                ) + (if entry.path@ != "all"@ && !(exists|k: int|
                    0 <= k < existing.len() && existing[k] == entry.path@) {
                    seq!["File not found: "@ + entry.path@]
                } else {
                    Seq::<Seq<char>>::empty()
                }));
            }
            let mut conflicts = self.check_pattern_conflicts(&entry.patterns);
            issues.append(&mut conflicts);
            let ghost after_conflicts = issues@;
            proof {
                assert(after_conflicts.map_values(|s: String| s@) =~= after_found.map_values(
                    |s: String| s@,
                ) + spec_conflicts(entry.patterns@, 0));
            }
            let m = entry.patterns.len();
            let mut k: usize = 0;
            proof {
                assert(issues@.map_values(|s: String| s@) + spec_patterns_issues(
                    entry.patterns@,
                    0,
                ) =~= after_conflicts.map_values(|s: String| s@) + spec_patterns_issues(
                    entry.patterns@,
                    0,
                ));
            }
            while k < m
                invariant
                    0 <= k <= m,
                    m == entry.patterns@.len(),
                    entry == &config.files.entries@[i as int],
                    0 <= i < config.files.entries@.len(),
                    issues@.map_values(|s: String| s@) + spec_patterns_issues(
                        entry.patterns@,
                        k as int,
                    ) == after_conflicts.map_values(|s: String| s@) + spec_patterns_issues(
                        entry.patterns@,
                        0,
                    ),
                decreases m - k,
            {
                let mut pattern_issues = match self.validate_pattern(&entry.patterns[k]) {
                    Ok(v) => v,
                    Err(e) => {
                        return Err(e);
                    },
                };
                let ghost before_p = issues@;
                issues.append(&mut pattern_issues);
                proof {
                    assert(issues@.map_values(|s: String| s@) =~= before_p.map_values(
                        |s: String| s@,
                    ) + spec_pattern_issues(entry.patterns@[k as int]));
                }
                k += 1;
            }
            proof {
                assert(spec_patterns_issues(entry.patterns@, m as int) =~= Seq::<
                    Seq<char>,
                >::empty());
                assert(issues@.map_values(|s: String| s@) =~= after_conflicts.map_values(
                    |s: String| s@,
                ) + spec_patterns_issues(entry.patterns@, 0));
                assert(spec_entry_issues(config.files.entries@[i as int], existing)
                    =~= (if entry.path@ != "all"@ && !(exists|kk: int|
                    0 <= kk < existing.len() && existing[kk] == entry.path@) {
                    seq!["File not found: "@ + entry.path@]
                } else {
                    Seq::<Seq<char>>::empty()
                }) + spec_conflicts(entry.patterns@, 0) + spec_patterns_issues(entry.patterns@, 0));
                assert(issues@.map_values(|s: String| s@) =~= before.map_values(|s: String| s@)
                    + spec_entry_issues(config.files.entries@[i as int], existing));
            }
            i += 1;
        }
        proof {
            assert(spec_entries_issues(config.files.entries@, n as int, existing) =~= Seq::<
                Seq<char>,
            >::empty());
            assert(issues@.map_values(|s: String| s@) =~= spec_config_issues(*config, existing));
        }
        Ok(issues)
    }

    fn validate_pattern(&self, pattern: &IgnorePattern) -> (r: Result<Vec<String>, IgnoreError>) {
        let mut issues: Vec<String> = Vec::new();
        match pattern.validate() {
            Ok(()) => {},
            Err(e) => {
                let detail = match &e {
                    IgnoreError::ValidationError(m) => m.clone(),
                    _ => String::new(),
                };
                let mut msg = String::from_str("Invalid pattern ");
                msg.append(pattern.id.as_str());
                msg.append(": ");
                msg.append(detail.as_str());
                issues.push(msg);
            },
        }
        let ghost head = issues@;
        proof {
            assert(head.map_values(|s: String| s@) =~= (if spec_pattern_valid(*pattern) {
                Seq::<Seq<char>>::empty()
            } else {
                seq!["Invalid pattern "@ + pattern.id@ + ": "@ + spec_invalid_msg(*pattern)]
            }));
        }
        match pattern.pattern_type {
            PatternType::LineRegex => {
                if pattern.specification.as_str().unicode_len() == 0 {
                    issues.push(String::from_str("Empty regex pattern will match nothing"));
                }
                if crate::strutil::str_eq(pattern.specification.as_str(), ".*") {
                    issues.push(String::from_str("Pattern '.*' will match all lines"));
                }
            },
            PatternType::LineNumber => {
                match crate::strutil::parse_usize(pattern.specification.as_str()) {
                    Some(line_num) => if line_num == 0 {
                        issues.push(String::from_str("Line numbers start from 1, not 0"));
                    },
                    None => {},
                }
            },
            _ => {},
        }
        proof {
            assert(issues@.map_values(|s: String| s@) =~= head.map_values(|s: String| s@)
                + spec_semantic_issues(*pattern));
            assert(issues@.map_values(|s: String| s@) =~= spec_pattern_issues(*pattern));
        }
        Ok(issues)
    }
}

} // verus!
