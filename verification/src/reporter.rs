//! Read-only status reporting: per-file ignore coverage, formatted for
//! human inspection.

use vstd::prelude::*;

verus! {

use crate::config::{FileEntry, SelectiveIgnoreConfig};
use crate::error::IgnoreError;
use crate::pattern::{IgnorePattern, PatternType};
use crate::strutil::{spec_dec_string, usize_to_dec};
use vstd::string::{StrSliceExecFns, StringExecFns};

/// The coverage summary of one file: whether it exists, and how many of
/// its lines the patterns in force would ignore.
#[derive(Debug, Clone, Copy)]
pub struct FileStatus {
    /// Whether the file exists in the working tree.
    pub exists: bool,
    /// Whether at least one line would be ignored.
    pub has_ignored_lines: bool,
    /// How many lines would be ignored.
    pub ignored_line_count: usize,
    /// How many lines the file has.
    pub total_lines: usize,
}

/// The status icon for a file: missing, covered, or untouched.
pub open spec fn spec_status_icon(status: FileStatus) -> Seq<char> {
    if !status.exists {
        "[missing]"@
    } else if status.has_ignored_lines {
        "[ignored]"@
    } else {
        "[clean]"@
    }
}

/// Tenths of a percent of ignored lines, rounded to the nearest tenth.
pub open spec fn spec_coverage_tenths(status: FileStatus) -> int {
    if status.total_lines > 0 {
        (status.ignored_line_count * 2000 / (status.total_lines as int) + 1) / 2
    } else {
        0
    }
}

/// One file's status line: icon, path, how many patterns apply, the
/// ignored and total line counts, and the percentage in tenths.
pub open spec fn spec_format_file_status(
    file_path: Seq<char>,
    status: FileStatus,
    pattern_count: int,
) -> Seq<char> {
    let tenths = spec_coverage_tenths(status);
    spec_status_icon(status) + " "@ + file_path + " ("@ + spec_dec_string(pattern_count)
        + " patterns, "@ + spec_dec_string(status.ignored_line_count as int) + "/"@
        + spec_dec_string(status.total_lines as int) + " lines ignored, "@ + spec_dec_string(
        tenths / 10,
    ) + "."@ + spec_dec_string(tenths % 10) + "%)"@
}

/// Builds the status line of one file, for display.
pub fn format_file_status(file_path: &str, status: &FileStatus, patterns: &Vec<IgnorePattern>) -> (r:
    String)
    requires
        status.ignored_line_count <= status.total_lines,
    ensures
        r@ == spec_format_file_status(file_path@, *status, patterns@.len() as int),
{
    let mut out = if !status.exists {
        String::from_str("[missing]")
    } else if status.has_ignored_lines {
        String::from_str("[ignored]")
    } else {
        String::from_str("[clean]")
    };
    out.append(" ");
    out.append(file_path);
    out.append(" (");
    let pc = usize_to_dec(patterns.len());
    out.append(pc.as_str());
    out.append(" patterns, ");
    let ic = usize_to_dec(status.ignored_line_count);
    out.append(ic.as_str());
    out.append("/");
    let tc = usize_to_dec(status.total_lines);
    out.append(tc.as_str());
    out.append(" lines ignored, ");
    let tenths: u64 = if status.total_lines > 0 {
        let scaled: u128 = (status.ignored_line_count as u128) * 2000
            / (status.total_lines as u128);
        let rounded: u128 = (scaled + 1) / 2;
        proof {
            assert(status.ignored_line_count * 2000 <= status.total_lines * 2000) by (nonlinear_arith)
                requires
                    status.ignored_line_count <= status.total_lines,
            ;
            assert(status.total_lines * 2000 / status.total_lines as int == 2000) by (nonlinear_arith)
                requires
                    status.total_lines > 0,
            ;
            assert(status.ignored_line_count * 2000 / status.total_lines as int <= 2000)
                by (nonlinear_arith)
                requires
                    status.total_lines > 0,
                    status.ignored_line_count * 2000 <= status.total_lines * 2000,
            ;
        }
        (rounded as u64)
    } else {
        0
    };
    proof {
        assert(tenths as int == spec_coverage_tenths(*status));
        assert(tenths <= 1000);
    }
    let whole = crate::strutil::u64_to_dec(tenths / 10);
    out.append(whole.as_str());
    out.append(".");
    let frac = crate::strutil::u64_to_dec(tenths % 10);
    out.append(frac.as_str());
    out.append("%)");
    proof {
        assert(out@ =~= spec_format_file_status(file_path@, *status, patterns@.len() as int));
    }
    out
}

/// The display name of a pattern kind, as configuration files write it.
pub open spec fn spec_kind_label(t: PatternType) -> Seq<char> {
    match t {
        PatternType::LineRegex => "line-regex"@,
        PatternType::LineNumber => "line-number"@,
        PatternType::BlockStartEnd => "block-start-end"@,
        PatternType::LineRange => "line-range"@,
    }
}

/// Writes the display name of a pattern kind.
pub fn pattern_type_label(t: &PatternType) -> (r: &'static str)
    ensures
        r@ == spec_kind_label(*t),
{
    match t {
        PatternType::LineRegex => "line-regex",
        PatternType::LineNumber => "line-number",
        PatternType::BlockStartEnd => "block-start-end",
        PatternType::LineRange => "line-range",
    }
}

/// Adding with saturation at the machine limit, as the report's summary
/// counters are accumulated.
pub open spec fn spec_sat_add(a: usize, b: usize) -> usize {
    if a <= usize::MAX - b {
        (a + b) as usize
    } else {
        a
    }
}

/// One detail line per applicable pattern, shown in verbose reports.
pub open spec fn spec_detail_lines(ps: Seq<IgnorePattern>, i: int) -> Seq<char>
    decreases ps.len() - i,
{
    if i < 0 || i >= ps.len() {
        Seq::empty()
    } else {
        "  - "@ + ps[i].id@ + " ("@ + spec_kind_label(ps[i].pattern_type) + "): "@
            + ps[i].specification@ + "\n"@ + spec_detail_lines(ps, i + 1)
    }
}

/// The report block of one reported file: its status line (the plain path
/// when the counts are inconsistent), then its pattern details when the
/// verbose setting is on.
pub open spec fn spec_status_entry(
    files: Map<Seq<char>, Seq<IgnorePattern>>,
    verbose: bool,
    path: Seq<char>,
    st: FileStatus,
) -> Seq<char> {
    let ps = crate::engine::spec_status_applicable(files, path);
    (if st.ignored_line_count <= st.total_lines {
        spec_format_file_status(path, st, ps.len() as int)
    } else {
        path
    }) + "\n"@ + (if verbose {
        spec_detail_lines(ps, 0)
    } else {
        Seq::empty()
    })
}

/// Folding the reported files front to back: the section for files with
/// their own configuration, the section for files covered only by
/// wildcard patterns, and the summary counters (ignored lines, files with
/// ignored lines, missing files, and the two section counts).
pub open spec fn spec_report_fold(
    files: Map<Seq<char>, Seq<IgnorePattern>>,
    verbose: bool,
    statuses: Seq<(String, FileStatus)>,
    i: int,
    own_sec: Seq<char>,
    wild_sec: Seq<char>,
    ignored: usize,
    problems: usize,
    missing: usize,
    own_count: usize,
    wild_count: usize,
) -> (Seq<char>, Seq<char>, usize, usize, usize, usize, usize)
    decreases statuses.len() - i,
{
    if i < 0 || i >= statuses.len() {
        (own_sec, wild_sec, ignored, problems, missing, own_count, wild_count)
    } else {
        let path = statuses[i].0@;
        let st = statuses[i].1;
        let ignored2 = spec_sat_add(ignored, st.ignored_line_count);
        let problems2 = if st.has_ignored_lines {
            spec_sat_add(problems, 1)
        } else {
            problems
        };
        let missing2 = if !st.exists {
            spec_sat_add(missing, 1)
        } else {
            missing
        };
        let entry = spec_status_entry(files, verbose, path, st);
        if files.contains_key(path) {
            spec_report_fold(
                files,
                verbose,
                statuses,
                i + 1,
                own_sec + entry,
                wild_sec,
                ignored2,
                problems2,
                missing2,
                spec_sat_add(own_count, 1),
                wild_count,
            )
        } else {
            spec_report_fold(
                files,
                verbose,
                statuses,
                i + 1,
                own_sec,
                wild_sec + entry,
                ignored2,
                problems2,
                missing2,
                own_count,
                spec_sat_add(wild_count, 1),
            )
        }
    }
}

/// The configured pattern count, folded over the entries with saturation.
pub open spec fn spec_total_patterns(entries: Seq<FileEntry>, i: int, acc: usize) -> usize
    decreases entries.len() - i,
{
    if i < 0 || i >= entries.len() {
        acc
    } else {
        spec_total_patterns(entries, i + 1, spec_sat_add(acc, entries[i].patterns@.len() as usize))
    }
}

/// A labelled count on a line of its own.
pub open spec fn spec_count_line(label: Seq<char>, n: usize) -> Seq<char> {
    label + spec_dec_string(n as int) + "\n"@
}

/// The whole status report: a header; for an empty configuration one
/// closing line; otherwise the two file sections, the summary counts, the
/// breakdown, and a hint when some reported file is missing.
pub open spec fn spec_status_report(
    config: SelectiveIgnoreConfig,
    statuses: Seq<(String, FileStatus)>,
) -> Seq<char> {
    let header = "Git Selective Ignore Status Report"@ + "\n"@
        + "====================================="@ + "\n"@;
    if config.files.entries@.len() == 0 {
        header + "No files configured for selective ignore."@ + "\n"@
    } else {
        let tp = spec_total_patterns(config.files.entries@, 0, 0);
        let folded = spec_report_fold(
            config.files@,
            config.global_settings.verbose,
            statuses,
            0,
            Seq::empty(),
            Seq::empty(),
            0,
            0,
            0,
            0,
            0,
        );
        let own_block: Seq<char> = if folded.5 > 0 {
            "Specifically Configured Files:"@ + "\n"@ + folded.0 + "\n"@
        } else {
            Seq::empty()
        };
        let wild_block: Seq<char> = if folded.6 > 0 && config.files@.contains_key("all"@) {
            "Files Affected by Global 'ALL' Patterns:"@ + "\n"@ + folded.1
        } else {
            Seq::empty()
        };
        let summary = "\n"@ + "Summary:"@ + "\n"@ + spec_count_line(
            "  Total files: "@,
            statuses.len() as usize,
        ) + spec_count_line("  Total patterns: "@, tp) + spec_count_line(
            "  Total ignored lines: "@,
            folded.2,
        ) + spec_count_line("  Files with issues: "@, folded.3);
        let breakdown: Seq<char> = if folded.5 > 0 || folded.6 > 0 {
            "\n"@ + "Breakdown:"@ + "\n"@ + (if folded.5 > 0 {
                spec_count_line("  Specifically configured files: "@, folded.5)
            } else {
                Seq::empty()
            }) + (if folded.6 > 0 {
                spec_count_line("  Files affected by 'ALL' patterns only: "@, folded.6)
            } else {
                Seq::empty()
            })
        } else {
            Seq::empty()
        };
        let hint: Seq<char> = if folded.4 > 0 {
            "\n"@ + "Run with --verbose to see detailed pattern information"@ + "\n"@
        } else {
            Seq::empty()
        };
        header + own_block + wild_block + summary + breakdown + hint
    }
}

/// Renders a whole coverage report as text.
pub trait StatusReporter {
    /// The report over the configuration in force and the computed
    /// per-file statuses.
    fn generate_status_report(
        &self,
        config: &SelectiveIgnoreConfig,
        file_statuses: &Vec<(String, FileStatus)>,
    ) -> (r: Result<String, IgnoreError>)
        requires
            config.files.wf(),
        ensures
            r matches Ok(s) ==> s@ == spec_status_report(*config, file_statuses@),
    ;
}

/// The reporter that renders the report for a console, line by line.
pub struct ConsoleReporter;

impl ConsoleReporter {
    /// A fresh reporter.
    pub fn new() -> (r: Self) {
        ConsoleReporter
    }
}

/// Appends one line and a newline.
fn push_line(out: &mut String, line: &str)
    ensures
        final(out)@ == old(out)@ + line@ + "\n"@,
{
    out.append(line);
    out.append("\n");
}

/// Appends a labelled count as one line.
fn append_count_line(out: &mut String, label: &str, n: usize)
    ensures
        final(out)@ == old(out)@ + spec_count_line(label@, n),
{
    out.append(label);
    let d = usize_to_dec(n);
    out.append(d.as_str());
    out.append("\n");
    proof {
        assert(final(out)@ =~= old(out)@ + spec_count_line(label@, n));
    }
}

/// Appends one detail line per pattern: identifier, kind and rule text.
fn append_pattern_details(out: &mut String, patterns: &Vec<IgnorePattern>)
    ensures
        final(out)@ == old(out)@ + spec_detail_lines(patterns@, 0),
{
    let mut k: usize = 0;
    proof {
        assert(out@ + spec_detail_lines(patterns@, 0) =~= old(out)@ + spec_detail_lines(
            patterns@,
            0,
        ));
    }
    while k < patterns.len()
        invariant
            0 <= k <= patterns@.len(),
            out@ + spec_detail_lines(patterns@, k as int) == old(out)@ + spec_detail_lines(
                patterns@,
                0,
            ),
        decreases patterns@.len() - k,
    {
        out.append("  - ");
        out.append(patterns[k].id.as_str());
        out.append(" (");
        out.append(pattern_type_label(&patterns[k].pattern_type));
        out.append("): ");
        out.append(patterns[k].specification.as_str());
        out.append("\n");
        k += 1;
    }
    proof {
        assert(spec_detail_lines(patterns@, patterns@.len() as int) =~= Seq::<char>::empty());
        assert(final(out)@ =~= old(out)@ + spec_detail_lines(patterns@, 0));
    }
}

impl StatusReporter for ConsoleReporter {
    /// Builds the report: a header, each file's status block (files with
    /// their own configuration first, then files covered only by wildcard
    /// patterns), per-pattern detail when the verbose setting asks for
    /// it, and the closing summary counts.
    #[verifier::rlimit(100)]
    fn generate_status_report(
        &self,
        config: &SelectiveIgnoreConfig,
        file_statuses: &Vec<(String, FileStatus)>,
    ) -> (r: Result<String, IgnoreError>) {
        let ghost files = config.files@;
        let ghost verbose = config.global_settings.verbose;
        let mut out = String::new();
        push_line(&mut out, "Git Selective Ignore Status Report");
        push_line(&mut out, "=====================================");
        let ghost header = out@;
        if config.files.is_empty() {
            push_line(&mut out, "No files configured for selective ignore.");
            proof {
                assert(out@ =~= spec_status_report(*config, file_statuses@));
            }
            return Ok(out);
        }
        let mut total_patterns: usize = 0;
        let mut ei: usize = 0;
        while ei < config.files.len()
            invariant
                0 <= ei <= config.files.entries@.len(),
                config.files.wf(),
                spec_total_patterns(config.files.entries@, 0, 0) == spec_total_patterns(
                    config.files.entries@,
                    ei as int,
                    total_patterns,
                ),
            decreases config.files.entries@.len() - ei,
        {
            let k = config.files.entries[ei].patterns.len();
            total_patterns = if total_patterns <= usize::MAX - k {
                total_patterns + k
            } else {
                total_patterns
            };
            ei += 1;
        }
        let mut total_ignored_lines: usize = 0;
        let mut files_with_problems: usize = 0;
        let mut missing_count: usize = 0;
        let mut own_count: usize = 0;
        let mut wild_count: usize = 0;
        let mut own_section = String::new();
        let mut wild_section = String::new();
        let mut si: usize = 0;
        while si < file_statuses.len()
            invariant
                0 <= si <= file_statuses@.len(),
                config.files.wf(),
                files == config.files@,
                verbose == config.global_settings.verbose,
                spec_report_fold(
                    files,
                    verbose,
                    file_statuses@,
                    0,
                    Seq::empty(),
                    Seq::empty(),
                    0,
                    0,
                    0,
                    0,
                    0,
                ) == spec_report_fold(
                    files,
                    verbose,
                    file_statuses@,
                    si as int,
                    own_section@,
                    wild_section@,
                    total_ignored_lines,
                    files_with_problems,
                    missing_count,
                    own_count,
                    wild_count,
                ),
            decreases file_statuses@.len() - si,
        {
            let path = &file_statuses[si].0;
            let status = file_statuses[si].1;
            let c = status.ignored_line_count;
            total_ignored_lines = if total_ignored_lines <= usize::MAX - c {
                total_ignored_lines + c
            } else {
                total_ignored_lines
            };
            if status.has_ignored_lines {
                files_with_problems = if files_with_problems <= usize::MAX - 1 {
                    files_with_problems + 1
                } else {
                    files_with_problems
                };
            }
            if !status.exists {
                missing_count = if missing_count <= usize::MAX - 1 {
                    missing_count + 1
                } else {
                    missing_count
                };
            }
            let own = config.files.get(path.as_str());
            let is_own = match own {
                Some(_) => true,
                None => false,
            };
            let applicable = crate::engine::status_patterns(config, path);
            let line = if status.ignored_line_count <= status.total_lines {
                format_file_status(path.as_str(), &status, &applicable)
            } else {
                String::from_str(path.as_str())
            };
            if is_own {
                own_count = if own_count <= usize::MAX - 1 {
                    own_count + 1
                } else {
                    own_count
                };
                let ghost before = own_section@;
                push_line(&mut own_section, line.as_str());
                if config.global_settings.verbose {
                    append_pattern_details(&mut own_section, &applicable);
                }
                proof {
                    assert(own_section@ =~= before + spec_status_entry(
                        files,
                        verbose,
                        file_statuses@[si as int].0@,
                        file_statuses@[si as int].1,
                    ));
                }
            } else {
                wild_count = if wild_count <= usize::MAX - 1 {
                    wild_count + 1
                } else {
                    wild_count
                };
                let ghost before = wild_section@;
                push_line(&mut wild_section, line.as_str());
                if config.global_settings.verbose {
                    append_pattern_details(&mut wild_section, &applicable);
                }
                proof {
                    assert(wild_section@ =~= before + spec_status_entry(
                        files,
                        verbose,
                        file_statuses@[si as int].0@,
                        file_statuses@[si as int].1,
                    ));
                }
            }
            si += 1;
        }
        let ghost folded = spec_report_fold(
            files,
            verbose,
            file_statuses@,
            0,
            Seq::empty(),
            Seq::empty(),
            0,
            0,
            0,
            0,
            0,
        );
        proof {
            assert(folded == (
                own_section@,
                wild_section@,
                total_ignored_lines,
                files_with_problems,
                missing_count,
                own_count,
                wild_count,
            ));
        }
        if own_count > 0 {
            push_line(&mut out, "Specifically Configured Files:");
            out.append(own_section.as_str());
            out.append("\n");
        }
        let has_wildcard = match config.files.get("all") {
            Some(_) => true,
            None => false,
        };
        if wild_count > 0 && has_wildcard {
            push_line(&mut out, "Files Affected by Global 'ALL' Patterns:");
            out.append(wild_section.as_str());
        }
        let ghost with_sections = out@;
        proof {
            let own_block: Seq<char> = if own_count > 0 {
                "Specifically Configured Files:"@ + "\n"@ + own_section@ + "\n"@
            } else {
                Seq::empty()
            };
            let wild_block: Seq<char> = if wild_count > 0 && config.files@.contains_key("all"@) {
                "Files Affected by Global 'ALL' Patterns:"@ + "\n"@ + wild_section@
            } else {
                Seq::empty()
            };
            assert(with_sections =~= header + own_block + wild_block);
        }
        out.append("\n");
        push_line(&mut out, "Summary:");
        append_count_line(&mut out, "  Total files: ", file_statuses.len());
        append_count_line(&mut out, "  Total patterns: ", total_patterns);
        append_count_line(&mut out, "  Total ignored lines: ", total_ignored_lines);
        append_count_line(&mut out, "  Files with issues: ", files_with_problems);
        let ghost with_summary = out@;
        proof {
            assert(with_summary =~= with_sections + ("\n"@ + "Summary:"@ + "\n"@
                + spec_count_line("  Total files: "@, file_statuses@.len() as usize)
                + spec_count_line("  Total patterns: "@, total_patterns) + spec_count_line(
                "  Total ignored lines: "@,
                total_ignored_lines,
            ) + spec_count_line("  Files with issues: "@, files_with_problems)));
        }
        if own_count > 0 || wild_count > 0 {
            out.append("\n");
            push_line(&mut out, "Breakdown:");
            if own_count > 0 {
                append_count_line(&mut out, "  Specifically configured files: ", own_count);
            }
            if wild_count > 0 {
                append_count_line(&mut out, "  Files affected by 'ALL' patterns only: ", wild_count);
            }
        }
        let ghost with_breakdown = out@;
        proof {
            let breakdown: Seq<char> = if own_count > 0 || wild_count > 0 {
                "\n"@ + "Breakdown:"@ + "\n"@ + (if own_count > 0 {
                    spec_count_line("  Specifically configured files: "@, own_count)
                } else {
                    Seq::empty()
                }) + (if wild_count > 0 {
                    spec_count_line("  Files affected by 'ALL' patterns only: "@, wild_count)
                } else {
                    Seq::empty()
                })
            } else {
                Seq::empty()
            };
            assert(with_breakdown =~= with_summary + breakdown);
        }
        if missing_count > 0 {
            out.append("\n");
            push_line(&mut out, "Run with --verbose to see detailed pattern information");
        }
        proof {
            let hint: Seq<char> = if missing_count > 0 {
                "\n"@ + "Run with --verbose to see detailed pattern information"@ + "\n"@
            } else {
                Seq::empty()
            };
            assert(out@ =~= with_breakdown + hint);
            assert(out@ =~= spec_status_report(*config, file_statuses@));
        }
        Ok(out)
    }
}

} // verus!
