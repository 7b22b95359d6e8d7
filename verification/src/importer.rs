//! Importing ignore patterns from external texts: a gitignore-style list
//! of globs applied to one file, or a sectioned custom format that names
//! its files itself.

use vstd::prelude::*;

verus! {

use crate::config::FileMap;
use crate::error::IgnoreError;
use crate::pattern::{IgnorePattern, PatternType, spec_kind_of};
use crate::strutil::{spec_lines, spec_trim, split_lines, trim_str, str_eq, push_char};
use vstd::string::{StrSliceExecFns, StringExecFns};

/// A glob turned into regex text: `*` becomes `.*` and `?` becomes `.`;
/// every other character stands for itself.
pub open spec fn spec_glob_to_regex(s: Seq<char>) -> Seq<char>
    decreases s.len(),
{
    if s.len() == 0 {
        Seq::empty()
    } else {
        let head: Seq<char> = if s[0] == '*' {
            seq!['.', '*']
        } else if s[0] == '?' {
            seq!['.']
        } else {
            seq![s[0]]
        };
        head + spec_glob_to_regex(s.drop_first())
    }
}

/// Converts one glob line into regex text.
fn glob_to_regex(line: &str) -> (r: String)
    ensures
        r@ == spec_glob_to_regex(line@),
{
    let n = line.unicode_len();
    let mut out = String::new();
    let mut i: usize = 0;
    proof {
        assert(line@.subrange(0, n as int) =~= line@);
        assert(out@ + spec_glob_to_regex(line@.subrange(0, n as int)) =~= spec_glob_to_regex(
            line@,
        ));
    }
    while i < n
        invariant
            0 <= i <= n,
            n == line@.len(),
            spec_glob_to_regex(line@) == out@ + spec_glob_to_regex(
                line@.subrange(i as int, n as int),
            ),
        decreases n - i,
    {
        let c = line.get_char(i);
        proof {
            assert(line@.subrange(i as int, n as int)[0] == line@[i as int]);
            assert(line@.subrange(i as int, n as int).drop_first() =~= line@.subrange(
                i + 1,
                n as int,
            ));
        }
        if c == '*' {
            push_char(&mut out, '.');
            push_char(&mut out, '*');
        } else if c == '?' {
            push_char(&mut out, '.');
        } else {
            push_char(&mut out, c);
        }
        i += 1;
    }
    proof {
        assert(line@.subrange(n as int, n as int) =~= Seq::<char>::empty());
        assert(spec_glob_to_regex(Seq::<char>::empty()) =~= Seq::<char>::empty());
        assert(out@ =~= spec_glob_to_regex(line@));
    }
    out
}

/// A line the importers skip: blank, or a comment after trimming.
pub open spec fn spec_skipped_line(line: Seq<char>) -> bool {
    spec_trim(line).len() == 0 || spec_trim(line)[0] == '#'
}

/// The regex specifications a gitignore-style text yields, in line order.
pub open spec fn spec_gitignore_specs(lines: Seq<Seq<char>>, i: int) -> Seq<Seq<char>>
    decreases lines.len() - i,
{
    if i < 0 || i >= lines.len() {
        Seq::empty()
    } else if spec_skipped_line(lines[i]) {
        spec_gitignore_specs(lines, i + 1)
    } else {
        seq![spec_glob_to_regex(spec_trim(lines[i]))] + spec_gitignore_specs(lines, i + 1)
    }
}


/// One rule read from an import text: the file it attaches to, the kind
/// name, and the rule text.
pub open spec fn spec_custom_entries(
    lines: Seq<Seq<char>>,
    i: int,
    current: Seq<char>,
) -> Seq<(Seq<char>, Seq<char>, Seq<char>)>
    decreases lines.len() - i,
{
    if i < 0 || i >= lines.len() {
        Seq::empty()
    } else {
        let t = spec_trim(lines[i]);
        if t.len() == 0 || t[0] == '#' {
            spec_custom_entries(lines, i + 1, current)
        } else if t.len() >= 2 && t[0] == '[' && t.last() == ']' {
            spec_custom_entries(lines, i + 1, t.subrange(1, t.len() - 1))
        } else if current.len() == 0 {
            spec_custom_entries(lines, i + 1, current)
        } else {
            let c = crate::strutil::find_sub(t, seq![':']);
            if c == -1 {
                spec_custom_entries(lines, i + 1, current)
            } else {
                seq![(current, t.subrange(0, c), t.subrange(c + 1, t.len() as int))]
                    + spec_custom_entries(lines, i + 1, current)
            }
        }
    }
}

/// The rules a whole custom-format text yields.
pub open spec fn spec_custom_entries_of(content: Seq<char>) -> Seq<(Seq<char>, Seq<char>, Seq<char>)> {
    spec_custom_entries(spec_lines(content), 0, Seq::empty())
}

/// Every read rule names one of the four kinds.
pub open spec fn entries_kinds_ok(entries: Seq<(Seq<char>, Seq<char>, Seq<char>)>) -> bool {
    forall|k: int| 0 <= k < entries.len() ==> spec_kind_of((#[trigger] entries[k]).1) is Some
}

/// Whether some read rule attaches to the path.
pub open spec fn entries_mention(
    entries: Seq<(Seq<char>, Seq<char>, Seq<char>)>,
    p: Seq<char>,
) -> bool {
    exists|k: int| 0 <= k < entries.len() && (#[trigger] entries[k]).0 == p
}

/// What an import determines of a pattern: its kind and its rule text.
pub open spec fn spec_pattern_shapes(ps: Seq<IgnorePattern>) -> Seq<(PatternType, Seq<char>)> {
    ps.map_values(|p: IgnorePattern| (p.pattern_type, p.specification@))
}

/// The kind/text pairs the read rules give one path, in reading order.
pub open spec fn spec_entries_for(
    entries: Seq<(Seq<char>, Seq<char>, Seq<char>)>,
    p: Seq<char>,
) -> Seq<(PatternType, Seq<char>)>
    decreases entries.len(),
{
    if entries.len() == 0 {
        Seq::empty()
    } else {
        let head: Seq<(PatternType, Seq<char>)> = if entries[0].0 == p {
            seq![(spec_kind_of(entries[0].1)->Some_0, entries[0].2)]
        } else {
            Seq::empty()
        };
        head + spec_entries_for(entries.drop_first(), p)
    }
}

/// What a correct custom import looks like: the result maps exactly the
/// mentioned paths, each to patterns whose kinds and texts are the read
/// rules for that path, in order.
pub open spec fn custom_import_ok(
    m: Map<Seq<char>, Seq<IgnorePattern>>,
    entries: Seq<(Seq<char>, Seq<char>, Seq<char>)>,
) -> bool {
    &&& forall|p: Seq<char>| #[trigger] m.contains_key(p) <==> entries_mention(entries, p)
    &&& forall|p: Seq<char>|
        #[trigger] m.contains_key(p) ==> spec_pattern_shapes(m[p]) == spec_entries_for(entries, p)
}

proof fn lemma_entries_for_push(
    entries: Seq<(Seq<char>, Seq<char>, Seq<char>)>,
    e: (Seq<char>, Seq<char>, Seq<char>),
    p: Seq<char>,
)
    ensures
        spec_entries_for(entries.push(e), p) == spec_entries_for(entries, p) + (if e.0 == p {
            seq![(spec_kind_of(e.1)->Some_0, e.2)]
        } else {
            Seq::empty()
        }),
    decreases entries.len(),
{
    if entries.len() == 0 {
        let pe = entries.push(e);
        assert(pe[0] == e);
        assert(pe.drop_first() =~= Seq::<(Seq<char>, Seq<char>, Seq<char>)>::empty());
        assert(spec_entries_for(pe.drop_first(), p) =~= Seq::<(PatternType, Seq<char>)>::empty());
        assert(spec_entries_for(entries, p) =~= Seq::<(PatternType, Seq<char>)>::empty());
        if e.0 == p {
            assert(spec_entries_for(pe, p) =~= spec_entries_for(entries, p) + seq![
                (spec_kind_of(e.1)->Some_0, e.2),
            ]);
        } else {
            assert(spec_entries_for(pe, p) =~= spec_entries_for(entries, p) + Seq::<
                (PatternType, Seq<char>),
            >::empty());
        }
    } else {
        lemma_entries_for_push(entries.drop_first(), e, p);
        assert(entries.push(e).drop_first() =~= entries.drop_first().push(e));
        assert(entries.push(e)[0] == entries[0]);
        assert(spec_entries_for(entries.push(e), p) =~= spec_entries_for(entries, p) + (if e.0
            == p {
            seq![(spec_kind_of(e.1)->Some_0, e.2)]
        } else {
            Seq::<(PatternType, Seq<char>)>::empty()
        }));
    }
}

/// A path no rule attaches to gets nothing.
pub proof fn lemma_entries_for_absent(entries: Seq<(Seq<char>, Seq<char>, Seq<char>)>, p: Seq<char>)
    requires
        !entries_mention(entries, p),
    ensures
        spec_entries_for(entries, p) == Seq::<(PatternType, Seq<char>)>::empty(),
    decreases entries.len(),
{
    if entries.len() > 0 {
        assert(entries[0].0 != p);
        assert(!entries_mention(entries.drop_first(), p)) by {
            if entries_mention(entries.drop_first(), p) {
                let w = choose|k: int|
                    0 <= k < entries.drop_first().len() && (#[trigger] entries.drop_first()[
                    k]).0 == p;
                assert(entries[w + 1].0 == p);
            }
        }
        lemma_entries_for_absent(entries.drop_first(), p);
        assert(spec_entries_for(entries, p) =~= Seq::<(PatternType, Seq<char>)>::empty());
    }
}

/// A one-character needle matches exactly at the positions holding it.
proof fn lemma_char_match(t: Seq<char>, c: char, k: int)
    ensures
        crate::strutil::match_at(t, seq![c], k) <==> (0 <= k < t.len() && t[k] == c),
{
    if 0 <= k && k + 1 <= t.len() {
        if t[k] == c {
            assert(t.subrange(k, k + 1) =~= seq![c]);
        } else {
            assert(t.subrange(k, k + 1)[0] == t[k]);
        }
    }
}

/// Reads patterns from an external source already loaded as text.
pub trait PatternImporter {
    /// Parses `content` according to `import_type` and returns the
    /// patterns grouped by the file they apply to. Gitignore-style input
    /// carries no file names, so those patterns all go to `target_file`.
    fn import_from_file(
        &mut self,
        content: &String,
        import_type: &String,
        target_file: &String,
    ) -> Result<FileMap, IgnoreError>;
}

/// The importer for file-based pattern sources.
pub struct FileImporter;

impl FileImporter {
    /// A fresh importer.
    pub fn new() -> (r: Self) {
        FileImporter
    }

    /// Parses gitignore-style text: every non-blank, non-comment line is a
    /// glob, converted to a regex pattern.
    pub fn parse_gitignore_style(&self, content: &str, _target_file: &str) -> (r: Result<
        Vec<IgnorePattern>,
        IgnoreError,
    >)
        ensures
            r is Ok,
            r matches Ok(ps) ==> {
                &&& ps@.map_values(|p: IgnorePattern| p.specification@) == spec_gitignore_specs(
                    spec_lines(content@),
                    0,
                )
                &&& forall|k: int|
                    0 <= k < ps@.len() ==> (#[trigger] ps@[k]).pattern_type
                        == PatternType::LineRegex
            },
    {
        let lines = split_lines(content);
        let ghost views = lines@.map_values(|x: String| x@);
        let mut patterns: Vec<IgnorePattern> = Vec::new();
        let mut i: usize = 0;
        proof {
            assert(patterns@.map_values(|p: IgnorePattern| p.specification@) =~= Seq::<
                Seq<char>,
            >::empty());
        }
        while i < lines.len()
            invariant
                0 <= i <= lines@.len(),
                views == lines@.map_values(|x: String| x@),
                spec_gitignore_specs(views, 0) == patterns@.map_values(
                    |p: IgnorePattern| p.specification@,
                ) + spec_gitignore_specs(views, i as int),
                forall|k: int|
                    0 <= k < patterns@.len() ==> (#[trigger] patterns@[k]).pattern_type
                        == PatternType::LineRegex,
            decreases lines@.len() - i,
        {
            let trimmed = trim_str(lines[i].as_str());
            proof {
                assert(views[i as int] == lines@[i as int]@);
            }
            let tn = trimmed.as_str().unicode_len();
            if tn == 0 || trimmed.as_str().get_char(0) == '#' {
                proof {
                    assert(spec_skipped_line(views[i as int]));
                }
            } else {
                let regex_pattern = glob_to_regex(trimmed.as_str());
                let p = match IgnorePattern::new(
                    String::from_str("line-regex"),
                    regex_pattern,
                ) {
                    Ok(p) => p,
                    Err(e) => {
                        proof {
                            assert(spec_kind_of("line-regex"@) is Some);
                        }
                        return Err(e);
                    },
                };
                patterns.push(p);
                proof {
                    assert(patterns@.map_values(|q: IgnorePattern| q.specification@)
                        =~= patterns@.subrange(0, patterns@.len() - 1).map_values(
                        |q: IgnorePattern| q.specification@,
                    ).push(spec_glob_to_regex(spec_trim(views[i as int]))));
                }
            }
            i += 1;
        }
        proof {
            assert(spec_gitignore_specs(views, views.len() as int) =~= Seq::<Seq<char>>::empty());
            assert(patterns@.map_values(|p: IgnorePattern| p.specification@)
                =~= spec_gitignore_specs(views, 0));
        }
        Ok(patterns)
    }
}

impl PatternImporter for FileImporter {
    /// Dispatches on the import format: gitignore-style patterns all
    /// attach to the caller's target file; the custom format names its
    /// own files.
    fn import_from_file(
        &mut self,
        content: &String,
        import_type: &String,
        target_file: &String,
    ) -> (r: Result<FileMap, IgnoreError>)
        ensures
            r is Ok <==> (import_type@ == "gitignore"@ || entries_kinds_ok(
                spec_custom_entries_of(content@),
            )),
            r matches Err(e) ==> e is ValidationError,
            r matches Ok(m) ==> (import_type@ == "gitignore"@ ==> m.wf() && (forall|
                p: Seq<char>,
            |
                #[trigger] m@.contains_key(p) <==> p == target_file@) && spec_pattern_shapes(
                m@[target_file@],
            ) == spec_gitignore_specs(spec_lines(content@), 0).map_values(
                |s: Seq<char>| (PatternType::LineRegex, s),
            )),
            r matches Ok(m) ==> (import_type@ != "gitignore"@ ==> m.wf() && custom_import_ok(
                m@,
                spec_custom_entries_of(content@),
            )),
    {
        if str_eq(import_type.as_str(), "gitignore") {
            let patterns = match self.parse_gitignore_style(
                content.as_str(),
                target_file.as_str(),
            ) {
                Ok(ps) => ps,
                Err(e) => {
                    return Err(e);
                },
            };
            let ghost ps_view = patterns@;
            let mut result = FileMap::new();
            result.extend_at(target_file.as_str(), patterns);
            proof {
                assert(crate::config::map_patterns_at(
                    Map::<Seq<char>, Seq<IgnorePattern>>::empty(),
                    target_file@,
                ) + ps_view =~= ps_view);
                assert forall|p: Seq<char>| #[trigger] result@.contains_key(p) <==> p
                    == target_file@ by {}
                assert(result@[target_file@] == ps_view);
                assert(spec_pattern_shapes(ps_view) =~= spec_gitignore_specs(
                    spec_lines(content@),
                    0,
                ).map_values(|s: Seq<char>| (PatternType::LineRegex, s)));
            }
            Ok(result)
        } else {
            self.parse_custom_format(content.as_str())
        }
    }
}

impl FileImporter {
    /// Parses the sectioned custom format: `[file]` headers pick the file
    /// the following `kind:specification` lines attach to; lines before
    /// any header, blanks, comments and colon-less lines are skipped.
    /// Fails on the first unknown pattern-kind name.
    pub fn parse_custom_format(&self, content: &str) -> (r: Result<FileMap, IgnoreError>)
        ensures
            r is Ok <==> entries_kinds_ok(spec_custom_entries_of(content@)),
            r matches Ok(m) ==> m.wf() && custom_import_ok(m@, spec_custom_entries_of(content@)),
            r matches Err(e) ==> e is ValidationError,
    {
        let lines = split_lines(content);
        let ghost views = lines@.map_values(|x: String| x@);
        let ghost all_entries = spec_custom_entries_of(content@);
        let mut result = FileMap::new();
        let mut current_file = String::new();
        let ghost mut done: Seq<(Seq<char>, Seq<char>, Seq<char>)> = Seq::empty();
        let mut i: usize = 0;
        proof {
            assert(all_entries == done + spec_custom_entries(views, 0, Seq::empty()));
        }
        while i < lines.len()
            invariant
                0 <= i <= lines@.len(),
                views == lines@.map_values(|x: String| x@),
                views == spec_lines(content@),
                result.wf(),
                all_entries == spec_custom_entries_of(content@),
                all_entries == done + spec_custom_entries(
                    views,
                    i as int,
                    current_file@,
                ),
                entries_kinds_ok(done),
                custom_import_ok(result@, done),
            decreases lines@.len() - i,
        {
            let trimmed = trim_str(lines[i].as_str());
            proof {
                assert(views[i as int] == lines@[i as int]@);
                assert(trimmed@ == spec_trim(views[i as int]));
            }
            let tn = trimmed.as_str().unicode_len();
            if tn == 0 || trimmed.as_str().get_char(0) == '#' {
            } else if tn >= 2 && trimmed.as_str().get_char(0) == '[' && trimmed.as_str().get_char(
                tn - 1,
            ) == ']' {
                let inner = trimmed.as_str().substring_char(1, tn - 1);
                proof {
                    assert(inner@ =~= trimmed@.subrange(1, trimmed@.len() - 1));
                }
                current_file = String::from_str(inner);
            } else if current_file.as_str().unicode_len() > 0 {
                // split at the first colon into a kind name and the rest
                let mut colon: usize = 0;
                while colon < tn && trimmed.as_str().get_char(colon) != ':'
                    invariant
                        0 <= colon <= tn,
                        tn == trimmed@.len(),
                        forall|k: int| 0 <= k < colon ==> trimmed@[k] != ':',
                    decreases tn - colon,
                {
                    colon += 1;
                }
                proof {
                    assert forall|k: int|
                        0 <= k < colon implies !crate::strutil::match_at(
                        trimmed@,
                        seq![':'],
                        k,
                    ) by {
                        lemma_char_match(trimmed@, ':', k);
                    }
                    if colon < tn {
                        lemma_char_match(trimmed@, ':', colon as int);
                        crate::strutil::lemma_find_sub_value(trimmed@, seq![':'], colon as int);
                    } else {
                        assert forall|k: int|
                            0 <= k && k + seq![':'].len() <= trimmed@.len()
                                implies #[trigger] trimmed@.subrange(k, k + seq![':'].len())
                            != seq![':'] by {
                            lemma_char_match(trimmed@, ':', k);
                        }
                        crate::strutil::lemma_find_sub_none(trimmed@, seq![':']);
                    }
                }
                if colon < tn {
                    let kind_text = trimmed.as_str().substring_char(0, colon);
                    let spec_text = trimmed.as_str().substring_char(colon + 1, tn);
                    let ghost entry = (
                        current_file@,
                        trimmed@.subrange(0, colon as int),
                        trimmed@.subrange(colon as int + 1, trimmed@.len() as int),
                    );
                    let pattern = match IgnorePattern::new(
                        String::from_str(kind_text),
                        String::from_str(spec_text),
                    ) {
                        Ok(p) => p,
                        Err(e) => {
                            proof {
                                assert(spec_kind_of(entry.1) is None);
                                assert(all_entries[done.len() as int] == entry);
                                assert(!entries_kinds_ok(all_entries));
                            }
                            return Err(e);
                        },
                    };
                    let ghost pre_map = result@;
                    result.push_pattern(current_file.as_str(), pattern);
                    proof {
                        let dt = done;
                        lemma_entries_for_push(dt, entry, current_file@);
                        assert(all_entries == dt.push(entry) + spec_custom_entries(
                            views,
                            i + 1,
                            current_file@,
                        )) by {
                            assert(dt + spec_custom_entries(views, i as int, current_file@)
                                =~= dt.push(entry) + spec_custom_entries(
                                views,
                                i + 1,
                                current_file@,
                            ));
                        }
                        assert forall|p: Seq<char>| #[trigger] result@.contains_key(p)
                            <==> entries_mention(dt.push(entry), p) by {
                            if p == current_file@ {
                                assert(dt.push(entry)[dt.len() as int].0 == p);
                            } else {
                                if entries_mention(dt, p) {
                                    let w = choose|k: int|
                                        0 <= k < dt.len() && (#[trigger] dt[k]).0 == p;
                                    assert(dt.push(entry)[w].0 == p);
                                }
                                if entries_mention(dt.push(entry), p) {
                                    let w = choose|k: int|
                                        0 <= k < dt.push(entry).len() && (#[trigger] dt.push(
                                            entry,
                                        )[k]).0 == p;
                                    assert(w < dt.len());
                                    assert(dt[w].0 == p);
                                }
                            }
                        }
                        assert forall|p: Seq<char>| #[trigger] result@.contains_key(p) implies
                            spec_pattern_shapes(result@[p]) == spec_entries_for(
                            dt.push(entry),
                            p,
                        ) by {
                            lemma_entries_for_push(dt, entry, p);
                            if p == current_file@ {
                                let at = crate::config::map_patterns_at(pre_map, p);
                                assert(result@[p] == at.push(pattern));
                                assert(spec_pattern_shapes(at.push(pattern))
                                    =~= spec_pattern_shapes(at).push(
                                    (pattern.pattern_type, pattern.specification@),
                                ));
                                if pre_map.contains_key(p) {
                                    assert(spec_pattern_shapes(at) == spec_entries_for(dt, p));
                                } else {
                                    assert(!entries_mention(dt, p));
                                    lemma_entries_for_absent(dt, p);
                                    assert(spec_pattern_shapes(at) =~= Seq::<
                                        (PatternType, Seq<char>),
                                    >::empty());
                                }
                                assert(spec_pattern_shapes(result@[p]) =~= spec_entries_for(
                                    dt.push(entry),
                                    p,
                                ));
                            } else {
                                assert(result@[p] == pre_map[p]);
                            }
                        }
                        assert(entries_kinds_ok(dt.push(entry))) by {
                            assert forall|k: int|
                                0 <= k < dt.push(entry).len() implies spec_kind_of(
                                (#[trigger] dt.push(entry)[k]).1,
                            ) is Some by {
                                if k < dt.len() {
                                    assert(dt.push(entry)[k] == dt[k]);
                                } else {
                                    assert(dt.push(entry)[k] == entry);
                                }
                            }
                        }
                        done = dt.push(entry);
                    }
                }
            }
            i += 1;
        }
        proof {
            assert(spec_custom_entries(views, lines@.len() as int, current_file@) =~= Seq::<
                (Seq<char>, Seq<char>, Seq<char>),
            >::empty());
            assert(all_entries =~= done);
        }
        Ok(result)
    }
}

} // verus!
