//! The pattern sublanguage: the kinds of rule a file can carry, their
//! validation, and their matching against lines and whole contents.

use vstd::prelude::*;

verus! {

use crate::error::IgnoreError;
use crate::strutil::{
    contains_sub, spec_split_sub, spec_parse_usize, spec_trim, spec_lines, split_substr,
    split_lines, trim_str, parse_usize, str_eq, contains_substr,
};
use vstd::string::StringExecFns;

#[verifier::external_type_specification]
#[verifier::external_body]
pub struct ExRegex(regex::Regex);

/// Whether a pattern text is valid regular-expression syntax; names what
/// `regex::Regex::new` accepts.
pub uninterp spec fn regex_valid(pattern: Seq<char>) -> bool;

/// The pattern text a compiled regular expression was built from.
pub uninterp spec fn regex_source(re: regex::Regex) -> Seq<char>;

/// Whether a regular expression matches somewhere in a text; names what
/// `regex::Regex::is_match` returns.
pub uninterp spec fn regex_match(pattern: Seq<char>, text: Seq<char>) -> bool;

/// The pattern text with every regex metacharacter escaped; names what
/// `regex::escape` returns.
pub uninterp spec fn regex_escaped(s: Seq<char>) -> Seq<char>;

/// Relies on regex::Regex::new: compiling succeeds exactly when the pattern
/// text is valid regex syntax, and the compiled value holds that text.
#[verifier::external_body]
fn regex_compile(pattern: &str) -> (r: Option<regex::Regex>)
    ensures
        r is Some <==> regex_valid(pattern@),
        r matches Some(re) ==> regex_source(re) == pattern@,
{
    regex::Regex::new(pattern).ok()
}

/// Relies on regex::Regex::is_match: the answer is a function of the
/// compiled pattern and the text alone.
pub assume_specification[ regex::Regex::is_match ](re: &regex::Regex, haystack: &str) -> (r: bool)
    ensures
        r == regex_match(regex_source(*re), haystack@),
;

/// Relies on regex::escape: the escaped form is a function of the text alone.
pub assume_specification[ regex::escape ](text: &str) -> (r: String)
    ensures
        r@ == regex_escaped(text@),
;

/// Relies on uuid::Uuid::new_v4 for a fresh random identifier, rendered in
/// its canonical hyphenated text form; nothing is assumed of its value.
#[verifier::external_body]
pub fn fresh_pattern_id() -> (r: String) {
    uuid::Uuid::new_v4().to_string()
}

/// The kinds of ignore rule. The set is closed: every pattern is one of
/// these, and each interprets the specification text its own way.
#[derive(Debug, Clone, Copy, PartialEq, Eq, Structural)]
pub enum PatternType {
    /// A regular expression (between `/` delimiters), or a bare identifier
    /// that stands for "this identifier is assigned a quoted value".
    LineRegex,
    /// A single 1-based line number.
    LineNumber,
    /// A literal start text and end text separated by `|||`, marking whole
    /// blocks of lines.
    BlockStartEnd,
    /// An inclusive 1-based line range written `start-end`.
    LineRange,
}

/// One ignore rule: a kind, the raw specification text, and a stable
/// identifier assigned at creation.
#[derive(Debug)]
pub struct IgnorePattern {
    /// Unique identifier, assigned once and stable for the pattern's life.
    pub id: String,
    /// How `specification` is interpreted.
    pub pattern_type: PatternType,
    /// The raw rule text.
    pub specification: String,
    /// The cached rule text for the kinds that are matched textually.
    pub compiled_regex: Option<String>,
}

impl Clone for IgnorePattern {
    fn clone(&self) -> (r: Self)
        ensures
            r == *self,
    {
        IgnorePattern {
            id: self.id.clone(),
            pattern_type: self.pattern_type,
            specification: self.specification.clone(),
            compiled_regex: match &self.compiled_regex {
                Option::Some(s) => Option::Some(s.clone()),
                Option::None => Option::None,
            },
        }
    }
}

/// The kind a wire name denotes, if any.
pub open spec fn spec_kind_of(s: Seq<char>) -> Option<PatternType> {
    if s == "line-regex"@ {
        Some(PatternType::LineRegex)
    } else if s == "line-number"@ {
        Some(PatternType::LineNumber)
    } else if s == "block-start-end"@ {
        Some(PatternType::BlockStartEnd)
    } else if s == "line-range"@ {
        Some(PatternType::LineRange)
    } else {
        None
    }
}

/// Whether a kind caches its specification text.
pub open spec fn spec_kind_caches_text(t: PatternType) -> bool {
    t == PatternType::LineRegex || t == PatternType::BlockStartEnd
}

/// True of a specification written `/inner/`.
pub open spec fn spec_is_delimited(s: Seq<char>) -> bool {
    s.len() >= 2 && s[0] == '/' && s.last() == '/'
}

/// The regex suffix that asks for `= "value"` or `= 'value'` after an
/// identifier.
pub open spec fn assignment_suffix() -> Seq<char> {
    "\\s*=\\s*(?:\"[^\"]+\"|'[^']+')"@
}

/// The regex a `LineRegex` specification is matched with: the inner text of
/// a delimited `/regex/`, or the word-boundary assignment form built from a
/// bare identifier.
pub open spec fn spec_line_regex_src(s: Seq<char>) -> Seq<char> {
    if spec_is_delimited(s) {
        s.subrange(1, s.len() - 1)
    } else {
        "\\b"@ + regex_escaped(s) + assignment_suffix()
    }
}

/// The regex a bare `LineRegex` identifier is validated with.
pub open spec fn spec_word_check_src(s: Seq<char>) -> Seq<char> {
    "\\b"@ + regex_escaped(s) + "\\b"@
}

/// The two pieces of a `start-end` line-range specification.
pub open spec fn spec_range_parts(s: Seq<char>) -> Seq<Seq<char>> {
    spec_split_sub(s, seq!['-'])
}

/// The two pieces of a `START|||END` block specification.
pub open spec fn spec_block_parts(s: Seq<char>) -> Seq<Seq<char>> {
    spec_split_sub(s, seq!['|', '|', '|'])
}

/// The message `validate` reports for a malformed specification.
pub open spec fn spec_invalid_msg(p: IgnorePattern) -> Seq<char> {
    match p.pattern_type {
        PatternType::LineRegex => if spec_is_delimited(p.specification@) {
            "invalid regex pattern"@
        } else {
            "invalid word pattern"@
        },
        PatternType::LineNumber => "line number must be a valid integer"@,
        PatternType::LineRange => {
            let parts = spec_range_parts(p.specification@);
            if parts.len() != 2 {
                "line range must be in format 'start-end'"@
            } else if spec_parse_usize(parts[0]) is None {
                "invalid start line"@
            } else {
                "invalid end line"@
            }
        },
        PatternType::BlockStartEnd => {
            let parts = spec_block_parts(p.specification@);
            if parts.len() != 2 {
                "block pattern must be in format 'start_pattern|||end_pattern'"@
            } else {
                "start and end patterns cannot be empty"@
            }
        },
    }
}

/// When a pattern's specification is well formed for its kind.
pub open spec fn spec_pattern_valid(p: IgnorePattern) -> bool {
    match p.pattern_type {
        PatternType::LineRegex => if spec_is_delimited(p.specification@) {
            regex_valid(spec_line_regex_src(p.specification@))
        } else {
            regex_valid(spec_word_check_src(p.specification@))
        },
        PatternType::LineNumber => spec_parse_usize(p.specification@) is Some,
        PatternType::LineRange => {
            let parts = spec_range_parts(p.specification@);
            parts.len() == 2 && spec_parse_usize(parts[0]) is Some && spec_parse_usize(
                parts[1],
            ) is Some
        },
        PatternType::BlockStartEnd => {
            let parts = spec_block_parts(p.specification@);
            parts.len() == 2 && spec_trim(parts[0]).len() > 0 && spec_trim(parts[1]).len() > 0
        },
    }
}

impl IgnorePattern {
    /// Builds a pattern from a wire kind name and a specification text,
    /// assigning it a fresh identifier. Rejects unknown kind names; the
    /// specification itself is checked separately by `validate`.
    pub fn new(pattern_type: String, specification: String) -> (r: Result<Self, IgnoreError>)
        ensures
            r is Ok <==> spec_kind_of(pattern_type@) is Some,
            r matches Err(e) ==> e is ValidationError,
            r matches Ok(p) ==> {
                &&& Some(p.pattern_type) == spec_kind_of(pattern_type@)
                &&& p.specification@ == specification@
                &&& if spec_kind_caches_text(p.pattern_type) {
                    p.compiled_regex matches Some(c) && c@ == specification@
                } else {
                    p.compiled_regex is None
                }
            },
    {
        let kind: PatternType = if str_eq(pattern_type.as_str(), "line-regex") {
            PatternType::LineRegex
        } else if str_eq(pattern_type.as_str(), "line-number") {
            PatternType::LineNumber
        } else if str_eq(pattern_type.as_str(), "block-start-end") {
            PatternType::BlockStartEnd
        } else if str_eq(pattern_type.as_str(), "line-range") {
            PatternType::LineRange
        } else {
            let mut msg = String::from_str("invalid pattern type: ");
            msg.append(pattern_type.as_str());
            return Err(IgnoreError::ValidationError(msg));
        };
        let compiled_regex: Option<String> = match kind {
            PatternType::LineRegex => Some(specification.clone()),
            PatternType::BlockStartEnd => Some(specification.clone()),
            _ => None,
        };
        Ok(IgnorePattern { id: fresh_pattern_id(), pattern_type: kind, specification, compiled_regex })
    }

    /// The regex text a `LineRegex` pattern is matched with: the raw inner
    /// regex when the specification is `/delimited/`, else the assignment
    /// form asking for `identifier = "quoted"`.
    pub fn create_line_regex_pattern(&self) -> (r: String)
        ensures
            r@ == spec_line_regex_src(self.specification@),
    {
        if self.is_delimited_spec() {
            let n = self.specification.as_str().unicode_len();
            let inner = self.specification.as_str().substring_char(1, n - 1);
            String::from_str(inner)
        } else {
            let escaped = regex::escape(self.specification.as_str());
            let mut built = String::from_str("\\b");
            built.append(escaped.as_str());
            built.append("\\s*=\\s*(?:\"[^\"]+\"|'[^']+')");
            built
        }
    }

    /// Whether the specification is written `/regex/`.
    fn is_delimited_spec(&self) -> (r: bool)
        ensures
            r == spec_is_delimited(self.specification@),
    {
        let s = self.specification.as_str();
        let n = s.unicode_len();
        n >= 2 && s.get_char(0) == '/' && s.get_char(n - 1) == '/'
    }

    /// Checks the specification against its kind: the regex must compile,
    /// line numbers and ranges must be numbers, and block delimiters must
    /// be non-empty. Returns exactly one error for a malformed pattern.
    pub fn validate(&self) -> (r: Result<(), IgnoreError>)
        ensures
            r is Ok <==> spec_pattern_valid(*self),
            r matches Err(e) ==> (e matches IgnoreError::ValidationError(m) && m@
                == spec_invalid_msg(*self)),
    {
        match self.pattern_type {
            PatternType::LineRegex => {
                if self.is_delimited_spec() {
                    let n = self.specification.as_str().unicode_len();
                    let inner = self.specification.as_str().substring_char(1, n - 1);
                    proof {
                        assert(inner@ =~= spec_line_regex_src(self.specification@));
                    }
                    match regex_compile(inner) {
                        Some(_) => Ok(()),
                        None => Err(
                            IgnoreError::ValidationError(
                                String::from_str("invalid regex pattern"),
                            ),
                        ),
                    }
                } else {
                    let escaped = regex::escape(self.specification.as_str());
                    let mut built = String::from_str("\\b");
                    built.append(escaped.as_str());
                    built.append("\\b");
                    match regex_compile(built.as_str()) {
                        Some(_) => Ok(()),
                        None => Err(
                            IgnoreError::ValidationError(String::from_str("invalid word pattern")),
                        ),
                    }
                }
            },
            PatternType::LineNumber => {
                match parse_usize(self.specification.as_str()) {
                    Some(_) => Ok(()),
                    None => Err(
                        IgnoreError::ValidationError(
                            String::from_str("line number must be a valid integer"),
                        ),
                    ),
                }
            },
            PatternType::LineRange => {
                proof {
                    reveal_strlit("-");
                    assert("-"@ =~= seq!['-']);
                }
                let parts = split_substr(self.specification.as_str(), "-");
                if parts.len() != 2 {
                    return Err(
                        IgnoreError::ValidationError(
                            String::from_str("line range must be in format 'start-end'"),
                        ),
                    );
                }
                if parse_usize(parts[0].as_str()).is_none() {
                    return Err(IgnoreError::ValidationError(String::from_str("invalid start line")));
                }
                if parse_usize(parts[1].as_str()).is_none() {
                    return Err(IgnoreError::ValidationError(String::from_str("invalid end line")));
                }
                Ok(())
            },
            PatternType::BlockStartEnd => {
                proof {
                    reveal_strlit("|||");
                    assert("|||"@ =~= seq!['|', '|', '|']);
                }
                let parts = split_substr(self.specification.as_str(), "|||");
                if parts.len() != 2 {
                    return Err(
                        IgnoreError::ValidationError(
                            String::from_str(
                                "block pattern must be in format 'start_pattern|||end_pattern'",
                            ),
                        ),
                    );
                }
                let start_trimmed = trim_str(parts[0].as_str());
                let end_trimmed = trim_str(parts[1].as_str());
                if start_trimmed.as_str().unicode_len() == 0 || end_trimmed.as_str().unicode_len()
                    == 0 {
                    return Err(
                        IgnoreError::ValidationError(
                            String::from_str("start and end patterns cannot be empty"),
                        ),
                    );
                }
                Ok(())
            },
        }
    }
}

/// True when some line at or after `from` contains the end text.
pub open spec fn has_end_from(ls: Seq<Seq<char>>, ep: Seq<char>, from: int) -> bool {
    exists|j: int| from <= j < ls.len() && #[trigger] contains_sub(ls[j], ep)
}

pub proof fn lemma_has_end_step(ls: Seq<Seq<char>>, ep: Seq<char>, j: int)
    requires
        0 <= j < ls.len(),
    ensures
        has_end_from(ls, ep, j) == (contains_sub(ls[j], ep) || has_end_from(ls, ep, j + 1)),
{
    if contains_sub(ls[j], ep) {
        assert(has_end_from(ls, ep, j));
    }
    if has_end_from(ls, ep, j + 1) {
        let w = choose|k: int| j + 1 <= k < ls.len() && #[trigger] contains_sub(ls[k], ep);
        assert(contains_sub(ls[w], ep));
    }
    if has_end_from(ls, ep, j) && !contains_sub(ls[j], ep) {
        let w = choose|k: int| j <= k < ls.len() && #[trigger] contains_sub(ls[k], ep);
        assert(w >= j + 1);
    }
}

/// The blocks a start/end pair marks among the lines, scanning from line
/// `i` (0-based). Outside a block, a line containing the start text opens
/// one, but only when some later line holds the end text; inside a block,
/// the first line containing the end text closes it, and the scan resumes
/// after that line, so blocks never nest or overlap. The ranges produced
/// are 1-based and inclusive.
pub open spec fn spec_block_scan(
    ls: Seq<Seq<char>>,
    sp: Seq<char>,
    ep: Seq<char>,
    i: int,
    opened: Option<int>,
) -> Seq<(int, int)>
    decreases ls.len() - i,
{
    if i < 0 || i >= ls.len() {
        Seq::empty()
    } else {
        match opened {
            Option::None => {
                if contains_sub(ls[i], sp) && has_end_from(ls, ep, i + 1) {
                    spec_block_scan(ls, sp, ep, i + 1, Some(i))
                } else {
                    spec_block_scan(ls, sp, ep, i + 1, Option::None)
                }
            },
            Option::Some(s) => {
                if contains_sub(ls[i], ep) {
                    seq![(s + 1, i + 1)] + spec_block_scan(ls, sp, ep, i + 1, Option::None)
                } else {
                    spec_block_scan(ls, sp, ep, i + 1, Some(s))
                }
            },
        }
    }
}

/// The block ranges of a whole content for a block pattern with the given
/// trimmed start and end texts.
pub open spec fn spec_block_ranges(content: Seq<char>, sp: Seq<char>, ep: Seq<char>) -> Seq<
    (int, int),
> {
    spec_block_scan(spec_lines(content), sp, ep, 0, Option::None)
}

/// The ghost image of a running block-scan state.
pub open spec fn opt_int(o: Option<usize>) -> Option<int> {
    match o {
        Option::Some(v) => Option::Some(v as int),
        Option::None => Option::None,
    }
}

/// When per-line matching is well defined for a pattern: its specification
/// parses as its kind asks (block patterns match no single line, so they
/// are always well defined here).
pub open spec fn spec_line_match_ok(p: IgnorePattern) -> bool {
    match p.pattern_type {
        PatternType::LineRegex => regex_valid(spec_line_regex_src(p.specification@)),
        PatternType::LineNumber => spec_parse_usize(p.specification@) is Some,
        PatternType::LineRange => {
            let parts = spec_range_parts(p.specification@);
            parts.len() == 2 && spec_parse_usize(parts[0]) is Some && spec_parse_usize(
                parts[1],
            ) is Some
        },
        PatternType::BlockStartEnd => true,
    }
}

/// Whether a pattern matches one 1-based line.
pub open spec fn spec_line_match(p: IgnorePattern, line: Seq<char>, line_number: int) -> bool {
    match p.pattern_type {
        PatternType::LineRegex => regex_match(spec_line_regex_src(p.specification@), line),
        PatternType::LineNumber => line_number == spec_parse_usize(
            p.specification@,
        )->Some_0 as int,
        PatternType::LineRange => {
            let parts = spec_range_parts(p.specification@);
            spec_parse_usize(parts[0])->Some_0 as int <= line_number && line_number
                <= spec_parse_usize(parts[1])->Some_0 as int
        },
        PatternType::BlockStartEnd => false,
    }
}

/// When block discovery is well defined for a pattern: block patterns need
/// a two-part specification; other kinds mark no blocks and always succeed.
pub open spec fn spec_block_ok(p: IgnorePattern) -> bool {
    match p.pattern_type {
        PatternType::BlockStartEnd => spec_block_parts(p.specification@).len() == 2,
        _ => true,
    }
}

/// The blocks a pattern marks in a content: none for line-based kinds.
pub open spec fn spec_pattern_blocks(p: IgnorePattern, content: Seq<char>) -> Seq<(int, int)> {
    match p.pattern_type {
        PatternType::BlockStartEnd => {
            let parts = spec_block_parts(p.specification@);
            spec_block_ranges(content, spec_trim(parts[0]), spec_trim(parts[1]))
        },
        _ => Seq::empty(),
    }
}

/// Uniform matching interface over all pattern kinds: a per-line test for
/// the line-based kinds, and whole-content block discovery for block
/// patterns.
pub trait PatternMatcher {
    /// When `matches_line` succeeds for this matcher.
    spec fn line_match_ok(&self) -> bool;

    /// What `matches_line` answers.
    spec fn line_match_spec(&self, line: Seq<char>, line_number: int) -> bool;

    /// When `get_block_range` succeeds for this matcher.
    spec fn block_ok(&self) -> bool;

    /// What `get_block_range` answers.
    spec fn block_ranges_spec(&self, content: Seq<char>) -> Seq<(int, int)>;

    /// Tests one 1-based line against the pattern. Block patterns always
    /// answer false here: their logic lives in `get_block_range`.
    fn matches_line(&self, line: &str, line_number: usize) -> (r: Result<bool, IgnoreError>)
        ensures
            r is Ok <==> self.line_match_ok(),
            r matches Ok(b) ==> b == self.line_match_spec(line@, line_number as int),
            r matches Err(e) ==> e is ValidationError,
    ;

    /// Finds every block the pattern marks in the content, as 1-based
    /// inclusive line ranges. Non-block patterns yield no ranges.
    fn get_block_range(&self, content: &str) -> (r: Result<Vec<(usize, usize)>, IgnoreError>)
        ensures
            r is Ok <==> self.block_ok(),
            r matches Ok(v) ==> v@.map_values(|t: (usize, usize)| (t.0 as int, t.1 as int))
                == self.block_ranges_spec(content@),
            r matches Err(e) ==> e is ValidationError,
    ;
}

impl PatternMatcher for IgnorePattern {
    open spec fn line_match_ok(&self) -> bool {
        spec_line_match_ok(*self)
    }

    open spec fn line_match_spec(&self, line: Seq<char>, line_number: int) -> bool {
        spec_line_match(*self, line, line_number)
    }

    open spec fn block_ok(&self) -> bool {
        spec_block_ok(*self)
    }

    open spec fn block_ranges_spec(&self, content: Seq<char>) -> Seq<(int, int)> {
        spec_pattern_blocks(*self, content)
    }

    fn matches_line(&self, line: &str, line_number: usize) -> (r: Result<bool, IgnoreError>) {
        match self.pattern_type {
            PatternType::LineRegex => {
                let src = self.create_line_regex_pattern();
                match regex_compile(src.as_str()) {
                    Some(re) => Ok(re.is_match(line)),
                    None => Err(
                        IgnoreError::ValidationError(String::from_str("invalid regex pattern")),
                    ),
                }
            },
            PatternType::LineNumber => {
                match parse_usize(self.specification.as_str()) {
                    Some(target) => Ok(line_number == target),
                    None => Err(
                        IgnoreError::ValidationError(
                            String::from_str("line number must be a valid integer"),
                        ),
                    ),
                }
            },
            PatternType::LineRange => {
                proof {
                    reveal_strlit("-");
                    assert("-"@ =~= seq!['-']);
                }
                let parts = split_substr(self.specification.as_str(), "-");
                if parts.len() != 2 {
                    return Err(
                        IgnoreError::ValidationError(
                            String::from_str("line range must be in format 'start-end'"),
                        ),
                    );
                }
                let start = match parse_usize(parts[0].as_str()) {
                    Some(v) => v,
                    None => {
                        return Err(
                            IgnoreError::ValidationError(String::from_str("invalid start line")),
                        );
                    },
                };
                let end = match parse_usize(parts[1].as_str()) {
                    Some(v) => v,
                    None => {
                        return Err(
                            IgnoreError::ValidationError(String::from_str("invalid end line")),
                        );
                    },
                };
                Ok(start <= line_number && line_number <= end)
            },
            PatternType::BlockStartEnd => Ok(false),
        }
    }

    fn get_block_range(&self, content: &str) -> (r: Result<Vec<(usize, usize)>, IgnoreError>) {
        match self.pattern_type {
            PatternType::BlockStartEnd => {},
            _ => {
                let v: Vec<(usize, usize)> = Vec::new();
                proof {
                    assert(v@.map_values(|t: (usize, usize)| (t.0 as int, t.1 as int))
                        =~= spec_pattern_blocks(*self, content@));
                }
                return Ok(v);
            },
        }
        proof {
            reveal_strlit("|||");
            assert("|||"@ =~= seq!['|', '|', '|']);
        }
        let parts = split_substr(self.specification.as_str(), "|||");
        if parts.len() != 2 {
            return Err(
                IgnoreError::ValidationError(
                    String::from_str("block pattern must have start and end separated by |||"),
                ),
            );
        }
        let sp = trim_str(parts[0].as_str());
        let ep = trim_str(parts[1].as_str());
        let lines = split_lines(content);
        let n = lines.len();
        let ghost views = lines@.map_values(|x: String| x@);
        // suffix flags: rev[k] says whether some line at or after n - k
        // holds the end text
        let mut rev: Vec<bool> = Vec::new();
        rev.push(false);
        let mut j: usize = n;
        while j > 0
            invariant
                0 <= j <= n,
                n == views.len(),
                n == lines@.len(),
                views == lines@.map_values(|x: String| x@),
                rev@.len() == n - j + 1,
                forall|k: int| 0 <= k < rev@.len() ==> rev@[k] == has_end_from(views, ep@, n - k),
            decreases j,
        {
            j -= 1;
            let h = contains_substr(lines[j].as_str(), ep.as_str()) || rev[n - j - 1];
            proof {
                lemma_has_end_step(views, ep@, j as int);
            }
            rev.push(h);
        }
        let mut ranges: Vec<(usize, usize)> = Vec::new();
        let mut blk_open: Option<usize> = None;
        let mut i: usize = 0;
        proof {
            assert(ranges@.map_values(|t: (usize, usize)| (t.0 as int, t.1 as int))
                =~= Seq::<(int, int)>::empty());
        }
        while i < n
            invariant
                0 <= i <= n,
                n == views.len(),
                n == lines@.len(),
                views == lines@.map_values(|x: String| x@),
                rev@.len() == n + 1,
                forall|k: int| 0 <= k < rev@.len() ==> rev@[k] == has_end_from(views, ep@, n - k),
                blk_open matches Some(s) ==> s < i,
                spec_block_scan(views, sp@, ep@, 0, Option::None) == ranges@.map_values(
                    |t: (usize, usize)| (t.0 as int, t.1 as int),
                ) + spec_block_scan(views, sp@, ep@, i as int, opt_int(blk_open)),
            decreases n - i,
        {
            let ghost old_ranges = ranges@;
            let ghost old_open = blk_open;
            match blk_open {
                None => {
                    if contains_substr(lines[i].as_str(), sp.as_str()) && rev[n - (i + 1)] {
                        blk_open = Some(i);
                    }
                },
                Some(s) => {
                    if contains_substr(lines[i].as_str(), ep.as_str()) {
                        ranges.push((s + 1, i + 1));
                        blk_open = None;
                    }
                },
            }
            proof {
                let mapped = |t: (usize, usize)| (t.0 as int, t.1 as int);
                if old_open is Some && blk_open is None {
                    assert(ranges@.map_values(mapped) =~= old_ranges.map_values(mapped).push(
                        ((old_open->Some_0 + 1) as int, i + 1 as int),
                    ));
                    assert(old_ranges.map_values(mapped).push(
                        ((old_open->Some_0 + 1) as int, i + 1 as int),
                    ) + spec_block_scan(views, sp@, ep@, i + 1, Option::None) =~= old_ranges
                        .map_values(mapped) + (seq![((old_open->Some_0 + 1) as int, i + 1 as int)]
                        + spec_block_scan(views, sp@, ep@, i + 1, Option::None)));
                }
            }
            i += 1;
        }
        proof {
            assert(spec_block_scan(views, sp@, ep@, n as int, opt_int(blk_open))
                =~= Seq::<(int, int)>::empty());
            assert(spec_block_scan(views, sp@, ep@, 0, Option::None) =~= ranges@.map_values(
                |t: (usize, usize)| (t.0 as int, t.1 as int),
            ));
        }
        Ok(ranges)
    }
}

} // verus!
