//! The content transformer: decides which lines a pattern list ignores,
//! removes them, collapses the blank runs the removal leaves behind, and
//! keeps the trailing-newline convention of the input.

use vstd::prelude::*;

verus! {

use crate::error::IgnoreError;
use crate::pattern::{
    IgnorePattern, PatternType, PatternMatcher, spec_line_match, spec_line_match_ok, spec_block_ok,
    spec_pattern_blocks,
};
use crate::strutil::{spec_lines, spec_join, spec_blank, split_lines, join_lines, is_blank_line};
use vstd::pervasive::VecAdditionalExecFns;
use vstd::string::StrSliceExecFns;

/// The transient map from 0-based line index to the original text of an
/// ignored line, kept in ascending index order.
pub struct LineMap {
    /// Index/text pairs, ascending by index.
    pub entries: Vec<(usize, String)>,
}

/// The mathematical map an entry sequence denotes.
pub open spec fn entries_map(s: Seq<(usize, String)>) -> Map<int, Seq<char>>
    decreases s.len(),
{
    if s.len() == 0 {
        Map::empty()
    } else {
        entries_map(s.drop_last()).insert(s.last().0 as int, s.last().1@)
    }
}

impl View for LineMap {
    type V = Map<int, Seq<char>>;

    open spec fn view(&self) -> Map<int, Seq<char>> {
        entries_map(self.entries@)
    }
}

impl LineMap {
    /// Entries are sorted by strictly increasing line index.
    pub open spec fn wf(&self) -> bool {
        forall|i: int, j: int|
            0 <= i < j < self.entries@.len() ==> (#[trigger] self.entries@[i]).0 < (
            #[trigger] self.entries@[j]).0
    }

    /// An empty map.
    pub fn new() -> (r: Self)
        ensures
            r@ == Map::<int, Seq<char>>::empty(),
            r.wf(),
            r.entries@.len() == 0,
    {
        let r = LineMap { entries: Vec::new() };
        proof {
            assert(r@ =~= Map::<int, Seq<char>>::empty());
        }
        r
    }

    /// Number of ignored lines recorded.
    pub fn len(&self) -> (r: usize)
        ensures
            r == self.entries@.len(),
    {
        self.entries.len()
    }

    /// Whether no line is recorded.
    pub fn is_empty(&self) -> (r: bool)
        ensures
            r == (self.entries@.len() == 0),
            r == (self@ == Map::<int, Seq<char>>::empty()),
    {
        proof {
            if self.entries@.len() == 0 {
                assert(self@ =~= Map::<int, Seq<char>>::empty());
            } else {
                assert(self@.contains_key(self.entries@.last().0 as int));
            }
        }
        self.entries.len() == 0
    }

    /// Records a line past every index recorded so far.
    pub fn push_entry(&mut self, index: usize, text: String)
        requires
            old(self).wf(),
            forall|i: int|
                0 <= i < old(self).entries@.len() ==> (#[trigger] old(self).entries@[i]).0 < index,
        ensures
            final(self).wf(),
            final(self)@ == old(self)@.insert(index as int, text@),
            final(self).entries@ == old(self).entries@.push((index, text)),
    {
        self.entries.push((index, text));
        proof {
            assert(self.entries@.drop_last() =~= old(self).entries@);
        }
    }

    /// The recorded original text of a line index, if that line was ignored.
    pub fn get(&self, index: usize) -> (r: Option<&String>)
        requires
            self.wf(),
        ensures
            r is Some <==> self@.contains_key(index as int),
            r matches Some(t) ==> self@.contains_key(index as int) && t@ == self@[index as int],
    {
        proof {
            lemma_entries_map_keys(self.entries@);
        }
        let n = self.entries.len();
        let mut i: usize = 0;
        while i < n
            invariant
                0 <= i <= n,
                n == self.entries@.len(),
                self.wf(),
                forall|k: int| 0 <= k < i ==> (#[trigger] self.entries@[k]).0 != index,
            decreases n - i,
        {
            if self.entries[i].0 == index {
                proof {
                    lemma_entries_map_at(self.entries@, i as int);
                }
                return Some(&self.entries[i].1);
            }
            i += 1;
        }
        None
    }
}

impl Clone for LineMap {
    fn clone(&self) -> (r: Self)
        ensures
            r.entries@ == self.entries@,
            r@ == self@,
            r.wf() <==> self.wf(),
    {
        let mut entries: Vec<(usize, String)> = Vec::new();
        let mut i: usize = 0;
        while i < self.entries.len()
            invariant
                0 <= i <= self.entries@.len(),
                entries@ =~= self.entries@.subrange(0, i as int),
            decreases self.entries@.len() - i,
        {
            let e = &self.entries[i];
            entries.push((e.0, e.1.clone()));
            proof {
                assert(entries@ =~= self.entries@.subrange(0, i + 1));
            }
            i += 1;
        }
        proof {
            assert(entries@ =~= self.entries@);
        }
        LineMap { entries }
    }
}

/// A key is in the map exactly when some entry carries it.
pub proof fn lemma_entries_map_keys(s: Seq<(usize, String)>)
    ensures
        forall|k: int|
            entries_map(s).contains_key(k) <==> exists|i: int|
                0 <= i < s.len() && (#[trigger] s[i]).0 == k,
    decreases s.len(),
{
    if s.len() > 0 {
        lemma_entries_map_keys(s.drop_last());
        assert forall|k: int|
            entries_map(s).contains_key(k) implies exists|i: int|
            0 <= i < s.len() && (#[trigger] s[i]).0 == k by {
            if k == s.last().0 as int {
                assert((s[s.len() - 1]).0 == k);
            } else {
                assert(entries_map(s.drop_last()).contains_key(k));
                assert(exists|i: int| 0 <= i < s.drop_last().len() && (#[trigger] s.drop_last()[i]).0 == k);
                let w = choose|i: int| 0 <= i < s.drop_last().len() && (#[trigger] s.drop_last()[i]).0 == k;
                assert(s.drop_last()[w] == s[w]);
                assert((s[w]).0 == k);
            }
        }
        assert forall|k: int|
            (exists|i: int| 0 <= i < s.len() && (#[trigger] s[i]).0 == k) implies entries_map(
            s,
        ).contains_key(k) by {
            let w = choose|i: int| 0 <= i < s.len() && (#[trigger] s[i]).0 == k;
            if w < s.len() - 1 {
                assert((s.drop_last()[w]).0 == k);
                assert(entries_map(s.drop_last()).contains_key(k));
            } else {
                assert(k == s.last().0 as int);
            }
        }
    }
}

/// With ascending entries, each entry's text is what the map holds at its key.
pub proof fn lemma_entries_map_at(s: Seq<(usize, String)>, i: int)
    requires
        0 <= i < s.len(),
        forall|a: int, b: int|
            0 <= a < b < s.len() ==> (#[trigger] s[a]).0 < (#[trigger] s[b]).0,
    ensures
        entries_map(s).contains_key(s[i].0 as int),
        entries_map(s)[s[i].0 as int] == s[i].1@,
    decreases s.len(),
{
    if i == s.len() - 1 {
    } else {
        assert(forall|a: int, b: int|
            0 <= a < b < s.drop_last().len() ==> (#[trigger] s.drop_last()[a]).0 < (
            #[trigger] s.drop_last()[b]).0);
        lemma_entries_map_at(s.drop_last(), i);
        assert(s.drop_last()[i] == s[i]);
        assert(s[i].0 < s.last().0);
    }
}

/// Whether one pattern marks the 0-based line `i` of `content` as ignored:
/// line-based kinds match the line itself; a block pattern covers every
/// line of one of its blocks.
pub open spec fn spec_pattern_ignores(p: IgnorePattern, content: Seq<char>, i: int) -> bool {
    if p.pattern_type == PatternType::BlockStartEnd {
        exists|k: int|
            0 <= k < spec_pattern_blocks(p, content).len() && (#[trigger] spec_pattern_blocks(
                p,
                content,
            )[k]).0 <= i + 1 <= spec_pattern_blocks(p, content)[k].1
    } else {
        spec_line_match(p, spec_lines(content)[i], i + 1)
    }
}

/// Whether any pattern of the list ignores line `i`; a line ignored by
/// several patterns is ignored exactly once.
pub open spec fn spec_ignored(ps: Seq<IgnorePattern>, content: Seq<char>, i: int) -> bool {
    exists|pi: int| 0 <= pi < ps.len() && spec_pattern_ignores(#[trigger] ps[pi], content, i)
}

pub proof fn lemma_ignored_push(ps: Seq<IgnorePattern>, p: IgnorePattern, content: Seq<char>, i: int)
    ensures
        spec_ignored(ps.push(p), content, i) == (spec_ignored(ps, content, i)
            || spec_pattern_ignores(p, content, i)),
{
    if spec_ignored(ps, content, i) {
        let w = choose|pi: int| 0 <= pi < ps.len() && spec_pattern_ignores(#[trigger] ps[pi], content, i);
        assert(spec_pattern_ignores(ps.push(p)[w], content, i));
    }
    if spec_pattern_ignores(p, content, i) {
        assert(spec_pattern_ignores(ps.push(p)[ps.len() as int], content, i));
    }
    if spec_ignored(ps.push(p), content, i) {
        let w = choose|pi: int|
            0 <= pi < ps.push(p).len() && spec_pattern_ignores(#[trigger] ps.push(p)[pi], content, i);
        if w < ps.len() {
            assert(spec_pattern_ignores(ps[w], content, i));
        }
    }
}

/// When the transformer succeeds on a content and pattern list: every block
/// pattern splits into two parts, and — whenever there is at least one line
/// to test — every line-based pattern parses as its kind asks.
pub open spec fn spec_patterns_ok(ps: Seq<IgnorePattern>, content: Seq<char>) -> bool {
    forall|pi: int|
        0 <= pi < ps.len() ==> spec_block_ok(#[trigger] ps[pi]) && (spec_lines(content).len() == 0
            || spec_line_match_ok(ps[pi]))
}

/// The lines of `content` from index `i` on that no pattern ignores, in
/// their original order.
pub open spec fn spec_kept_from(content: Seq<char>, ps: Seq<IgnorePattern>, i: int) -> Seq<
    Seq<char>,
>
    decreases spec_lines(content).len() - i,
{
    let ls = spec_lines(content);
    if i < 0 || i >= ls.len() {
        Seq::empty()
    } else if spec_ignored(ps, content, i) {
        spec_kept_from(content, ps, i + 1)
    } else {
        seq![ls[i]] + spec_kept_from(content, ps, i + 1)
    }
}

/// The lines from `i` on with runs of blank lines collapsed: a blank line
/// directly after a kept blank line is dropped; nothing else changes.
pub open spec fn spec_collapse_from(ls: Seq<Seq<char>>, i: int, prev_blank: bool) -> Seq<Seq<char>>
    decreases ls.len() - i,
{
    if i < 0 || i >= ls.len() {
        Seq::empty()
    } else {
        let b = spec_blank(ls[i]);
        if b && prev_blank {
            spec_collapse_from(ls, i + 1, true)
        } else {
            seq![ls[i]] + spec_collapse_from(ls, i + 1, b)
        }
    }
}

/// The kept lines after blank collapsing, joined with newlines.
pub open spec fn spec_cleaned_body(content: Seq<char>, ps: Seq<IgnorePattern>) -> Seq<char> {
    spec_join(spec_collapse_from(spec_kept_from(content, ps, 0), 0, false), '\n')
}

/// The cleaned text: the joined kept lines, with a trailing newline exactly
/// when the input had one and the output is non-empty.
pub open spec fn spec_cleaned(content: Seq<char>, ps: Seq<IgnorePattern>) -> Seq<char> {
    let body = spec_cleaned_body(content, ps);
    if content.len() > 0 && content.last() == '\n' && body.len() > 0 {
        body + seq!['\n']
    } else {
        body
    }
}

/// The ignored-line map: every ignored 0-based index, keyed to the original
/// text of that line.
pub open spec fn spec_ignored_map(content: Seq<char>, ps: Seq<IgnorePattern>) -> Map<
    int,
    Seq<char>,
> {
    Map::new(
        |i: int| 0 <= i < spec_lines(content).len() && spec_ignored(ps, content, i),
        |i: int| spec_lines(content)[i],
    )
}

/// The ignored map up to (excluding) line index `upto`.
pub open spec fn spec_ignored_map_upto(
    content: Seq<char>,
    ps: Seq<IgnorePattern>,
    upto: int,
) -> Map<int, Seq<char>> {
    Map::new(
        |i: int| 0 <= i < upto && i < spec_lines(content).len() && spec_ignored(ps, content, i),
        |i: int| spec_lines(content)[i],
    )
}

/// Tests whether 0-based line `i` falls in one of the 1-based inclusive
/// ranges.
fn in_ranges(ranges: &Vec<(usize, usize)>, i: usize) -> (r: bool)
    requires
        i < usize::MAX,
    ensures
        r == exists|k: int|
            0 <= k < ranges@.len() && (#[trigger] ranges@[k]).0 <= i + 1 <= ranges@[k].1,
{
    let mut k: usize = 0;
    while k < ranges.len()
        invariant
            0 <= k <= ranges@.len(),
            i < usize::MAX,
            forall|m: int| 0 <= m < k ==> !((#[trigger] ranges@[m]).0 <= i + 1 <= ranges@[m].1),
        decreases ranges@.len() - k,
    {
        let (a, b) = ranges[k];
        if a <= i + 1 && i + 1 <= b {
            return true;
        }
        k += 1;
    }
    false
}

/// Splits the content into lines, removes every line any pattern ignores,
/// collapses the blank runs left behind, and rejoins the rest; also
/// returns the map of removed lines. Fails, without a result, exactly when
/// some pattern's specification cannot be interpreted for its kind.
pub fn process_file_content(content: &str, patterns: &Vec<IgnorePattern>) -> (r: Result<
    (String, LineMap),
    IgnoreError,
>)
    ensures
        r is Ok <==> spec_patterns_ok(patterns@, content@),
        r matches Ok(pair) ==> pair.0@ == spec_cleaned(content@, patterns@) && pair.1@
            == spec_ignored_map(content@, patterns@) && pair.1.wf(),
        r matches Err(e) ==> e is ValidationError,
{
    let lines = split_lines(content);
    let n = lines.len();
    let ghost views = lines@.map_values(|x: String| x@);

    // which lines some pattern so far ignores
    let mut flags: Vec<bool> = Vec::new();
    let mut fi: usize = 0;
    while fi < n
        invariant
            0 <= fi <= n,
            flags@.len() == fi,
            forall|k: int| 0 <= k < fi ==> !(#[trigger] flags@[k]),
        decreases n - fi,
    {
        flags.push(false);
        fi += 1;
    }

    let mut pi: usize = 0;
    proof {
        assert(forall|k: int|
            0 <= k < n ==> #[trigger] flags@[k] == spec_ignored(
                patterns@.subrange(0, 0),
                content@,
                k,
            ));
    }
    while pi < patterns.len()
        invariant
            0 <= pi <= patterns@.len(),
            n == views.len(),
            n == lines@.len(),
            views == lines@.map_values(|x: String| x@),
            views == spec_lines(content@),
            flags@.len() == n,
            forall|k: int|
                0 <= k < n ==> #[trigger] flags@[k] == spec_ignored(
                    patterns@.subrange(0, pi as int),
                    content@,
                    k,
                ),
            forall|q: int|
                0 <= q < pi ==> spec_block_ok(#[trigger] patterns@[q]) && (n == 0
                    || spec_line_match_ok(patterns@[q])),
        decreases patterns@.len() - pi,
    {
        let p = &patterns[pi];
        let ghost prefix = patterns@.subrange(0, pi as int);
        proof {
            assert(prefix.push(patterns@[pi as int]) =~= patterns@.subrange(0, pi + 1));
        }
        let is_block = match p.pattern_type {
            PatternType::BlockStartEnd => true,
            _ => false,
        };
        if is_block {
            let ranges = match p.get_block_range(content) {
                Ok(v) => v,
                Err(e) => {
                    return Err(e);
                },
            };
            let mut i: usize = 0;
            while i < n
                invariant
                    0 <= i <= n,
                    n == views.len(),
                    flags@.len() == n,
                    p == patterns@[pi as int],
                    0 <= pi < patterns@.len(),
                    prefix == patterns@.subrange(0, pi as int),
                    p.pattern_type == PatternType::BlockStartEnd,
                    ranges@.map_values(|t: (usize, usize)| (t.0 as int, t.1 as int))
                        == spec_pattern_blocks(*p, content@),
                    forall|k: int|
                        i <= k < n ==> #[trigger] flags@[k] == spec_ignored(prefix, content@, k),
                    forall|k: int|
                        0 <= k < i ==> #[trigger] flags@[k] == spec_ignored(
                            prefix.push(*p),
                            content@,
                            k,
                        ),
                decreases n - i,
            {
                let hit = in_ranges(&ranges, i);
                proof {
                    let mapped = ranges@.map_values(|t: (usize, usize)| (t.0 as int, t.1 as int));
                    assert forall|k: int| 0 <= k < ranges@.len() implies ((#[trigger] ranges@[k]).0
                        <= i + 1 <= ranges@[k].1) == (mapped[k].0 <= i + 1 <= mapped[k].1) by {}
                    assert(hit == spec_pattern_ignores(*p, content@, i as int));
                    lemma_ignored_push(prefix, *p, content@, i as int);
                }
                let prev = flags[i];
                flags.set(i, prev || hit);
                i += 1;
            }
        } else {
            let mut i: usize = 0;
            while i < n
                invariant
                    0 <= i <= n,
                    n == views.len(),
                    n == lines@.len(),
                    views == lines@.map_values(|x: String| x@),
                    views == spec_lines(content@),
                    flags@.len() == n,
                    p == patterns@[pi as int],
                    0 <= pi < patterns@.len(),
                    prefix == patterns@.subrange(0, pi as int),
                    p.pattern_type != PatternType::BlockStartEnd,
                    i > 0 ==> spec_line_match_ok(*p),
                    forall|k: int|
                        i <= k < n ==> #[trigger] flags@[k] == spec_ignored(prefix, content@, k),
                    forall|k: int|
                        0 <= k < i ==> #[trigger] flags@[k] == spec_ignored(
                            prefix.push(*p),
                            content@,
                            k,
                        ),
                decreases n - i,
            {
                let hit = match p.matches_line(lines[i].as_str(), i + 1) {
                    Ok(b) => b,
                    Err(e) => {
                        return Err(e);
                    },
                };
                proof {
                    assert(views[i as int] == lines@[i as int]@);
                    assert(hit == spec_pattern_ignores(*p, content@, i as int));
                    lemma_ignored_push(prefix, *p, content@, i as int);
                }
                let prev = flags[i];
                flags.set(i, prev || hit);
                i += 1;
            }
        }
        pi += 1;
    }
    proof {
        assert(patterns@.subrange(0, patterns@.len() as int) =~= patterns@);
    }

    // build the ignored map and the kept lines
    let mut map = LineMap::new();
    let mut kept: Vec<String> = Vec::new();
    let mut i: usize = 0;
    proof {
        assert(map@ =~= spec_ignored_map_upto(content@, patterns@, 0));
        assert(kept@.map_values(|x: String| x@) + spec_kept_from(content@, patterns@, 0)
            =~= spec_kept_from(content@, patterns@, 0));
    }
    while i < n
        invariant
            0 <= i <= n,
            n == views.len(),
            n == lines@.len(),
            views == lines@.map_values(|x: String| x@),
            views == spec_lines(content@),
            flags@.len() == n,
            forall|k: int|
                0 <= k < n ==> #[trigger] flags@[k] == spec_ignored(patterns@, content@, k),
            map.wf(),
            forall|e: int|
                0 <= e < map.entries@.len() ==> (#[trigger] map.entries@[e]).0 < i,
            map@ == spec_ignored_map_upto(content@, patterns@, i as int),
            spec_kept_from(content@, patterns@, 0) == kept@.map_values(|x: String| x@)
                + spec_kept_from(content@, patterns@, i as int),
        decreases n - i,
    {
        if flags[i] {
            map.push_entry(i, lines[i].clone());
            proof {
                assert(map@ =~= spec_ignored_map_upto(content@, patterns@, i + 1));
            }
        } else {
            kept.push(lines[i].clone());
            proof {
                assert(kept@.map_values(|x: String| x@) =~= kept@.subrange(
                    0,
                    kept@.len() - 1,
                ).map_values(|x: String| x@).push(views[i as int]));
                assert(map@ =~= spec_ignored_map_upto(content@, patterns@, i + 1));
            }
        }
        i += 1;
    }
    proof {
        assert(map@ =~= spec_ignored_map(content@, patterns@));
        assert(spec_kept_from(content@, patterns@, n as int) =~= Seq::<Seq<char>>::empty());
        assert(kept@.map_values(|x: String| x@) =~= spec_kept_from(content@, patterns@, 0));
    }

    // collapse runs of blank kept lines
    let ghost kept_views = kept@.map_values(|x: String| x@);
    let mut cleaned_lines: Vec<String> = Vec::new();
    let mut prev_blank = false;
    let mut ci: usize = 0;
    proof {
        assert(spec_collapse_from(kept_views, 0, false) =~= cleaned_lines@.map_values(
            |x: String| x@,
        ) + spec_collapse_from(kept_views, 0, false));
    }
    while ci < kept.len()
        invariant
            0 <= ci <= kept@.len(),
            kept_views == kept@.map_values(|x: String| x@),
            spec_collapse_from(kept_views, 0, false) == cleaned_lines@.map_values(|x: String| x@)
                + spec_collapse_from(kept_views, ci as int, prev_blank),
        decreases kept@.len() - ci,
    {
        let blank = is_blank_line(kept[ci].as_str());
        proof {
            assert(kept_views[ci as int] == kept@[ci as int]@);
        }
        if blank && prev_blank {
        } else {
            cleaned_lines.push(kept[ci].clone());
            proof {
                assert(cleaned_lines@.map_values(|x: String| x@) =~= cleaned_lines@.subrange(
                    0,
                    cleaned_lines@.len() - 1,
                ).map_values(|x: String| x@).push(kept_views[ci as int]));
            }
            prev_blank = blank;
        }
        ci += 1;
    }
    proof {
        assert(spec_collapse_from(kept_views, kept_views.len() as int, prev_blank)
            =~= Seq::<Seq<char>>::empty());
        assert(cleaned_lines@.map_values(|x: String| x@) =~= spec_collapse_from(
            kept_views,
            0,
            false,
        ));
    }

    let mut new_content = join_lines(&cleaned_lines);
    let cn = content.unicode_len();
    if cn > 0 && content.get_char(cn - 1) == '\n' && new_content.as_str().unicode_len() > 0 {
        proof {
            reveal_strlit("\n");
            assert("\n"@ =~= seq!['\n']);
        }
        new_content.append("\n");
    }
    Ok((new_content, map))
}

/// The set of 0-based line indices the pattern list ignores.
pub open spec fn spec_ignored_set(content: Seq<char>, ps: Seq<IgnorePattern>) -> Set<int> {
    Set::new(|i: int| 0 <= i < spec_lines(content).len() && spec_ignored(ps, content, i))
}

/// How many lines the pattern list ignores.
pub open spec fn spec_ignored_count(content: Seq<char>, ps: Seq<IgnorePattern>) -> nat {
    spec_ignored_set(content, ps).len()
}

/// An ascending entry sequence denotes a map with exactly one key per entry.
pub proof fn lemma_entries_map_card(s: Seq<(usize, String)>)
    requires
        forall|a: int, b: int| 0 <= a < b < s.len() ==> (#[trigger] s[a]).0 < (#[trigger] s[b]).0,
    ensures
        entries_map(s).dom().finite(),
        entries_map(s).dom().len() == s.len(),
    decreases s.len(),
{
    if s.len() == 0 {
        assert(entries_map(s).dom() =~= Set::<int>::empty());
    } else {
        assert(forall|a: int, b: int|
            0 <= a < b < s.drop_last().len() ==> (#[trigger] s.drop_last()[a]).0 < (
            #[trigger] s.drop_last()[b]).0);
        lemma_entries_map_card(s.drop_last());
        lemma_entries_map_keys(s.drop_last());
        let inner = entries_map(s.drop_last());
        assert(entries_map(s).dom() =~= inner.dom().insert(s.last().0 as int));
        assert(!inner.contains_key(s.last().0 as int)) by {
            if inner.contains_key(s.last().0 as int) {
                let w = choose|i: int|
                    0 <= i < s.drop_last().len() && (#[trigger] s.drop_last()[i]).0
                        == s.last().0 as int;
                assert((s[w]).0 < s.last().0);
            }
        }
    }
}

/// The ignored-line map built by the transformer has exactly one entry per
/// ignored line index.
pub proof fn lemma_ignored_map_count(m: LineMap, content: Seq<char>, ps: Seq<IgnorePattern>)
    requires
        m.wf(),
        m@ == spec_ignored_map(content, ps),
    ensures
        m.entries@.len() == spec_ignored_count(content, ps),
{
    lemma_entries_map_card(m.entries@);
    assert(m@.dom() =~= spec_ignored_set(content, ps));
}

} // verus!
