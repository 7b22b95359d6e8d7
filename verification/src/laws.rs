//! The library-wide laws: applying the transformer twice with the same
//! content-based patterns changes nothing more than applying it once; a
//! backup record stored after a clean restores exactly the original
//! content when the cleaned text is untouched; and wildcard patterns
//! apply to every file in addition to the file's own.

use vstd::prelude::*;

verus! {

use crate::backup::BackupData;
use crate::hash::spec_hash_string;
use crate::pattern::{
    IgnorePattern, PatternType, spec_line_regex_src, spec_block_parts, regex_match,
    has_end_from, spec_block_scan, spec_pattern_blocks, lemma_has_end_step,
};
use crate::strutil::{
    contains_sub, spec_lines, spec_join, spec_split_sub, spec_blank, spec_trim, find_sub, match_at,
    lemma_find_sub_value, lemma_find_sub_none, lemma_find_sub_bounds, lemma_join_push,
};
use crate::transform::{
    spec_cleaned, spec_cleaned_body, spec_kept_from, spec_collapse_from, spec_ignored,
    spec_pattern_ignores,
};
use crate::config::map_patterns_at;
use crate::engine::{spec_applicable, wildcard_key};

/// No occurrence of a single character in a sequence.
pub open spec fn no_char(s: Seq<char>, c: char) -> bool {
    forall|i: int| 0 <= i < s.len() ==> s[i] != c
}

/// A one-character needle matches exactly at the positions holding it.
proof fn lemma_match_at_char(s: Seq<char>, c: char, k: int)
    ensures
        match_at(s, seq![c], k) <==> (0 <= k < s.len() && s[k] == c),
{
    if 0 <= k && k + 1 <= s.len() {
        if s[k] == c {
            assert(s.subrange(k, k + 1) =~= seq![c]);
        } else {
            assert(s.subrange(k, k + 1)[0] == s[k]);
        }
    }
}

/// A sequence without a character contains no one-character needle of it.
proof fn lemma_no_char_no_contains(s: Seq<char>, c: char)
    requires
        no_char(s, c),
    ensures
        !contains_sub(s, seq![c]),
{
    assert forall|i: int|
        0 <= i && i + seq![c].len() <= s.len() implies #[trigger] s.subrange(
        i,
        i + seq![c].len(),
    ) != seq![c] by {
        lemma_match_at_char(s, c, i);
    }
}

/// The pieces of a single-character split never hold the separator.
proof fn lemma_split_pieces_no_char(s: Seq<char>, c: char)
    ensures
        forall|j: int|
            0 <= j < spec_split_sub(s, seq![c]).len() ==> no_char(
                #[trigger] spec_split_sub(s, seq![c])[j],
                c,
            ),
    decreases s.len(),
{
    let sep = seq![c];
    lemma_find_sub_bounds(s, sep);
    lemma_find_sub_none(s, sep);
    let f = find_sub(s, sep);
    if f == -1 {
        assert forall|i: int| 0 <= i < s.len() implies s[i] != c by {
            lemma_match_at_char(s, c, i);
            assert(!match_at(s, sep, i));
        }
        assert(spec_split_sub(s, sep) =~= seq![s]);
    } else {
        let head = s.subrange(0, f);
        let rest = s.subrange(f + 1, s.len() as int);
        assert(spec_split_sub(s, sep) == seq![head] + spec_split_sub(rest, sep));
        assert(no_char(head, c)) by {
            assert forall|i: int| 0 <= i < head.len() implies head[i] != c by {
                lemma_find_sub_least(s, sep, i);
            }
        }
        lemma_split_pieces_no_char(rest, c);
        assert forall|j: int|
            0 <= j < spec_split_sub(s, sep).len() implies no_char(
            #[trigger] spec_split_sub(s, sep)[j],
            c,
        ) by {
            if j == 0 {
            } else {
                assert(spec_split_sub(s, sep)[j] == spec_split_sub(rest, sep)[j - 1]);
            }
        }
    }
}

/// Positions strictly before the leftmost occurrence do not hold the
/// separator character.
proof fn lemma_find_sub_least(s: Seq<char>, sep: Seq<char>, i: int)
    requires
        sep.len() == 1,
        0 <= i < find_sub(s, sep),
    ensures
        s[i] != sep[0],
{
    lemma_find_sub_bounds(s, sep);
    lemma_match_at_char(s, sep[0], i);
    assert(seq![sep[0]] =~= sep);
    if s[i] == sep[0] {
        crate::strutil::lemma_find_sub_least(s, sep, i);
    }
}

/// Splitting `t + [c] + u` on `c` peels off exactly `t` when `t` is free
/// of the separator.
proof fn lemma_split_concat(t: Seq<char>, u: Seq<char>, c: char)
    requires
        no_char(t, c),
    ensures
        spec_split_sub(t + seq![c] + u, seq![c]) == seq![t] + spec_split_sub(u, seq![c]),
{
    let sep = seq![c];
    let s = t + sep + u;
    assert(s.len() == t.len() + 1 + u.len());
    assert(match_at(s, sep, t.len() as int)) by {
        assert(s[t.len() as int] == c);
        lemma_match_at_char(s, c, t.len() as int);
    }
    assert forall|k: int| 0 <= k < t.len() implies !match_at(s, sep, k) by {
        assert(s[k] == t[k]);
        lemma_match_at_char(s, c, k);
    }
    lemma_find_sub_value(s, sep, t.len() as int);
    assert(s.subrange(0, t.len() as int) =~= t);
    assert(s.subrange(t.len() as int + 1, s.len() as int) =~= u);
    assert(spec_split_sub(s, sep) == seq![t] + spec_split_sub(u, sep));
}

/// Joining lines that are free of the separator and splitting again gives
/// the lines back.
proof fn lemma_split_join(ls: Seq<Seq<char>>, c: char)
    requires
        ls.len() >= 1,
        forall|j: int| 0 <= j < ls.len() ==> no_char(#[trigger] ls[j], c),
    ensures
        spec_split_sub(spec_join(ls, c), seq![c]) == ls,
    decreases ls.len(),
{
    if ls.len() == 1 {
        assert(spec_join(ls, c) == ls[0]);
        lemma_no_char_no_contains(ls[0], c);
        crate::strutil::lemma_split_sub_whole(ls[0], seq![c]);
        assert(spec_split_sub(spec_join(ls, c), seq![c]) =~= ls);
    } else {
        assert(spec_join(ls, c) == ls[0] + seq![c] + spec_join(ls.drop_first(), c));
        lemma_split_concat(ls[0], spec_join(ls.drop_first(), c), c);
        assert(forall|j: int|
            0 <= j < ls.drop_first().len() ==> no_char(#[trigger] ls.drop_first()[j], c));
        lemma_split_join(ls.drop_first(), c);
        assert(seq![ls[0]] + ls.drop_first() =~= ls);
    }
}

/// Every line of a text is free of newlines.
proof fn lemma_lines_no_newline(s: Seq<char>)
    ensures
        forall|j: int|
            0 <= j < spec_lines(s).len() ==> no_char(#[trigger] spec_lines(s)[j], '\n'),
{
    if s.len() == 0 {
    } else if s.last() == '\n' {
        lemma_split_pieces_no_char(s.drop_last(), '\n');
    } else {
        lemma_split_pieces_no_char(s, '\n');
    }
}

/// The trimmed start text of a block pattern's specification.
pub open spec fn block_sp(p: IgnorePattern) -> Seq<char> {
    spec_trim(spec_block_parts(p.specification@)[0])
}

/// The trimmed end text of a block pattern's specification.
pub open spec fn block_ep(p: IgnorePattern) -> Seq<char> {
    spec_trim(spec_block_parts(p.specification@)[1])
}

/// Lines on which a pattern finds nothing more to do: no line matches a
/// regex pattern, and no line holding a block pattern's start text is
/// followed by one holding its end text.
pub open spec fn lines_safe_for(p: IgnorePattern, ls: Seq<Seq<char>>) -> bool {
    match p.pattern_type {
        PatternType::LineRegex => forall|j: int|
            0 <= j < ls.len() ==> !regex_match(
                spec_line_regex_src(p.specification@),
                #[trigger] ls[j],
            ),
        PatternType::BlockStartEnd => forall|j: int, j2: int|
            0 <= j < j2 < ls.len() && contains_sub(#[trigger] ls[j], block_sp(p)) ==> !contains_sub(
                #[trigger] ls[j2],
                block_ep(p),
            ),
        _ => true,
    }
}

/// A 1-based line number covered by one of the scan's ranges.
pub open spec fn range_covers(ranges: Seq<(int, int)>, lineno: int) -> bool {
    exists|k: int| 0 <= k < ranges.len() && (#[trigger] ranges[k]).0 <= lineno <= ranges[k].1
}

/// An open block whose end text lies ahead is closed by the scan, which
/// emits it as the first range.
proof fn lemma_scan_closes(ls: Seq<Seq<char>>, sp: Seq<char>, ep: Seq<char>, i: int, s: int)
    requires
        has_end_from(ls, ep, i),
        0 <= s < i,
    ensures
        spec_block_scan(ls, sp, ep, i, Some(s)).len() > 0,
        spec_block_scan(ls, sp, ep, i, Some(s))[0].0 == s + 1,
        spec_block_scan(ls, sp, ep, i, Some(s))[0].1 >= i,
    decreases ls.len() - i,
{
    if i >= ls.len() {
        assert(false);
    } else {
        if contains_sub(ls[i], ep) {
            assert(spec_block_scan(ls, sp, ep, i, Some(s))[0] == (s + 1, i + 1));
        } else {
            lemma_has_end_step(ls, ep, i);
            lemma_scan_closes(ls, sp, ep, i + 1, s);
            assert(spec_block_scan(ls, sp, ep, i, Some(s)) == spec_block_scan(
                ls,
                sp,
                ep,
                i + 1,
                Some(s),
            ));
        }
    }
}

/// Every line at or after the scan point that holds the start text and is
/// followed by an end text lies inside one of the scan's ranges.
proof fn lemma_scan_covers(
    ls: Seq<Seq<char>>,
    sp: Seq<char>,
    ep: Seq<char>,
    i: int,
    opened: Option<int>,
)
    requires
        0 <= i,
        opened matches Some(s) ==> 0 <= s < i && has_end_from(ls, ep, i),
    ensures
        forall|m: int|
            i <= m < ls.len() && contains_sub(#[trigger] ls[m], sp) && has_end_from(ls, ep, m + 1)
                ==> range_covers(spec_block_scan(ls, sp, ep, i, opened), m + 1),
    decreases ls.len() - i,
{
    if i >= ls.len() {
    } else {
        let res = spec_block_scan(ls, sp, ep, i, opened);
        match opened {
            Option::None => {
                if contains_sub(ls[i], sp) && has_end_from(ls, ep, i + 1) {
                    lemma_scan_covers(ls, sp, ep, i + 1, Some(i));
                    assert(res == spec_block_scan(ls, sp, ep, i + 1, Some(i)));
                    assert forall|m: int|
                        i <= m < ls.len() && contains_sub(#[trigger] ls[m], sp) && has_end_from(
                            ls,
                            ep,
                            m + 1,
                        ) implies range_covers(res, m + 1) by {
                        if m == i {
                            lemma_scan_closes(ls, sp, ep, i + 1, i);
                            assert(res[0].0 == i + 1 && res[0].1 >= i + 1);
                            assert(range_covers(res, i + 1));
                        }
                    }
                } else {
                    lemma_scan_covers(ls, sp, ep, i + 1, Option::None);
                    assert(res == spec_block_scan(ls, sp, ep, i + 1, Option::None));
                    assert forall|m: int|
                        i <= m < ls.len() && contains_sub(#[trigger] ls[m], sp) && has_end_from(
                            ls,
                            ep,
                            m + 1,
                        ) implies range_covers(res, m + 1) by {
                        if m == i {
                            assert(false);
                        } else {
                            assert(range_covers(spec_block_scan(ls, sp, ep, i + 1, Option::None), m + 1));
                        }
                    }
                }
            },
            Option::Some(s) => {
                if contains_sub(ls[i], ep) {
                    lemma_scan_covers(ls, sp, ep, i + 1, Option::None);
                    let rest = spec_block_scan(ls, sp, ep, i + 1, Option::None);
                    assert(res == seq![(s + 1, i + 1)] + rest);
                    assert forall|m: int|
                        i <= m < ls.len() && contains_sub(#[trigger] ls[m], sp) && has_end_from(
                            ls,
                            ep,
                            m + 1,
                        ) implies range_covers(res, m + 1) by {
                        if m == i {
                            assert(res[0].0 == s + 1 && res[0].1 == i + 1);
                            assert(range_covers(res, i + 1));
                        } else {
                            assert(range_covers(rest, m + 1));
                            let w = choose|k: int|
                                0 <= k < rest.len() && (#[trigger] rest[k]).0 <= m + 1 <= rest[k].1;
                            assert(res[w + 1] == rest[w]);
                            assert(range_covers(res, m + 1));
                        }
                    }
                } else {
                    lemma_has_end_step(ls, ep, i);
                    lemma_scan_covers(ls, sp, ep, i + 1, Some(s));
                    assert(res == spec_block_scan(ls, sp, ep, i + 1, Some(s)));
                    assert forall|m: int|
                        i <= m < ls.len() && contains_sub(#[trigger] ls[m], sp) && has_end_from(
                            ls,
                            ep,
                            m + 1,
                        ) implies range_covers(res, m + 1) by {
                        if m == i {
                            lemma_scan_closes(ls, sp, ep, i + 1, s);
                            assert(res[0].0 == s + 1 && res[0].1 >= i + 1);
                            assert(range_covers(res, m + 1));
                        } else {
                            assert(range_covers(spec_block_scan(ls, sp, ep, i + 1, Some(s)), m + 1));
                        }
                    }
                }
            },
        }
    }
}

/// A scan over lines where no start text is ever followed by an end text
/// finds no block.
proof fn lemma_scan_none(ls: Seq<Seq<char>>, sp: Seq<char>, ep: Seq<char>, i: int)
    requires
        forall|j: int, j2: int|
            0 <= j < j2 < ls.len() && contains_sub(#[trigger] ls[j], sp) ==> !contains_sub(
                #[trigger] ls[j2],
                ep,
            ),
    ensures
        spec_block_scan(ls, sp, ep, i, Option::None) == Seq::<(int, int)>::empty(),
    decreases ls.len() - i,
{
    if i < 0 || i >= ls.len() {
    } else {
        if contains_sub(ls[i], sp) && has_end_from(ls, ep, i + 1) {
            let w = choose|j: int| i + 1 <= j < ls.len() && #[trigger] contains_sub(ls[j], ep);
            assert(contains_sub(ls[i], sp) && contains_sub(ls[w], ep) && i < w);
            assert(false);
        }
        lemma_scan_none(ls, sp, ep, i + 1);
        assert(spec_block_scan(ls, sp, ep, i, Option::None) == spec_block_scan(
            ls,
            sp,
            ep,
            i + 1,
            Option::None,
        ));
    }
}


/// The 0-based original indices of the kept lines, in order.
pub open spec fn kept_idx_from(content: Seq<char>, ps: Seq<IgnorePattern>, i: int) -> Seq<int>
    decreases spec_lines(content).len() - i,
{
    if i < 0 || i >= spec_lines(content).len() {
        Seq::empty()
    } else if spec_ignored(ps, content, i) {
        kept_idx_from(content, ps, i + 1)
    } else {
        seq![i] + kept_idx_from(content, ps, i + 1)
    }
}

/// The kept lines are the original lines at the kept indices: in range,
/// un-ignored, and strictly ascending.
proof fn lemma_kept_idx(content: Seq<char>, ps: Seq<IgnorePattern>, i: int)
    ensures
        kept_idx_from(content, ps, i).len() == spec_kept_from(content, ps, i).len(),
        forall|j: int|
            0 <= j < kept_idx_from(content, ps, i).len() ==> i <= #[trigger] kept_idx_from(
                content,
                ps,
                i,
            )[j] < spec_lines(content).len() && !spec_ignored(
                ps,
                content,
                kept_idx_from(content, ps, i)[j],
            ) && spec_kept_from(content, ps, i)[j] == spec_lines(content)[kept_idx_from(
                content,
                ps,
                i,
            )[j]],
        forall|j: int, j2: int|
            0 <= j < j2 < kept_idx_from(content, ps, i).len() ==> #[trigger] kept_idx_from(
                content,
                ps,
                i,
            )[j] < #[trigger] kept_idx_from(content, ps, i)[j2],
    decreases spec_lines(content).len() - i,
{
    let ls = spec_lines(content);
    if i < 0 || i >= ls.len() {
    } else if spec_ignored(ps, content, i) {
        lemma_kept_idx(content, ps, i + 1);
    } else {
        lemma_kept_idx(content, ps, i + 1);
        let idx = kept_idx_from(content, ps, i);
        let rest = kept_idx_from(content, ps, i + 1);
        assert(forall|j: int| 0 < j < idx.len() ==> #[trigger] idx[j] == rest[j - 1]);
        assert(forall|j: int|
            0 < j < idx.len() ==> #[trigger] spec_kept_from(content, ps, i)[j] == spec_kept_from(
                content,
                ps,
                i + 1,
            )[j - 1]);
    }
}

/// The 0-based input indices of the collapsed lines, in order.
pub open spec fn collapse_idx_from(ls: Seq<Seq<char>>, i: int, b: bool) -> Seq<int>
    decreases ls.len() - i,
{
    if i < 0 || i >= ls.len() {
        Seq::empty()
    } else {
        let blank = spec_blank(ls[i]);
        if blank && b {
            collapse_idx_from(ls, i + 1, true)
        } else {
            seq![i] + collapse_idx_from(ls, i + 1, blank)
        }
    }
}

/// The collapsed lines are the input lines at the collapse indices: in
/// range and strictly ascending.
proof fn lemma_collapse_idx(ls: Seq<Seq<char>>, i: int, b: bool)
    ensures
        collapse_idx_from(ls, i, b).len() == spec_collapse_from(ls, i, b).len(),
        forall|j: int|
            0 <= j < collapse_idx_from(ls, i, b).len() ==> i <= #[trigger] collapse_idx_from(
                ls,
                i,
                b,
            )[j] < ls.len() && spec_collapse_from(ls, i, b)[j] == ls[collapse_idx_from(
                ls,
                i,
                b,
            )[j]],
        forall|j: int, j2: int|
            0 <= j < j2 < collapse_idx_from(ls, i, b).len() ==> #[trigger] collapse_idx_from(
                ls,
                i,
                b,
            )[j] < #[trigger] collapse_idx_from(ls, i, b)[j2],
    decreases ls.len() - i,
{
    if i < 0 || i >= ls.len() {
    } else {
        let blank = spec_blank(ls[i]);
        if blank && b {
            lemma_collapse_idx(ls, i + 1, true);
        } else {
            lemma_collapse_idx(ls, i + 1, blank);
            let idx = collapse_idx_from(ls, i, b);
            let rest = collapse_idx_from(ls, i + 1, blank);
            assert(forall|j: int| 0 < j < idx.len() ==> #[trigger] idx[j] == rest[j - 1]);
            assert(forall|j: int|
                0 < j < idx.len() ==> #[trigger] spec_collapse_from(ls, i, b)[j]
                    == spec_collapse_from(ls, i + 1, blank)[j - 1]);
        }
    }
}

/// The kept lines are safe for every pattern of the list that is a regex
/// or block pattern: removal already took out every match, and an
/// unconsumed start text has no end text after it.
proof fn lemma_kept_safe(p: IgnorePattern, ps: Seq<IgnorePattern>, content: Seq<char>)
    requires
        ps.contains(p),
        p.pattern_type == PatternType::LineRegex || p.pattern_type == PatternType::BlockStartEnd,
    ensures
        lines_safe_for(p, spec_kept_from(content, ps, 0)),
{
    let ls = spec_lines(content);
    let kept = spec_kept_from(content, ps, 0);
    let idx = kept_idx_from(content, ps, 0);
    let w = choose|pi: int| 0 <= pi < ps.len() && ps[pi] == p;
    lemma_kept_idx(content, ps, 0);
    if p.pattern_type == PatternType::LineRegex {
        assert forall|j: int| 0 <= j < kept.len() implies !regex_match(
            spec_line_regex_src(p.specification@),
            #[trigger] kept[j],
        ) by {
            let m = idx[j];
            assert(kept[j] == ls[m] && !spec_ignored(ps, content, m));
            if regex_match(spec_line_regex_src(p.specification@), kept[j]) {
                assert(spec_pattern_ignores(ps[w], content, m));
                assert(spec_ignored(ps, content, m));
            }
        }
    } else {
        let sp = block_sp(p);
        let ep = block_ep(p);
        lemma_scan_covers(ls, sp, ep, 0, Option::None);
        assert forall|j: int, j2: int|
            0 <= j < j2 < kept.len() && contains_sub(#[trigger] kept[j], sp) implies !contains_sub(
            #[trigger] kept[j2],
            ep,
        ) by {
            let m = idx[j];
            let m2 = idx[j2];
            assert(m < m2);
            assert(kept[j] == ls[m] && !spec_ignored(ps, content, m));
            assert(kept[j2] == ls[m2] && !spec_ignored(ps, content, m2));
            assert(!spec_pattern_ignores(ps[w], content, m)) by {
                if spec_pattern_ignores(ps[w], content, m) {
                    assert(spec_ignored(ps, content, m));
                }
            }
            assert(!range_covers(spec_pattern_blocks(p, content), m + 1));
            assert(spec_pattern_blocks(p, content) == spec_block_scan(ls, sp, ep, 0, Option::None));
            if has_end_from(ls, ep, m + 1) {
                assert(range_covers(spec_block_scan(ls, sp, ep, 0, Option::None), m + 1));
            }
            assert(!has_end_from(ls, ep, m + 1));
            if contains_sub(ls[m2], ep) {
                assert(has_end_from(ls, ep, m + 1));
            }
        }
    }
}

/// Safety carries from lines to their collapsed form.
proof fn lemma_collapse_safe(p: IgnorePattern, ls: Seq<Seq<char>>)
    requires
        lines_safe_for(p, ls),
    ensures
        lines_safe_for(p, spec_collapse_from(ls, 0, false)),
{
    let out = spec_collapse_from(ls, 0, false);
    let idx = collapse_idx_from(ls, 0, false);
    lemma_collapse_idx(ls, 0, false);
    match p.pattern_type {
        PatternType::LineRegex => {
            assert forall|j: int| 0 <= j < out.len() implies !regex_match(
                spec_line_regex_src(p.specification@),
                #[trigger] out[j],
            ) by {
                assert(out[j] == ls[idx[j]]);
            }
        },
        PatternType::BlockStartEnd => {
            assert forall|j: int, j2: int|
                0 <= j < j2 < out.len() && contains_sub(#[trigger] out[j], block_sp(p)) implies
                !contains_sub(#[trigger] out[j2], block_ep(p)) by {
                let m = idx[j];
                let m2 = idx[j2];
                assert(m < m2);
                assert(out[j] == ls[m] && out[j2] == ls[m2]);
            }
        },
        _ => {},
    }
}

/// Safety carries to any prefix of the lines.
proof fn lemma_safe_prefix(p: IgnorePattern, ls: Seq<Seq<char>>, n: int)
    requires
        lines_safe_for(p, ls),
        0 <= n <= ls.len(),
    ensures
        lines_safe_for(p, ls.subrange(0, n)),
{
    let pre = ls.subrange(0, n);
    match p.pattern_type {
        PatternType::LineRegex => {
            assert forall|j: int| 0 <= j < pre.len() implies !regex_match(
                spec_line_regex_src(p.specification@),
                #[trigger] pre[j],
            ) by {
                assert(pre[j] == ls[j]);
            }
        },
        PatternType::BlockStartEnd => {
            assert forall|j: int, j2: int|
                0 <= j < j2 < pre.len() && contains_sub(#[trigger] pre[j], block_sp(p)) implies
                !contains_sub(#[trigger] pre[j2], block_ep(p)) by {
                assert(pre[j] == ls[j] && pre[j2] == ls[j2]);
            }
        },
        _ => {},
    }
}

/// After a kept blank line, the collapse emits a non-blank line first.
proof fn lemma_collapse_first_nonblank(ls: Seq<Seq<char>>, i: int)
    ensures
        spec_collapse_from(ls, i, true).len() > 0 ==> !spec_blank(
            spec_collapse_from(ls, i, true)[0],
        ),
    decreases ls.len() - i,
{
    if i < 0 || i >= ls.len() {
    } else {
        if spec_blank(ls[i]) {
            lemma_collapse_first_nonblank(ls, i + 1);
        }
    }
}

/// The collapsed lines never hold two blank lines next to each other.
proof fn lemma_collapse_no_adjacent(ls: Seq<Seq<char>>, i: int, b: bool)
    ensures
        forall|j: int|
            0 <= j && j + 1 < spec_collapse_from(ls, i, b).len() ==> !(spec_blank(
                #[trigger] spec_collapse_from(ls, i, b)[j],
            ) && spec_blank(spec_collapse_from(ls, i, b)[j + 1])),
    decreases ls.len() - i,
{
    let out = spec_collapse_from(ls, i, b);
    if i < 0 || i >= ls.len() {
    } else {
        let blank = spec_blank(ls[i]);
        if blank && b {
            lemma_collapse_no_adjacent(ls, i + 1, true);
        } else {
            lemma_collapse_no_adjacent(ls, i + 1, blank);
            lemma_collapse_first_nonblank(ls, i + 1);
            assert forall|j: int|
                0 <= j && j + 1 < out.len() implies !(spec_blank(#[trigger] out[j]) && spec_blank(
                out[j + 1],
            )) by {
                let rest = spec_collapse_from(ls, i + 1, blank);
                if j == 0 {
                    assert(out[0] == ls[i]);
                    assert(out[1] == rest[0]);
                    if blank {
                        assert(!spec_blank(rest[0]));
                    }
                } else {
                    assert(out[j] == rest[j - 1] && out[j + 1] == rest[j]);
                }
            }
        }
    }
}

/// Collapsing lines that already hold no adjacent blank pair changes
/// nothing.
proof fn lemma_collapse_identity(xs: Seq<Seq<char>>, i: int, b: bool)
    requires
        0 <= i <= xs.len(),
        forall|j: int|
            0 <= j && j + 1 < xs.len() ==> !(spec_blank(#[trigger] xs[j]) && spec_blank(
                xs[j + 1],
            )),
        b ==> (i < xs.len() ==> !spec_blank(xs[i])),
    ensures
        spec_collapse_from(xs, i, b) == xs.subrange(i, xs.len() as int),
    decreases xs.len() - i,
{
    if i == xs.len() {
        assert(spec_collapse_from(xs, i, b) =~= xs.subrange(i, xs.len() as int));
    } else {
        let blank = spec_blank(xs[i]);
        lemma_collapse_identity(xs, i + 1, blank);
        assert(spec_collapse_from(xs, i, b) =~= xs.subrange(i, xs.len() as int));
    }
}

/// When no pattern ignores any line, the kept lines are all the lines.
proof fn lemma_kept_identity(content: Seq<char>, ps: Seq<IgnorePattern>, j: int)
    requires
        0 <= j <= spec_lines(content).len(),
        forall|i: int|
            0 <= i < spec_lines(content).len() ==> !spec_ignored(ps, content, i),
    ensures
        spec_kept_from(content, ps, j) == spec_lines(content).subrange(
            j,
            spec_lines(content).len() as int,
        ),
    decreases spec_lines(content).len() - j,
{
    let ls = spec_lines(content);
    if j == ls.len() {
        assert(spec_kept_from(content, ps, j) =~= ls.subrange(j, ls.len() as int));
    } else {
        lemma_kept_identity(content, ps, j + 1);
        assert(spec_kept_from(content, ps, j) =~= ls.subrange(j, ls.len() as int));
    }
}

/// When every pattern is safe on a text's lines, no line of it is ignored.
proof fn lemma_safe_not_ignored(content2: Seq<char>, ps: Seq<IgnorePattern>)
    requires
        forall|pi: int|
            0 <= pi < ps.len() ==> ((#[trigger] ps[pi]).pattern_type == PatternType::LineRegex
                || ps[pi].pattern_type == PatternType::BlockStartEnd) && lines_safe_for(
                ps[pi],
                spec_lines(content2),
            ),
    ensures
        forall|i: int| 0 <= i < spec_lines(content2).len() ==> !spec_ignored(ps, content2, i),
{
    let ls = spec_lines(content2);
    assert forall|i: int| 0 <= i < ls.len() implies !spec_ignored(ps, content2, i) by {
        if spec_ignored(ps, content2, i) {
            let pi = choose|pi: int|
                0 <= pi < ps.len() && spec_pattern_ignores(#[trigger] ps[pi], content2, i);
            let p = ps[pi];
            if p.pattern_type == PatternType::LineRegex {
                assert(regex_match(spec_line_regex_src(p.specification@), ls[i]));
                assert(false);
            } else {
                assert(p.pattern_type == PatternType::BlockStartEnd);
                assert forall|j: int, j2: int|
                    0 <= j < j2 < ls.len() && contains_sub(#[trigger] ls[j], block_sp(p)) implies
                    !contains_sub(#[trigger] ls[j2], block_ep(p)) by {}
                lemma_scan_none(ls, block_sp(p), block_ep(p), 0);
                assert(spec_pattern_blocks(p, content2) == Seq::<(int, int)>::empty());
                assert(false);
            }
        }
    }
}



/// For a sequence of two or more lines, the join splits as the join of all
/// but the last, the separator, then the last.
proof fn lemma_join_decompose(d: Seq<Seq<char>>, c: char)
    requires
        d.len() >= 2,
    ensures
        spec_join(d, c) == spec_join(d.drop_last(), c) + seq![c] + d.last(),
{
    lemma_join_push(d.drop_last(), d.last(), c);
    assert(d.drop_last().push(d.last()) =~= d);
}

/// On a text whose lines are already safe for every pattern and hold no
/// adjacent blank pair, the transformer keeps every line: the cleaned body
/// is just the lines joined back.
proof fn lemma_pass_again(c2: Seq<char>, patterns: Seq<IgnorePattern>)
    requires
        forall|pi: int|
            0 <= pi < patterns.len() ==> ((#[trigger] patterns[pi]).pattern_type
                == PatternType::LineRegex || patterns[pi].pattern_type
                == PatternType::BlockStartEnd) && lines_safe_for(patterns[pi], spec_lines(c2)),
        forall|j: int|
            0 <= j && j + 1 < spec_lines(c2).len() ==> !(spec_blank(#[trigger] spec_lines(c2)[j])
                && spec_blank(spec_lines(c2)[j + 1])),
    ensures
        spec_cleaned_body(c2, patterns) == spec_join(spec_lines(c2), '\n'),
{
    let ls2 = spec_lines(c2);
    lemma_safe_not_ignored(c2, patterns);
    lemma_kept_identity(c2, patterns, 0);
    assert(spec_kept_from(c2, patterns, 0) =~= ls2);
    lemma_collapse_identity(ls2, 0, false);
    assert(spec_collapse_from(spec_kept_from(c2, patterns, 0), 0, false) =~= ls2);
}

/// Applying the transformer twice with the same patterns is the same as
/// applying it once, for every content and every list of regex and block
/// patterns. Line-number and line-range patterns are excluded: removing
/// the lines they name renumbers the remainder, so a second pass can
/// remove different lines.
pub proof fn lemma_transform_idempotent(content: Seq<char>, patterns: Seq<IgnorePattern>)
    requires
        forall|pi: int|
            0 <= pi < patterns.len() ==> ((#[trigger] patterns[pi]).pattern_type
                == PatternType::LineRegex || patterns[pi].pattern_type
                == PatternType::BlockStartEnd),
        forall|j: int|
            0 <= j < spec_lines(content).len() ==> ((#[trigger] spec_lines(content)[j]).len() == 0
                || spec_lines(content)[j].last() != '\r'),
    ensures
        spec_cleaned(spec_cleaned(content, patterns), patterns) == spec_cleaned(content, patterns),
{
    let ls1 = spec_lines(content);
    let kept = spec_kept_from(content, patterns, 0);
    let d = spec_collapse_from(kept, 0, false);
    let body = spec_join(d, '\n');
    let c2 = spec_cleaned(content, patterns);
    lemma_lines_no_newline(content);
    lemma_kept_idx(content, patterns, 0);
    lemma_collapse_idx(kept, 0, false);
    assert forall|j: int| 0 <= j < kept.len() implies no_char(#[trigger] kept[j], '\n') by {
        assert(kept[j] == ls1[kept_idx_from(content, patterns, 0)[j]]);
    }
    assert forall|j: int| 0 <= j < d.len() implies no_char(#[trigger] d[j], '\n') by {
        assert(d[j] == kept[collapse_idx_from(kept, 0, false)[j]]);
    }
    assert forall|j: int|
        0 <= j < kept.len() implies ((#[trigger] kept[j]).len() == 0 || kept[j].last()
        != '\r') by {
        assert(kept[j] == ls1[kept_idx_from(content, patterns, 0)[j]]);
    }
    assert forall|j: int|
        0 <= j < d.len() implies ((#[trigger] d[j]).len() == 0 || d[j].last() != '\r') by {
        assert(d[j] == kept[collapse_idx_from(kept, 0, false)[j]]);
    }
    lemma_collapse_no_adjacent(kept, 0, false);
    assert forall|pi: int| 0 <= pi < patterns.len() implies lines_safe_for(
        #[trigger] patterns[pi],
        d,
    ) by {
        assert(patterns.contains(patterns[pi]));
        lemma_kept_safe(patterns[pi], patterns, content);
        lemma_collapse_safe(patterns[pi], kept);
    }
    if body.len() == 0 {
        assert(c2 =~= Seq::<char>::empty());
        assert(spec_lines(c2).len() == 0);
        assert(spec_kept_from(c2, patterns, 0) =~= Seq::<Seq<char>>::empty());
        assert(spec_collapse_from(spec_kept_from(c2, patterns, 0), 0, false) =~= Seq::<
            Seq<char>,
        >::empty());
        assert(spec_cleaned_body(c2, patterns) =~= Seq::<char>::empty());
        assert(spec_cleaned(c2, patterns) =~= c2);
    } else {
        assert(d.len() >= 1) by {
            if d.len() == 0 {
                assert(spec_join(d, '\n') =~= Seq::<char>::empty());
            }
        }
        let extra = content.len() > 0 && content.last() == '\n';
        if extra {
            assert(c2 == body + seq!['\n']);
            assert(c2.last() == '\n');
            assert(c2.drop_last() =~= body);
            lemma_split_join(d, '\n');
            assert(spec_split_sub(body, seq!['\n']) == d);
            assert(spec_lines(c2) == spec_split_sub(c2.drop_last(), seq!['\n']).map_values(
                |l: Seq<char>| crate::strutil::strip_cr(l),
            ));
            assert(spec_lines(c2) =~= d) by {
                assert forall|j: int| 0 <= j < d.len() implies #[trigger] spec_lines(c2)[j]
                    == d[j] by {
                    assert(spec_lines(c2)[j] == crate::strutil::strip_cr(d[j]));
                }
            }
            lemma_pass_again(c2, patterns);
            assert(spec_cleaned_body(c2, patterns) == body);
            assert(spec_cleaned(c2, patterns) == body + seq!['\n']);
            assert(spec_cleaned(c2, patterns) == c2);
        } else {
            assert(c2 == body);
            if d.len() == 1 {
                assert(body == d[0]);
                assert(d.last() == d[0]);
                assert(body.last() != '\n') by {
                    assert(no_char(d[0], '\n'));
                }
                lemma_split_join(d, '\n');
                assert(spec_split_sub(body, seq!['\n']) == d);
                assert(spec_lines(c2) =~= d) by {
                    assert(spec_lines(c2).len() == d.len());
                    assert(spec_lines(c2)[0] == d[0]);
                }
                lemma_pass_again(c2, patterns);
                assert(spec_cleaned_body(c2, patterns) == body);
                assert(spec_cleaned(c2, patterns) == body);
            } else {
                lemma_join_decompose(d, '\n');
                assert(body == spec_join(d.drop_last(), '\n') + seq!['\n'] + d.last());
                if d.last().len() > 0 {
                    assert(body.last() == d.last().last());
                    assert(body.last() != '\n') by {
                        assert(no_char(d.last(), '\n'));
                        assert(d.last()[d.last().len() - 1] != '\n');
                    }
                    lemma_split_join(d, '\n');
                    assert(spec_split_sub(body, seq!['\n']) == d);
                    assert(spec_lines(c2) =~= d) by {
                        assert(spec_lines(c2).len() == d.len());
                        assert forall|j: int| 0 <= j < d.len() implies #[trigger] spec_lines(
                            c2,
                        )[j] == d[j] by {
                            if j < d.len() - 1 {
                                assert(spec_lines(c2)[j] == crate::strutil::strip_cr(d[j]));
                            } else {
                                assert(spec_lines(c2)[j] == d[j]);
                            }
                        }
                    }
                    lemma_pass_again(c2, patterns);
                    assert(spec_cleaned_body(c2, patterns) == body);
                    assert(spec_cleaned(c2, patterns) == body);
                } else {
                    // the last kept line is empty: the join ends in the
                    // separator, and reparsing drops that final empty line
                    assert(body.last() == '\n');
                    assert(body.drop_last() =~= spec_join(d.drop_last(), '\n'));
                    assert(forall|j: int|
                        0 <= j < d.drop_last().len() ==> no_char(#[trigger] d.drop_last()[j], '\n'));
                    lemma_split_join(d.drop_last(), '\n');
                    assert(spec_split_sub(body.drop_last(), seq!['\n']) == d.drop_last());
                    assert(spec_lines(c2) == spec_split_sub(c2.drop_last(), seq!['\n']).map_values(
                        |l: Seq<char>| crate::strutil::strip_cr(l),
                    ));
                    assert(spec_lines(c2) =~= d.drop_last()) by {
                        assert forall|j: int|
                            0 <= j < d.drop_last().len() implies #[trigger] spec_lines(c2)[j]
                            == d.drop_last()[j] by {
                            assert(spec_lines(c2)[j] == crate::strutil::strip_cr(
                                d.drop_last()[j],
                            ));
                            assert(d.drop_last()[j] == d[j]);
                        }
                    }
                    assert forall|pi: int| 0 <= pi < patterns.len() implies lines_safe_for(
                        #[trigger] patterns[pi],
                        spec_lines(c2),
                    ) by {
                        lemma_safe_prefix(patterns[pi], d, d.len() - 1);
                        assert(d.subrange(0, d.len() - 1) =~= d.drop_last());
                    }
                    assert(forall|j: int|
                        0 <= j && j + 1 < spec_lines(c2).len() ==> !(spec_blank(
                            #[trigger] spec_lines(c2)[j],
                        ) && spec_blank(spec_lines(c2)[j + 1]))) by {
                        assert(forall|j: int|
                            0 <= j < d.drop_last().len() ==> #[trigger] d.drop_last()[j] == d[j]);
                    }
                    lemma_pass_again(c2, patterns);
                    assert(spec_cleaned_body(c2, patterns) == spec_join(d.drop_last(), '\n'));
                    // the reparse's joined body is non-empty, so the final
                    // newline is put back
                    assert(spec_join(d.drop_last(), '\n').len() > 0) by {
                        if d.len() == 2 {
                            assert(spec_join(d.drop_last(), '\n') == d[0]);
                            if d[0].len() == 0 {
                                assert(spec_blank(d[0]) && spec_blank(d[1]));
                            }
                        } else {
                            lemma_join_decompose(d.drop_last(), '\n');
                        }
                    }
                    assert(c2.len() > 0 && c2.last() == '\n');
                    assert(spec_cleaned(c2, patterns) == spec_join(d.drop_last(), '\n')
                        + seq!['\n']);
                    assert(spec_cleaned(c2, patterns) =~= c2);
                }
            }
        }
    }
}

/// The round trip of the backup protocol: when cleaning changes a file's
/// content, the record the clean phase builds — stored under the file's
/// path and later taken back out — passes the integrity gate against the
/// unmodified cleaned text, and what it hands back is exactly the
/// original content.
pub proof fn lemma_clean_restore_round_trip(
    content: Seq<char>,
    patterns: Seq<IgnorePattern>,
    backup: BackupData,
    store: Map<Seq<char>, BackupData>,
    path: Seq<char>,
)
    requires
        spec_cleaned(content, patterns) != content,
        backup.original_content@ == content,
        backup.cleaned_file_hash@ == spec_hash_string(spec_cleaned(content, patterns)),
    ensures
        store.insert(path, backup).contains_key(path),
        store.insert(path, backup)[path] == backup,
        spec_hash_string(spec_cleaned(content, patterns)) == store.insert(
            path,
            backup,
        )[path].cleaned_file_hash@,
        store.insert(path, backup)[path].original_content@ == content,
{
}

/// Wildcard patterns apply to every file in addition to that file's own:
/// the applicable list is always the wildcard-scope list followed by the
/// file's own list, and a file with no entry of its own is still covered
/// by exactly the wildcard patterns.
pub proof fn lemma_wildcard_applies(files: Map<Seq<char>, Seq<IgnorePattern>>, path: Seq<char>)
    ensures
        spec_applicable(files, path) == map_patterns_at(files, wildcard_key()) + map_patterns_at(
            files,
            path,
        ),
        !files.contains_key(path) ==> spec_applicable(files, path) == map_patterns_at(
            files,
            wildcard_key(),
        ),
{
    if !files.contains_key(path) {
        assert(map_patterns_at(files, path) =~= Seq::<IgnorePattern>::empty());
        assert(map_patterns_at(files, wildcard_key()) + map_patterns_at(files, path)
            =~= map_patterns_at(files, wildcard_key()));
    }
}

} // verus!
