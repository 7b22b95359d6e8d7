//! String primitives the pattern engine and the transformer are built on:
//! substring containment, splitting, line splitting and joining, whitespace
//! tests, and decimal parsing and formatting.

use vstd::prelude::*;

verus! {

use vstd::string::StrSliceExecFns;
use vstd::string::StringExecFns;

/// True iff `needle` occurs in `hay` as a contiguous subsequence.
pub open spec fn contains_sub(hay: Seq<char>, needle: Seq<char>) -> bool {
    exists|i: int|
        0 <= i && i + needle.len() <= hay.len() && #[trigger] hay.subrange(i, i + needle.len())
            == needle
}

/// Index of the leftmost occurrence of `needle` in `s`, or -1 if none.
pub open spec fn find_sub(s: Seq<char>, needle: Seq<char>) -> int
    decreases s.len(),
{
    if s.len() < needle.len() {
        -1
    } else if s.subrange(0, needle.len() as int) == needle {
        0
    } else if s.len() == 0 {
        -1
    } else {
        let r = find_sub(s.drop_first(), needle);
        if r == -1 {
            -1
        } else {
            1 + r
        }
    }
}

pub proof fn lemma_find_sub_bounds(s: Seq<char>, needle: Seq<char>)
    ensures
        find_sub(s, needle) == -1 || (0 <= find_sub(s, needle) && find_sub(s, needle)
            + needle.len() <= s.len()),
        find_sub(s, needle) >= 0 ==> s.subrange(
            find_sub(s, needle),
            find_sub(s, needle) + needle.len(),
        ) == needle,
    decreases s.len(),
{
    if s.len() < needle.len() {
    } else if s.subrange(0, needle.len() as int) == needle {
    } else if s.len() == 0 {
    } else {
        lemma_find_sub_bounds(s.drop_first(), needle);
        let r = find_sub(s.drop_first(), needle);
        if r >= 0 {
            assert(s.drop_first().subrange(r, r + needle.len()) =~= s.subrange(
                1 + r,
                1 + r + needle.len(),
            ));
        }
    }
}

/// `find_sub` returns -1 exactly when there is no occurrence at all.
pub proof fn lemma_find_sub_none(s: Seq<char>, needle: Seq<char>)
    ensures
        (find_sub(s, needle) == -1) <==> !contains_sub(s, needle),
    decreases s.len(),
{
    if s.len() < needle.len() {
        assert(!contains_sub(s, needle));
    } else if s.subrange(0, needle.len() as int) == needle {
        assert(contains_sub(s, needle)) by {
            assert(s.subrange(0, 0 + needle.len() as int) == needle);
        }
    } else if s.len() == 0 {
        assert(needle.len() == 0);
        assert(s.subrange(0, needle.len() as int) =~= needle);
    } else {
        lemma_find_sub_bounds(s.drop_first(), needle);
        lemma_find_sub_none(s.drop_first(), needle);
        if find_sub(s, needle) == -1 {
            assert forall|i: int|
                0 <= i && i + needle.len() <= s.len() implies #[trigger] s.subrange(
                i,
                i + needle.len(),
            ) != needle by {
                if i > 0 {
                    assert(s.subrange(i, i + needle.len()) =~= s.drop_first().subrange(
                        i - 1,
                        i - 1 + needle.len(),
                    ));
                }
            }
        } else {
            let r = find_sub(s.drop_first(), needle);
            assert(contains_sub(s.drop_first(), needle));
            let w = choose|i: int|
                0 <= i && i + needle.len() <= s.drop_first().len()
                    && #[trigger] s.drop_first().subrange(i, i + needle.len()) == needle;
            assert(s.subrange(w + 1, w + 1 + needle.len()) =~= s.drop_first().subrange(
                w,
                w + needle.len(),
            ));
            assert(contains_sub(s, needle));
        }
    }
}

/// `find_sub` finds the leftmost occurrence.
pub proof fn lemma_find_sub_least(s: Seq<char>, needle: Seq<char>, i: int)
    requires
        0 <= i,
        i + needle.len() <= s.len(),
        s.subrange(i, i + needle.len()) == needle,
    ensures
        0 <= find_sub(s, needle) <= i,
    decreases s.len(),
{
    if s.len() < needle.len() {
    } else if s.subrange(0, needle.len() as int) == needle {
    } else {
        assert(i > 0);
        assert(s.len() > 0);
        assert(s.drop_first().subrange(i - 1, i - 1 + needle.len()) =~= s.subrange(
            i,
            i + needle.len(),
        ));
        lemma_find_sub_least(s.drop_first(), needle, i - 1);
    }
}

/// True iff `s` has an occurrence of `needle` starting at `i`.
pub open spec fn match_at(s: Seq<char>, needle: Seq<char>, i: int) -> bool {
    0 <= i && i + needle.len() <= s.len() && s.subrange(i, i + needle.len()) == needle
}

/// Tests whether `needle` occurs at character position `i` of `hay`.
pub fn match_at_exec(hay: &str, needle: &str, i: usize) -> (r: bool)
    requires
        i <= hay@.len(),
    ensures
        r == match_at(hay@, needle@, i as int),
{
    let hl = hay.unicode_len();
    let nl = needle.unicode_len();
    if nl > hl - i {
        return false;
    }
    let mut j: usize = 0;
    while j < nl
        invariant
            0 <= j <= nl,
            i + nl <= hl,
            hl == hay@.len(),
            nl == needle@.len(),
            forall|k: int| 0 <= k < j ==> hay@[i + k] == needle@[k],
        decreases nl - j,
    {
        if hay.get_char(i + j) != needle.get_char(j) {
            assert(hay@.subrange(i as int, i + nl) != needle@) by {
                assert(hay@.subrange(i as int, i + nl)[j as int] == hay@[i + j]);
            }
            return false;
        }
        j += 1;
    }
    assert(hay@.subrange(i as int, i + nl) =~= needle@);
    true
}

/// Tests whether `needle` occurs anywhere in `hay`.
pub fn contains_substr(hay: &str, needle: &str) -> (r: bool)
    ensures
        r == contains_sub(hay@, needle@),
{
    let hl = hay.unicode_len();
    let nl = needle.unicode_len();
    if nl > hl {
        assert(!contains_sub(hay@, needle@));
        return false;
    }
    if nl == 0 {
        assert(contains_sub(hay@, needle@)) by {
            assert(hay@.subrange(0, 0 + needle@.len() as int) =~= needle@);
        }
        return true;
    }
    let limit = hl - nl;
    let mut i: usize = 0;
    while i <= limit
        invariant
            0 <= i <= limit + 1,
            1 <= nl <= hl,
            limit == hl - nl,
            hl == hay@.len(),
            nl == needle@.len(),
            forall|k: int| 0 <= k < i ==> !match_at(hay@, needle@, k),
        decreases limit + 1 - i,
    {
        if match_at_exec(hay, needle, i) {
            return true;
        }
        i += 1;
    }
    assert forall|k: int|
        0 <= k && k + needle@.len() <= hay@.len() implies #[trigger] hay@.subrange(
        k,
        k + needle@.len(),
    ) != needle@ by {
        assert(!match_at(hay@, needle@, k));
    }
    false
}

/// Pins the value of `find_sub` from a leftmost witness.
pub proof fn lemma_find_sub_value(s: Seq<char>, needle: Seq<char>, i: int)
    requires
        match_at(s, needle, i),
        forall|k: int| 0 <= k < i ==> !match_at(s, needle, k),
    ensures
        find_sub(s, needle) == i,
{
    lemma_find_sub_least(s, needle, i);
    lemma_find_sub_bounds(s, needle);
    let f = find_sub(s, needle);
    if f < i {
        assert(match_at(s, needle, f));
    }
}

/// `s` split on every non-overlapping, leftmost-first occurrence of `sep`.
/// Mirrors `str::split` on a non-empty separator: the result always has at
/// least one element, and separators at the ends contribute empty pieces.
pub open spec fn spec_split_sub(s: Seq<char>, sep: Seq<char>) -> Seq<Seq<char>>
    decreases s.len(),
    when sep.len() >= 1
{
    let i = find_sub(s, sep);
    if i == -1 {
        seq![s]
    } else if i + sep.len() <= s.len() && 0 <= i {
        seq![s.subrange(0, i)] + spec_split_sub(s.subrange(i + sep.len(), s.len() as int), sep)
    } else {
        seq![s]
    }
}

/// Splitting a sequence with no occurrence of the separator keeps it whole.
pub proof fn lemma_split_sub_whole(s: Seq<char>, sep: Seq<char>)
    requires
        sep.len() >= 1,
        !contains_sub(s, sep),
    ensures
        spec_split_sub(s, sep) =~= seq![s],
{
    lemma_find_sub_none(s, sep);
}

/// Splits `s` on every occurrence of the non-empty separator `sep`.
pub fn split_substr(s: &str, sep: &str) -> (r: Vec<String>)
    requires
        sep@.len() >= 1,
    ensures
        r@.map_values(|x: String| x@) == spec_split_sub(s@, sep@),
{
    let n = s.unicode_len();
    let sl = sep.unicode_len();
    let mut res: Vec<String> = Vec::new();
    let mut start: usize = 0;
    let mut i: usize = 0;
    proof {
        assert(s@.subrange(0, n as int) =~= s@);
        assert(res@.map_values(|x: String| x@) =~= Seq::<Seq<char>>::empty());
    }
    while i < n
        invariant
            sl == sep@.len(),
            1 <= sl,
            n == s@.len(),
            start <= i <= n,
            forall|k: int| start <= k < i ==> !match_at(s@, sep@, k),
            spec_split_sub(s@, sep@) =~= res@.map_values(|x: String| x@) + spec_split_sub(
                s@.subrange(start as int, n as int),
                sep@,
            ),
        decreases n - i,
    {
        if sl <= n - i && match_at_exec(s, sep, i) {
            let token = s.substring_char(start, i);
            proof {
                let seg = s@.subrange(start as int, n as int);
                assert(seg.subrange(i - start, i - start + sep@.len()) =~= s@.subrange(
                    i as int,
                    i + sep@.len(),
                ));
                assert(match_at(seg, sep@, i - start));
                assert forall|k: int| 0 <= k < i - start implies !match_at(seg, sep@, k) by {
                    if k + sep@.len() <= seg.len() {
                        assert(seg.subrange(k, k + sep@.len()) =~= s@.subrange(
                            start + k,
                            start + k + sep@.len(),
                        ));
                        assert(!match_at(s@, sep@, start + k));
                    }
                }
                lemma_find_sub_value(seg, sep@, i - start);
                assert(seg.subrange(0, i - start) =~= token@);
                assert(seg.subrange(i - start + sep@.len(), seg.len() as int) =~= s@.subrange(
                    i + sl,
                    n as int,
                ));
                assert(spec_split_sub(seg, sep@) =~= seq![token@] + spec_split_sub(
                    s@.subrange(i + sl, n as int),
                    sep@,
                ));
            }
            res.push(String::from_str(token));
            proof {
                assert(res@.map_values(|x: String| x@) =~= res@.subrange(
                    0,
                    res@.len() - 1,
                ).map_values(|x: String| x@).push(token@));
            }
            start = i + sl;
            i = i + sl;
        } else {
            proof {
                if sl <= n - i {
                } else {
                    assert(!match_at(s@, sep@, i as int));
                }
            }
            i += 1;
        }
    }
    let tail = s.substring_char(start, n);
    proof {
        let seg = s@.subrange(start as int, n as int);
        assert forall|k: int|
            0 <= k && k + sep@.len() <= seg.len() implies #[trigger] seg.subrange(
            k,
            k + sep@.len(),
        ) != sep@ by {
            assert(seg.subrange(k, k + sep@.len()) =~= s@.subrange(
                start + k,
                start + k + sep@.len(),
            ));
            assert(!match_at(s@, sep@, start + k));
        }
        lemma_split_sub_whole(seg, sep@);
        assert(seg =~= tail@);
    }
    res.push(String::from_str(tail));
    proof {
        assert(res@.map_values(|x: String| x@) =~= res@.subrange(0, res@.len() - 1).map_values(
            |x: String| x@,
        ).push(tail@));
    }
    res
}

/// The lines of a content sequence: pieces between `'\n'` characters, with
/// no extra empty line contributed by a final newline.
/// A newline-terminated line with its trailing carriage return removed,
/// so that texts with carriage-return line endings split the same way as
/// plain ones.
pub open spec fn strip_cr(l: Seq<char>) -> Seq<char> {
    if l.len() > 0 && l.last() == '\r' {
        l.drop_last()
    } else {
        l
    }
}

pub open spec fn spec_lines(s: Seq<char>) -> Seq<Seq<char>> {
    if s.len() == 0 {
        Seq::empty()
    } else if s.last() == '\n' {
        spec_split_sub(s.drop_last(), seq!['\n']).map_values(|l: Seq<char>| strip_cr(l))
    } else {
        let raw = spec_split_sub(s, seq!['\n']);
        Seq::new(
            raw.len(),
            |j: int|
                if j < raw.len() - 1 {
                    strip_cr(raw[j])
                } else {
                    raw[j]
                },
        )
    }
}

/// Splits content into lines: pieces between newlines, a trailing
/// carriage return removed from each newline-terminated piece, and no
/// empty piece contributed by a final newline.
pub fn split_lines(content: &str) -> (r: Vec<String>)
    ensures
        r@.map_values(|x: String| x@) == spec_lines(content@),
{
    proof {
        reveal_strlit("\n");
        assert("\n"@ =~= seq!['\n']);
    }
    let n = content.unicode_len();
    if n == 0 {
        let r: Vec<String> = Vec::new();
        proof {
            assert(r@.map_values(|x: String| x@) =~= spec_lines(content@));
        }
        return r;
    }
    let ends_nl = content.get_char(n - 1) == '\n';
    let pieces = if ends_nl {
        let body = content.substring_char(0, n - 1);
        proof {
            assert(body@ =~= content@.drop_last());
        }
        split_substr(body, "\n")
    } else {
        split_substr(content, "\n")
    };
    let ghost raw = pieces@.map_values(|x: String| x@);
    let m = pieces.len();
    proof {
        assert(spec_lines(content@).len() == m);
    }
    let mut out: Vec<String> = Vec::new();
    let mut j: usize = 0;
    while j < m
        invariant
            0 <= j <= m,
            m == pieces@.len(),
            m >= 1,
            raw == pieces@.map_values(|x: String| x@),
            spec_lines(content@) == (if ends_nl {
                raw.map_values(|l: Seq<char>| strip_cr(l))
            } else {
                Seq::new(
                    raw.len(),
                    |k: int|
                        if k < raw.len() - 1 {
                            strip_cr(raw[k])
                        } else {
                            raw[k]
                        },
                )
            }),
            out@.map_values(|x: String| x@) =~= spec_lines(content@).subrange(0, j as int),
        decreases m - j,
    {
        let piece = &pieces[j];
        let pn = piece.as_str().unicode_len();
        let strip_this = ends_nl || j + 1 < m;
        let line = if strip_this && pn > 0 && piece.as_str().get_char(pn - 1) == '\r' {
            let shorter = piece.as_str().substring_char(0, pn - 1);
            proof {
                assert(shorter@ =~= strip_cr(piece@));
            }
            String::from_str(shorter)
        } else {
            proof {
                if strip_this {
                    assert(strip_cr(piece@) =~= piece@);
                }
            }
            piece.clone()
        };
        proof {
            assert(line@ == spec_lines(content@)[j as int]);
        }
        out.push(line);
        proof {
            assert(out@.map_values(|x: String| x@) =~= out@.subrange(0, out@.len() - 1).map_values(
                |x: String| x@,
            ).push(line@));
            assert(spec_lines(content@).subrange(0, j + 1) =~= spec_lines(content@).subrange(
                0,
                j as int,
            ).push(spec_lines(content@)[j as int]));
            assert(out@.map_values(|x: String| x@) =~= spec_lines(content@).subrange(0, j + 1));
        }
        j += 1;
    }
    proof {
        assert(spec_lines(content@).subrange(0, m as int) =~= spec_lines(content@));
    }
    out
}

/// The sequences of `ls` joined by the separator character.
pub open spec fn spec_join(ls: Seq<Seq<char>>, sep: char) -> Seq<char>
    decreases ls.len(),
{
    if ls.len() == 0 {
        Seq::empty()
    } else if ls.len() == 1 {
        ls[0]
    } else {
        ls[0] + seq![sep] + spec_join(ls.drop_first(), sep)
    }
}

pub proof fn lemma_join_push(ls: Seq<Seq<char>>, x: Seq<char>, sep: char)
    ensures
        spec_join(ls.push(x), sep) =~= if ls.len() == 0 {
            x
        } else {
            spec_join(ls, sep) + seq![sep] + x
        },
    decreases ls.len(),
{
    if ls.len() == 0 {
        assert(ls.push(x).len() == 1);
        assert(spec_join(ls.push(x), sep) == ls.push(x)[0]);
    } else if ls.len() == 1 {
        assert(ls.push(x).drop_first() =~= seq![x]);
        assert(ls.push(x)[0] == ls[0]);
        assert(spec_join(seq![x], sep) == x);
        assert(spec_join(ls.push(x), sep) =~= ls[0] + seq![sep] + x);
    } else {
        lemma_join_push(ls.drop_first(), x, sep);
        assert(ls.push(x).drop_first() =~= ls.drop_first().push(x));
    }
}

/// Joins lines with `'\n'`, without a trailing newline.
pub fn join_lines(lines: &Vec<String>) -> (r: String)
    ensures
        r@ == spec_join(lines@.map_values(|x: String| x@), '\n'),
{
    proof {
        reveal_strlit("\n");
        assert("\n"@ =~= seq!['\n']);
    }
    let mut acc = String::new();
    let mut idx: usize = 0;
    while idx < lines.len()
        invariant
            0 <= idx <= lines@.len(),
            acc@ == spec_join(lines@.map_values(|x: String| x@).subrange(0, idx as int), '\n'),
        decreases lines@.len() - idx,
    {
        let ghost acc_before = acc@;
        if idx > 0 {
            acc.append("\n");
        }
        acc.append(lines[idx].as_str());
        proof {
            reveal_strlit("\n");
            assert("\n"@ =~= seq!['\n']);
            let views = lines@.map_values(|x: String| x@);
            assert(views.subrange(0, idx + 1) =~= views.subrange(0, idx as int).push(
                views[idx as int],
            ));
            lemma_join_push(views.subrange(0, idx as int), views[idx as int], '\n');
            if idx == 0 {
                assert(views.subrange(0, 0).len() == 0);
                assert(acc_before.len() == 0);
                assert(acc@ =~= views[idx as int]);
                assert(acc@ =~= spec_join(views.subrange(0, idx + 1), '\n'));
            } else {
                assert(acc@ =~= acc_before + seq!['\n'] + views[idx as int]);
                assert(acc@ =~= spec_join(views.subrange(0, idx + 1), '\n'));
            }
        }
        idx += 1;
    }
    proof {
        assert(lines@.map_values(|x: String| x@).subrange(0, lines@.len() as int) =~= lines@
            .map_values(|x: String| x@));
    }
    acc
}

/// Character-wise string slice equality.
pub fn str_eq(a: &str, b: &str) -> (r: bool)
    ensures
        r == (a@ == b@),
{
    let al = a.unicode_len();
    let bl = b.unicode_len();
    if al != bl {
        return false;
    }
    let mut i: usize = 0;
    while i < al
        invariant
            0 <= i <= al,
            al == a@.len(),
            al == b@.len(),
            forall|k: int| 0 <= k < i ==> a@[k] == b@[k],
        decreases al - i,
    {
        if a.get_char(i) != b.get_char(i) {
            return false;
        }
        i += 1;
    }
    proof {
        assert(a@ =~= b@);
    }
    true
}

/// The Unicode white-space characters, as the `White_Space` property lists
/// them; a line whose characters all satisfy this is a blank line.
pub open spec fn is_ws_char(c: char) -> bool {
    let u = c as u32;
    (0x09 <= u && u <= 0x0d) || u == 0x20 || u == 0x85 || u == 0xa0 || u == 0x1680 || (0x2000 <= u
        && u <= 0x200a) || u == 0x2028 || u == 0x2029 || u == 0x202f || u == 0x205f || u == 0x3000
}

/// Tests a character for white space.
pub fn is_whitespace_char(c: char) -> (r: bool)
    ensures
        r == is_ws_char(c),
{
    let u = c as u32;
    (0x09 <= u && u <= 0x0d) || u == 0x20 || u == 0x85 || u == 0xa0 || u == 0x1680 || (0x2000 <= u
        && u <= 0x200a) || u == 0x2028 || u == 0x2029 || u == 0x202f || u == 0x205f || u == 0x3000
}

/// True of a line made only of white space (or empty).
pub open spec fn spec_blank(s: Seq<char>) -> bool {
    forall|i: int| 0 <= i < s.len() ==> is_ws_char(#[trigger] s[i])
}

/// Tests whether a line is blank: empty or white space only.
pub fn is_blank_line(line: &str) -> (r: bool)
    ensures
        r == spec_blank(line@),
{
    let n = line.unicode_len();
    let mut i: usize = 0;
    while i < n
        invariant
            0 <= i <= n,
            n == line@.len(),
            forall|k: int| 0 <= k < i ==> is_ws_char(#[trigger] line@[k]),
        decreases n - i,
    {
        if !is_whitespace_char(line.get_char(i)) {
            return false;
        }
        i += 1;
    }
    true
}

pub open spec fn spec_trim_front(s: Seq<char>) -> Seq<char>
    decreases s.len(),
{
    if s.len() > 0 && is_ws_char(s[0]) {
        spec_trim_front(s.drop_first())
    } else {
        s
    }
}

pub open spec fn spec_trim_back(s: Seq<char>) -> Seq<char>
    decreases s.len(),
{
    if s.len() > 0 && is_ws_char(s.last()) {
        spec_trim_back(s.drop_last())
    } else {
        s
    }
}

/// `s` with leading and trailing white space removed.
pub open spec fn spec_trim(s: Seq<char>) -> Seq<char> {
    spec_trim_back(spec_trim_front(s))
}

/// Removes leading and trailing white space.
pub fn trim_str(s: &str) -> (r: String)
    ensures
        r@ == spec_trim(s@),
{
    let n = s.unicode_len();
    let mut a: usize = 0;
    proof {
        assert(s@.subrange(0, n as int) =~= s@);
    }
    while a < n && is_whitespace_char(s.get_char(a))
        invariant
            0 <= a <= n,
            n == s@.len(),
            spec_trim_front(s@) == spec_trim_front(s@.subrange(a as int, n as int)),
        decreases n - a,
    {
        proof {
            assert(s@.subrange(a as int, n as int).drop_first() =~= s@.subrange(
                a + 1,
                n as int,
            ));
        }
        a += 1;
    }
    proof {
        assert(spec_trim_front(s@) == s@.subrange(a as int, n as int));
    }
    let mut b: usize = n;
    while b > a && is_whitespace_char(s.get_char(b - 1))
        invariant
            a <= b <= n,
            n == s@.len(),
            spec_trim_front(s@) == s@.subrange(a as int, n as int),
            spec_trim_back(s@.subrange(a as int, n as int)) == spec_trim_back(
                s@.subrange(a as int, b as int),
            ),
        decreases b,
    {
        proof {
            assert(s@.subrange(a as int, b as int).drop_last() =~= s@.subrange(
                a as int,
                b - 1,
            ));
        }
        b -= 1;
    }
    proof {
        assert(spec_trim_back(s@.subrange(a as int, b as int)) == s@.subrange(a as int, b as int));
    }
    let piece = s.substring_char(a, b);
    String::from_str(piece)
}

/// True of a decimal digit character.
pub open spec fn is_digit(c: char) -> bool {
    48 <= c as u32 && c as u32 <= 57
}

/// The numeric value of a digit character.
pub open spec fn digit_val(c: char) -> int {
    c as u32 - 48
}

pub open spec fn all_digits(s: Seq<char>) -> bool {
    forall|i: int| 0 <= i < s.len() ==> is_digit(#[trigger] s[i])
}

/// The value of a digit string read in base ten.
pub open spec fn dec_val(s: Seq<char>) -> int
    decreases s.len(),
{
    if s.len() == 0 {
        0
    } else {
        dec_val(s.drop_last()) * 10 + digit_val(s.last())
    }
}

/// The digits of a number, after an optional leading plus sign.
pub open spec fn parse_body(s: Seq<char>) -> Seq<char> {
    if s.len() > 0 && s[0] == '+' {
        s.drop_first()
    } else {
        s
    }
}

/// True when `s` is a well-formed unsigned decimal that fits in `usize`:
/// an optional `+`, then one or more digits, valued at most `usize::MAX`.
pub open spec fn parses_as_usize(s: Seq<char>) -> bool {
    let b = parse_body(s);
    b.len() >= 1 && all_digits(b) && dec_val(b) <= usize::MAX
}

/// What parsing `s` as a `usize` yields.
pub open spec fn spec_parse_usize(s: Seq<char>) -> Option<usize> {
    if parses_as_usize(s) {
        Some(dec_val(parse_body(s)) as usize)
    } else {
        None
    }
}

pub proof fn lemma_dec_val_nonneg(s: Seq<char>)
    requires
        all_digits(s),
    ensures
        dec_val(s) >= 0,
    decreases s.len(),
{
    if s.len() > 0 {
        assert(all_digits(s.drop_last())) by {
            assert(forall|i: int| 0 <= i < s.len() - 1 ==> s.drop_last()[i] == s[i]);
        }
        lemma_dec_val_nonneg(s.drop_last());
        assert(dec_val(s.drop_last()) * 10 >= 0) by (nonlinear_arith)
            requires
                dec_val(s.drop_last()) >= 0,
        ;
    }
}

pub proof fn lemma_dec_val_extend(t: Seq<char>, k: int)
    requires
        0 <= k < t.len(),
    ensures
        dec_val(t.subrange(0, k + 1)) == dec_val(t.subrange(0, k)) * 10 + digit_val(t[k]),
{
    assert(t.subrange(0, k + 1).drop_last() =~= t.subrange(0, k));
    assert(t.subrange(0, k + 1).last() == t[k]);
}

/// A digit string is worth at least any of its prefixes.
pub proof fn lemma_dec_val_monotone(t: Seq<char>, k: int)
    requires
        all_digits(t),
        0 <= k <= t.len(),
    ensures
        dec_val(t) >= dec_val(t.subrange(0, k)),
    decreases t.len() - k,
{
    if k == t.len() {
        assert(t.subrange(0, k) =~= t);
    } else {
        lemma_dec_val_extend(t, k);
        assert(all_digits(t.subrange(0, k))) by {
            assert(forall|i: int| 0 <= i < k ==> t.subrange(0, k)[i] == t[i]);
        }
        lemma_dec_val_nonneg(t.subrange(0, k));
        let v = dec_val(t.subrange(0, k));
        assert(v * 10 >= v) by (nonlinear_arith)
            requires
                v >= 0,
        ;
        lemma_dec_val_monotone(t, k + 1);
    }
}

/// Parses an unsigned decimal, mirroring how `usize` is read from text:
/// an optional leading `+`, then digits, rejecting overflow.
pub fn parse_usize(s: &str) -> (r: Option<usize>)
    ensures
        r == spec_parse_usize(s@),
{
    let n = s.unicode_len();
    let mut i: usize = 0;
    if n > 0 && s.get_char(0) == '+' {
        i = 1;
    }
    let start = i;
    proof {
        assert(parse_body(s@) =~= s@.subrange(start as int, n as int));
    }
    if i >= n {
        return None;
    }
    let ghost body = s@.subrange(start as int, n as int);
    let mut acc: usize = 0;
    while i < n
        invariant
            start <= i <= n,
            n == s@.len(),
            n > start,
            body == s@.subrange(start as int, n as int),
            body == parse_body(s@),
            all_digits(body.subrange(0, i - start)),
            acc == dec_val(body.subrange(0, i - start)),
        decreases n - i,
    {
        let c = s.get_char(i);
        let u = c as u32;
        if u < 48 || u > 57 {
            proof {
                assert(body[i - start] == s@[i as int]);
                assert(!is_digit(body[i - start]));
            }
            return None;
        }
        let d = (u - 48) as usize;
        proof {
            assert(body.subrange(0, i - start + 1) =~= body.subrange(0, i - start).push(
                body[i - start],
            ));
            assert(all_digits(body.subrange(0, i - start + 1)));
            lemma_dec_val_extend(body, i - start);
        }
        if acc > usize::MAX / 10 {
            proof {
                assert(acc * 10 > usize::MAX) by (nonlinear_arith)
                    requires
                        acc > usize::MAX / 10,
                        acc >= 0,
                ;
                if all_digits(body) {
                    lemma_dec_val_monotone(body, i - start + 1);
                    assert(digit_val(body[i - start]) >= 0);
                    assert(dec_val(body) > usize::MAX);
                }
            }
            return None;
        }
        let shifted = acc * 10;
        if shifted > usize::MAX - d {
            proof {
                if all_digits(body) {
                    lemma_dec_val_monotone(body, i - start + 1);
                    assert(dec_val(body) > usize::MAX);
                }
            }
            return None;
        }
        acc = shifted + d;
        i += 1;
    }
    proof {
        assert(body.subrange(0, n - start) =~= body);
    }
    Some(acc)
}

/// The character of one decimal digit.
pub open spec fn spec_dec_digit(d: int) -> char {
    if d == 0 {
        '0'
    } else if d == 1 {
        '1'
    } else if d == 2 {
        '2'
    } else if d == 3 {
        '3'
    } else if d == 4 {
        '4'
    } else if d == 5 {
        '5'
    } else if d == 6 {
        '6'
    } else if d == 7 {
        '7'
    } else if d == 8 {
        '8'
    } else {
        '9'
    }
}

/// The decimal digit string of a non-negative number.
pub open spec fn spec_dec_string(n: int) -> Seq<char>
    decreases n,
{
    if n < 0 {
        Seq::empty()
    } else if n < 10 {
        seq![spec_dec_digit(n)]
    } else {
        spec_dec_string(n / 10) + seq![spec_dec_digit(n % 10)]
    }
}

fn digit_string(d: u64) -> (r: String)
    requires
        d < 10,
    ensures
        r@ == seq![spec_dec_digit(d as int)],
{
    proof {
        reveal_strlit("0");
        reveal_strlit("1");
        reveal_strlit("2");
        reveal_strlit("3");
        reveal_strlit("4");
        reveal_strlit("5");
        reveal_strlit("6");
        reveal_strlit("7");
        reveal_strlit("8");
        reveal_strlit("9");
    }
    let r = if d == 0 {
        "0"
    } else if d == 1 {
        "1"
    } else if d == 2 {
        "2"
    } else if d == 3 {
        "3"
    } else if d == 4 {
        "4"
    } else if d == 5 {
        "5"
    } else if d == 6 {
        "6"
    } else if d == 7 {
        "7"
    } else if d == 8 {
        "8"
    } else {
        "9"
    };
    proof {
        assert(r@ =~= seq![spec_dec_digit(d as int)]);
    }
    String::from_str(r)
}

/// Formats a number in decimal.
pub fn u64_to_dec(n: u64) -> (r: String)
    ensures
        r@ == spec_dec_string(n as int),
    decreases n,
{
    if n < 10 {
        digit_string(n)
    } else {
        let mut s = u64_to_dec(n / 10);
        let tail = digit_string(n % 10);
        s.append(tail.as_str());
        s
    }
}

/// Relies on String::push: appends exactly one character at the end.
#[verifier::external_body]
pub fn push_char(s: &mut String, c: char)
    ensures
        final(s)@ == old(s)@.push(c),
{
    s.push(c);
}

/// Formats a machine-word count in decimal.
pub fn usize_to_dec(n: usize) -> (r: String)
    ensures
        r@ == spec_dec_string(n as int),
{
    u64_to_dec(n as u64)
}

/// Leading `v` or `V` markers stripped from a version text.
pub open spec fn spec_trim_version_prefix(s: Seq<char>) -> Seq<char>
    decreases s.len(),
{
    if s.len() > 0 && (s[0] == 'v' || s[0] == 'V') {
        spec_trim_version_prefix(s.drop_first())
    } else {
        s
    }
}

/// An ASCII upper-case letter folded to lower case; anything else as is.
pub open spec fn spec_lower_char(c: char) -> char {
    if 65 <= c as u32 && c as u32 <= 90 {
        ((c as u8) + 32) as char
    } else {
        c
    }
}

/// Only the ASCII characters of a text, each folded to lower case.
pub open spec fn spec_lower_ascii(s: Seq<char>) -> Seq<char>
    decreases s.len(),
{
    if s.len() == 0 {
        Seq::empty()
    } else {
        (if (s[0] as u32) < 128 {
            seq![spec_lower_char(s[0])]
        } else {
            Seq::<char>::empty()
        }) + spec_lower_ascii(s.drop_first())
    }
}

/// A version text in canonical comparison form: surrounding white space
/// and leading version markers dropped, non-ASCII characters removed, and
/// letters folded to lower case.
pub open spec fn spec_normalized_version(s: Seq<char>) -> Seq<char> {
    spec_lower_ascii(spec_trim_version_prefix(spec_trim(s)))
}

/// Normalizes a version text for comparison.
pub fn normalize_version(version: &str) -> (r: String)
    ensures
        r@ == spec_normalized_version(version@),
{
    let trimmed = trim_str(version);
    let n = trimmed.as_str().unicode_len();
    let mut a: usize = 0;
    proof {
        assert(trimmed@.subrange(0, n as int) =~= trimmed@);
    }
    while a < n && (trimmed.as_str().get_char(a) == 'v' || trimmed.as_str().get_char(a) == 'V')
        invariant
            0 <= a <= n,
            n == trimmed@.len(),
            spec_trim_version_prefix(trimmed@) == spec_trim_version_prefix(
                trimmed@.subrange(a as int, n as int),
            ),
        decreases n - a,
    {
        proof {
            assert(trimmed@.subrange(a as int, n as int).drop_first() =~= trimmed@.subrange(
                a + 1,
                n as int,
            ));
        }
        a += 1;
    }
    proof {
        assert(spec_trim_version_prefix(trimmed@) == trimmed@.subrange(a as int, n as int));
    }
    let ghost rest = trimmed@.subrange(a as int, n as int);
    let mut out = String::new();
    let mut i: usize = a;
    proof {
        assert(rest.subrange(0, rest.len() as int) =~= rest);
    }
    while i < n
        invariant
            a <= i <= n,
            n == trimmed@.len(),
            rest == trimmed@.subrange(a as int, n as int),
            spec_lower_ascii(rest) == out@ + spec_lower_ascii(
                trimmed@.subrange(i as int, n as int),
            ),
        decreases n - i,
    {
        let c = trimmed.as_str().get_char(i);
        proof {
            assert(trimmed@.subrange(i as int, n as int)[0] == trimmed@[i as int]);
            assert(trimmed@.subrange(i as int, n as int).drop_first() =~= trimmed@.subrange(
                i + 1,
                n as int,
            ));
        }
        let u = c as u32;
        if u < 128 {
            let lc = if 65 <= u && u <= 90 {
                ((c as u8) + 32) as char
            } else {
                c
            };
            push_char(&mut out, lc);
        }
        i += 1;
    }
    proof {
        assert(spec_lower_ascii(trimmed@.subrange(n as int, n as int)) =~= Seq::<char>::empty());
        assert(out@ =~= spec_lower_ascii(rest));
    }
    out
}

} // verus!
