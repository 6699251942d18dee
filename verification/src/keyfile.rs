//! `key = value` configuration files, as Ghostty and Helix write them:
//! finding the line that assigns the theme and setting it.
use vstd::prelude::*;

use crate::text::{
    chars_of, find_char, index_of, is_ws, join, lemma_index_of_at, lemma_lines_of_newline_free,
    lemma_lines_of_terminated, lemma_trim_end_at, lemma_trim_end_prefix, lemma_trim_start_at,
    lemma_trim_strip_cr, line_ranges, lines_of, newline_free, ranges_match, strip_cr, trim,
    trimmed_range,
};

verus! {

broadcast use vstd::string::group_string_axioms;

/// The key that names the theme.
pub open spec fn theme_key() -> Seq<char> {
    seq!['t', 'h', 'e', 'm', 'e']
}

/// A line that assigns the theme: trimmed, it is no `#` comment, and the
/// text before its first `=`, trimmed, is `theme`.
pub open spec fn is_theme_assignment(line: Seq<char>) -> bool {
    let t = trim(line);
    &&& !(t.len() > 0 && t[0] == '#')
    &&& match index_of(t, '=') {
        Some(k) => trim(t.take(k)) == theme_key(),
        None => false,
    }
}

/// The index of the first line that assigns the theme.
pub open spec fn first_theme_assignment(ls: Seq<Seq<char>>) -> Option<int>
    decreases ls.len(),
{
    if ls.len() == 0 {
        None
    } else if is_theme_assignment(ls[0]) {
        Some(0)
    } else {
        match first_theme_assignment(ls.drop_first()) {
            Some(k) => Some(k + 1),
            None => None,
        }
    }
}

/// The lines with the first theme assignment replaced by `line`, or with
/// `line` appended when none assigns the theme.
pub open spec fn with_theme_line(ls: Seq<Seq<char>>, line: Seq<char>) -> Seq<Seq<char>> {
    match first_theme_assignment(ls) {
        Some(i) => ls.update(i, line),
        None => ls.push(line),
    }
}

/// Lines written out: joined by newlines, with a final newline.
pub open spec fn render_lines(ls: Seq<Seq<char>>) -> Seq<char> {
    join(ls, seq!['\n']) + seq!['\n']
}

/// The configuration text `contents` with its theme line set to `line`.
pub open spec fn with_theme(contents: Seq<char>, line: Seq<char>) -> Seq<char> {
    render_lines(with_theme_line(lines_of(contents), line))
}

/// `first_theme_assignment` finds the first assignment.
pub proof fn lemma_first_theme_assignment_at(ls: Seq<Seq<char>>, k: int)
    requires
        0 <= k <= ls.len(),
        forall|i: int| 0 <= i < k ==> !is_theme_assignment(#[trigger] ls[i]),
        k == ls.len() || is_theme_assignment(ls[k]),
    ensures
        first_theme_assignment(ls) == (if k == ls.len() { None } else { Some(k) }),
    decreases k,
{
    if k > 0 {
        let t = ls.drop_first();
        assert forall|i: int| 0 <= i < k - 1 implies !is_theme_assignment(#[trigger] t[i]) by {
            assert(t[i] == ls[i + 1]);
        }
        lemma_first_theme_assignment_at(t, k - 1);
    }
}

/// What `first_theme_assignment` gives, stated without recursion.
pub proof fn lemma_first_theme_assignment(ls: Seq<Seq<char>>)
    ensures
        match first_theme_assignment(ls) {
            Some(k) => 0 <= k < ls.len() && is_theme_assignment(ls[k]) && forall|i: int|
                0 <= i < k ==> !is_theme_assignment(#[trigger] ls[i]),
            None => forall|i: int| 0 <= i < ls.len() ==> !is_theme_assignment(#[trigger] ls[i]),
        },
    decreases ls.len(),
{
    if ls.len() > 0 && !is_theme_assignment(ls[0]) {
        let t = ls.drop_first();
        lemma_first_theme_assignment(t);
        match first_theme_assignment(t) {
            Some(k) => {
                assert forall|i: int| 0 <= i < k + 1 implies !is_theme_assignment(#[trigger] ls[i]) by {
                    if i > 0 {
                        assert(ls[i] == t[i - 1]);
                    }
                }
            },
            None => {
                assert forall|i: int| 0 <= i < ls.len() implies !is_theme_assignment(#[trigger] ls[i]) by {
                    if i > 0 {
                        assert(ls[i] == t[i - 1]);
                    }
                }
            },
        }
    }
}

/// Whether `cs[start..end]` assigns the theme.
fn is_theme_assignment_in(cs: &Vec<char>, start: usize, end: usize) -> (b: bool)
    requires
        start <= end <= cs.len(),
    ensures
        b == is_theme_assignment(cs@.subrange(start as int, end as int)),
{
    let ghost line = cs@.subrange(start as int, end as int);
    let (a, b) = trimmed_range(cs, start, end);
    let ghost t = cs@.subrange(a as int, b as int);
    if a < b && cs[a] == '#' {
        return false;
    }
    let k = find_char(cs, a, b, '=');
    if k == b {
        return false;
    }
    assert(t.take(k - a) =~= cs@.subrange(a as int, k as int));
    let (ka, kb) = trimmed_range(cs, a, k);
    let ghost key = cs@.subrange(ka as int, kb as int);
    if kb - ka != 5 {
        assert(key.len() != theme_key().len());
        return false;
    }
    let r = cs[ka] == 't' && cs[ka + 1] == 'h' && cs[ka + 2] == 'e' && cs[ka + 3] == 'm' && cs[ka
        + 4] == 'e';
    if r {
        assert(key =~= theme_key());
    } else {
        assert(key[0] != 't' || key[1] != 'h' || key[2] != 'e' || key[3] != 'm' || key[4] != 'e');
        assert(key != theme_key());
    }
    r
}

/// One step of building a joined text: the first `i + 1` pieces joined.
proof fn lemma_join_step(ls: Seq<Seq<char>>, i: int)
    requires
        0 <= i < ls.len(),
    ensures
        join(ls.take(i + 1), seq!['\n']) == if i == 0 {
            ls[0]
        } else {
            join(ls.take(i), seq!['\n']) + seq!['\n'] + ls[i]
        },
{
    let p = ls.take(i + 1);
    assert(p.drop_last() =~= ls.take(i));
    assert(p.last() == ls[i]);
}

/// A table header of a TOML file: trimmed, the line starts with `[`.
pub open spec fn is_table_header(line: Seq<char>) -> bool {
    let t = trim(line);
    t.len() > 0 && t[0] == '['
}

/// The index of the first table header, or the number of lines when there
/// is none: the lines before it are the top level of a TOML file.
pub open spec fn table_header_index(ls: Seq<Seq<char>>) -> int
    decreases ls.len(),
{
    if ls.len() == 0 {
        0
    } else if is_table_header(ls[0]) {
        0
    } else {
        1 + table_header_index(ls.drop_first())
    }
}

pub proof fn lemma_table_header_index_at(ls: Seq<Seq<char>>, k: int)
    requires
        0 <= k <= ls.len(),
        forall|i: int| 0 <= i < k ==> !is_table_header(#[trigger] ls[i]),
        k == ls.len() || is_table_header(ls[k]),
    ensures
        table_header_index(ls) == k,
    decreases k,
{
    if k > 0 {
        let t = ls.drop_first();
        assert forall|i: int| 0 <= i < k - 1 implies !is_table_header(#[trigger] t[i]) by {
            assert(t[i] == ls[i + 1]);
        }
        lemma_table_header_index_at(t, k - 1);
    }
}

/// The lines with the theme line set at the top level of a TOML file: the
/// first assignment before the first table header is replaced, or `line`
/// goes just before that header (at the end when there is none).
pub open spec fn with_top_level_theme_line(ls: Seq<Seq<char>>, line: Seq<char>) -> Seq<Seq<char>> {
    let h = table_header_index(ls);
    with_theme_line(ls.take(h), line) + ls.skip(h)
}

/// The TOML text `contents` with its top-level theme line set to `line`.
pub open spec fn with_top_level_theme(contents: Seq<char>, line: Seq<char>) -> Seq<char> {
    render_lines(with_top_level_theme_line(lines_of(contents), line))
}

/// Whether `cs[start..end]` is a table header.
fn is_table_header_in(cs: &Vec<char>, start: usize, end: usize) -> (b: bool)
    requires
        start <= end <= cs.len(),
    ensures
        b == is_table_header(cs@.subrange(start as int, end as int)),
{
    let (a, b) = trimmed_range(cs, start, end);
    a < b && cs[a] == '['
}

/// What the lines look like once the theme line is placed among the first
/// `h` lines: replaced at the first assignment there, or put at `h`.
proof fn lemma_placed_lines(ls: Seq<Seq<char>>, line: Seq<char>, h: int)
    requires
        0 <= h <= ls.len(),
    ensures
        ({
            let t = with_theme_line(ls.take(h), line) + ls.skip(h);
            match first_theme_assignment(ls.take(h)) {
                Some(j) => 0 <= j < h && t.len() == ls.len() && forall|k: int|
                    0 <= k < t.len() ==> #[trigger] t[k] == if k == j {
                        line
                    } else {
                        ls[k]
                    },
                None => t.len() == ls.len() + 1 && forall|k: int|
                    0 <= k < t.len() ==> #[trigger] t[k] == if k < h {
                        ls[k]
                    } else if k == h {
                        line
                    } else {
                        ls[k - 1]
                    },
            }
        }),
{
    lemma_first_theme_assignment(ls.take(h));
}

/// Sets the theme line of the configuration text `contents` to `line`.
/// Without `tables`, the first line that assigns the theme is replaced, or
/// `line` is appended when none does. With `tables`, only the top level of
/// a TOML file counts: the first assignment before the first table header
/// is replaced, or `line` goes just before that header. The lines are
/// written back joined by newlines with a final newline.
pub fn set_theme_line(contents: &str, line: &str, tables: bool) -> (r: String)
    ensures
        r@ == if tables {
            with_top_level_theme(contents@, line@)
        } else {
            with_theme(contents@, line@)
        },
{
    let cs = chars_of(contents);
    let ranges = line_ranges(&cs);
    let ghost ls = lines_of(contents@);
    let n = ranges.len();
    let mut h: usize = n;
    if tables {
        h = 0;
        while h < n && !is_table_header_in(&cs, ranges[h].0, ranges[h].1)
            invariant
                n == ranges.len(),
                cs@ == contents@,
                ranges_match(cs@, ranges@, ls),
                h <= n,
                forall|i: int| 0 <= i < h ==> !is_table_header(#[trigger] ls[i]),
            decreases n - h,
        {
            h = h + 1;
        }
        proof {
            lemma_table_header_index_at(ls, h as int);
        }
    }
    let mut j: usize = 0;
    while j < h && !is_theme_assignment_in(&cs, ranges[j].0, ranges[j].1)
        invariant
            n == ranges.len(),
            h <= n,
            cs@ == contents@,
            ranges_match(cs@, ranges@, ls),
            j <= h,
            forall|i: int| 0 <= i < j ==> !is_theme_assignment(#[trigger] ls[i]),
        decreases h - j,
    {
        j = j + 1;
    }
    let ghost top = ls.take(h as int);
    proof {
        assert forall|i: int| 0 <= i < j implies !is_theme_assignment(#[trigger] top[i]) by {
            assert(top[i] == ls[i]);
        }
        if j < h {
            assert(top[j as int] == ls[j as int]);
        }
        lemma_first_theme_assignment_at(top, j as int);
        lemma_placed_lines(ls, line@, h as int);
    }
    let ghost target = with_theme_line(top, line@) + ls.skip(h as int);
    let mut out = String::new();
    let mut k: usize = 0;
    assert(target.take(0) =~= Seq::<Seq<char>>::empty());
    while k < n
        invariant
            n == ranges.len(),
            n == ls.len(),
            h <= n,
            j <= h,
            target.len() == (if j < h { n as int } else { n + 1 }),
            k <= n,
            cs@ == contents@,
            ranges_match(cs@, ranges@, ls),
            forall|q: int|
                0 <= q < target.len() ==> #[trigger] target[q] == if j < h {
                    if q == j {
                        line@
                    } else {
                        ls[q]
                    }
                } else if q < h {
                    ls[q]
                } else if q == h {
                    line@
                } else {
                    ls[q - 1]
                },
            out@ == join(target.take(k as int), seq!['\n']),
        decreases n - k,
    {
        proof {
            lemma_join_step(target, k as int);
            reveal_strlit("\n");
        }
        if k > 0 {
            out.append("\n");
        }
        if (j < h && k == j) || (j == h && k == h) {
            assert(target[k as int] == line@);
            out.append(line);
        } else {
            let src: usize = if j == h && k > h { k - 1 } else { k };
            assert(target[k as int] == ls[src as int]);
            let piece = contents.substring_char(ranges[src].0, ranges[src].1);
            assert(piece@ == ls[src as int]);
            out.append(piece);
        }
        k = k + 1;
    }
    proof {
        reveal_strlit("\n");
    }
    if j == h {
        proof {
            lemma_join_step(target, n as int);
        }
        if n > 0 {
            out.append("\n");
        }
        if h == n {
            assert(target[n as int] == line@);
            out.append(line);
        } else {
            assert(target[n as int] == ls[n - 1]);
            let piece = contents.substring_char(ranges[n - 1].0, ranges[n - 1].1);
            out.append(piece);
        }
        assert(target.take(n + 1) =~= target);
    } else {
        assert(target.take(n as int) =~= target);
    }
    out.append("\n");
    proof {
        if !tables {
            assert(top =~= ls);
            assert(ls.skip(n as int) =~= Seq::<Seq<char>>::empty());
            assert(target =~= with_theme_line(ls, line@));
        }
    }
    out
}

/// The text `theme = ` that starts an assignment of the theme.
pub open spec fn assignment_prefix() -> Seq<char> {
    seq!['t', 'h', 'e', 'm', 'e', ' ', '=', ' ']
}

/// Every line that starts with `theme = ` assigns the theme, whatever
/// follows.
pub proof fn lemma_prefixed_line_assigns(x: Seq<char>)
    ensures
        is_theme_assignment(assignment_prefix() + x),
        !is_table_header(assignment_prefix() + x),
{
    let s = assignment_prefix() + x;
    assert(s[0] == 't');
    lemma_trim_start_at(s, 0);
    assert(s.subrange(0, s.len() as int) =~= s);
    lemma_trim_end_prefix(s);
    assert(s[6] == '=');
    assert(!is_ws(s[6]));
    let t = trim(s);
    assert(t.len() >= 7);
    assert(t[0] == 't');
    assert forall|i: int| 0 <= i < 6 implies #[trigger] t[i] != '=' by {
        assert(t[i] == s[i]);
    }
    lemma_index_of_at(t, '=', 6);
    let key = t.take(6);
    assert(key =~= seq!['t', 'h', 'e', 'm', 'e', ' ']);
    lemma_trim_start_at(key, 0);
    assert(key.subrange(0, 6) =~= key);
    lemma_trim_end_at(key, 5);
    assert(key.take(5) =~= theme_key());
}

/// Assignment lines are recognised alike with or without a trailing
/// carriage return.
pub proof fn lemma_assignment_strip_cr(l: Seq<char>)
    ensures
        is_theme_assignment(strip_cr(l)) == is_theme_assignment(l),
{
    lemma_trim_strip_cr(l);
}

/// The first assignment does not move when carriage returns are stripped.
proof fn lemma_first_assignment_strip_cr(ls: Seq<Seq<char>>)
    ensures
        first_theme_assignment(ls.map_values(|l: Seq<char>| strip_cr(l)))
            == first_theme_assignment(ls),
{
    let q = ls.map_values(|l: Seq<char>| strip_cr(l));
    lemma_first_theme_assignment(ls);
    assert forall|i: int| 0 <= i < ls.len() implies is_theme_assignment(#[trigger] q[i])
        == is_theme_assignment(ls[i]) by {
        lemma_assignment_strip_cr(ls[i]);
    }
    match first_theme_assignment(ls) {
        Some(k) => {
            assert(is_theme_assignment(q[k]));
            lemma_first_theme_assignment_at(q, k);
        },
        None => {
            lemma_first_theme_assignment_at(q, q.len() as int);
        },
    }
}

/// Where the theme line goes: the first assignment, or after the last line.
pub open spec fn theme_line_index(ls: Seq<Seq<char>>) -> int {
    match first_theme_assignment(ls) {
        Some(i) => i,
        None => ls.len() as int,
    }
}

/// The lines with the theme line set have their first assignment where the
/// theme line went.
proof fn lemma_first_assignment_after_set(ls: Seq<Seq<char>>, line: Seq<char>)
    requires
        is_theme_assignment(line),
    ensures
        first_theme_assignment(with_theme_line(ls, line)) == Some(theme_line_index(ls)),
{
    let p = with_theme_line(ls, line);
    let i = theme_line_index(ls);
    lemma_first_theme_assignment(ls);
    assert forall|j: int| 0 <= j < i implies !is_theme_assignment(#[trigger] p[j]) by {
        assert(p[j] == ls[j]);
    }
    assert(p[i] == line);
    lemma_first_theme_assignment_at(p, i);
}

/// The set lines hold no newline when the theme line holds none.
proof fn lemma_set_lines_newline_free(contents: Seq<char>, line: Seq<char>)
    requires
        newline_free(line),
    ensures
        with_theme_line(lines_of(contents), line).len() >= 1,
        forall|j: int|
            0 <= j < with_theme_line(lines_of(contents), line).len() ==> newline_free(
                #[trigger] with_theme_line(lines_of(contents), line)[j],
            ),
{
    let ls = lines_of(contents);
    let p = with_theme_line(ls, line);
    lemma_lines_of_newline_free(contents);
    lemma_first_theme_assignment(ls);
    assert forall|j: int| 0 <= j < p.len() implies newline_free(#[trigger] p[j]) by {
        if j != theme_line_index(ls) {
            assert(p[j] == ls[j]);
        }
    }
}

/// Law: the text written by setting the theme line reads back as the lines
/// it was written from (each without one trailing carriage return, which a
/// line ending swallows).
pub proof fn law_lines_after_setting(contents: Seq<char>, line: Seq<char>)
    requires
        newline_free(line),
    ensures
        lines_of(with_theme(contents, line)) == with_theme_line(lines_of(contents), line).map_values(
            |l: Seq<char>| strip_cr(l),
        ),
{
    lemma_set_lines_newline_free(contents, line);
    lemma_lines_of_terminated(with_theme_line(lines_of(contents), line));
}

/// Law: after the theme line is set, the first line that assigns the theme
/// is the new line, where the old first assignment stood (or after the last
/// line when there was none).
pub proof fn law_theme_line_reads_back(contents: Seq<char>, line: Seq<char>)
    requires
        newline_free(line),
        is_theme_assignment(line),
    ensures
        first_theme_assignment(lines_of(with_theme(contents, line))) == Some(
            theme_line_index(lines_of(contents)),
        ),
        lines_of(with_theme(contents, line))[theme_line_index(lines_of(contents))] == strip_cr(
            line,
        ),
{
    let ls = lines_of(contents);
    let p = with_theme_line(ls, line);
    law_lines_after_setting(contents, line);
    lemma_first_assignment_after_set(ls, line);
    lemma_first_assignment_strip_cr(p);
    lemma_first_theme_assignment(ls);
}

/// No line of the text, except the one that first assigns the theme, ends
/// in a carriage return that a line ending would swallow.
pub open spec fn no_stray_cr(contents: Seq<char>) -> bool {
    let ls = lines_of(contents);
    forall|j: int|
        0 <= j < ls.len() && j != theme_line_index(ls) ==> strip_cr(#[trigger] ls[j]) == ls[j]
}

/// Law: setting the same theme line twice is setting it once.
pub proof fn law_setting_theme_line_is_idempotent(contents: Seq<char>, line: Seq<char>)
    requires
        newline_free(line),
        is_theme_assignment(line),
        no_stray_cr(contents),
    ensures
        with_theme(with_theme(contents, line), line) == with_theme(contents, line),
{
    let ls = lines_of(contents);
    let p = with_theme_line(ls, line);
    let q = lines_of(with_theme(contents, line));
    let i = theme_line_index(ls);
    law_lines_after_setting(contents, line);
    law_theme_line_reads_back(contents, line);
    lemma_first_theme_assignment(ls);
    assert(with_theme_line(q, line) =~= p) by {
        assert forall|j: int| 0 <= j < p.len() implies #[trigger] with_theme_line(q, line)[j]
            == p[j] by {
            if j != i {
                assert(p[j] == ls[j]);
                assert(q[j] == strip_cr(p[j]));
            }
        }
    }
}


/// Where the top level ends: no table header before it, one at it.
pub proof fn lemma_table_header_index(ls: Seq<Seq<char>>)
    ensures
        0 <= table_header_index(ls) <= ls.len(),
        forall|i: int| 0 <= i < table_header_index(ls) ==> !is_table_header(#[trigger] ls[i]),
        table_header_index(ls) < ls.len() ==> is_table_header(ls[table_header_index(ls)]),
    decreases ls.len(),
{
    if ls.len() > 0 && !is_table_header(ls[0]) {
        let t = ls.drop_first();
        lemma_table_header_index(t);
        assert forall|i: int| 0 <= i < table_header_index(ls) implies !is_table_header(#[trigger] ls[i]) by {
            if i > 0 {
                assert(ls[i] == t[i - 1]);
            }
        }
        if table_header_index(ls) < ls.len() {
            assert(ls[table_header_index(ls)] == t[table_header_index(t)]);
        }
    }
}

/// Table headers are recognised alike with or without a trailing carriage
/// return.
proof fn lemma_header_strip_cr(l: Seq<char>)
    ensures
        is_table_header(strip_cr(l)) == is_table_header(l),
{
    lemma_trim_strip_cr(l);
}

/// The facts about the top-level setting that both top-level laws use.
pub proof fn lemma_top_level_read(contents: Seq<char>, line: Seq<char>)
    requires
        newline_free(line),
        is_theme_assignment(line),
        !is_table_header(line),
    ensures
        ({
            let ls = lines_of(contents);
            let h = table_header_index(ls);
            let top = ls.take(h);
            let top2 = with_theme_line(top, line);
            let p = with_top_level_theme_line(ls, line);
            let q = lines_of(with_top_level_theme(contents, line));
            &&& p == top2 + ls.skip(h)
            &&& q == p.map_values(|l: Seq<char>| strip_cr(l))
            &&& table_header_index(q) == top2.len()
            &&& q.take(top2.len() as int) == top2.map_values(|l: Seq<char>| strip_cr(l))
            &&& q.skip(top2.len() as int) == ls.skip(h).map_values(|l: Seq<char>| strip_cr(l))
            &&& first_theme_assignment(top2) == Some(theme_line_index(top))
            &&& first_theme_assignment(q.take(top2.len() as int)) == Some(theme_line_index(top))
            &&& top2[theme_line_index(top)] == line
        }),
{
    let ls = lines_of(contents);
    let h = table_header_index(ls);
    let top = ls.take(h);
    let top2 = with_theme_line(top, line);
    let rest = ls.skip(h);
    let p = with_top_level_theme_line(ls, line);
    lemma_table_header_index(ls);
    lemma_lines_of_newline_free(contents);
    lemma_first_theme_assignment(top);
    lemma_first_assignment_after_set(top, line);
    assert forall|j: int| 0 <= j < p.len() implies newline_free(#[trigger] p[j]) by {
        if j < top2.len() {
            if j != theme_line_index(top) {
                assert(p[j] == ls[j]);
            }
        } else {
            assert(p[j] == ls[h + (j - top2.len())]);
        }
    }
    lemma_lines_of_terminated(p);
    let q = p.map_values(|l: Seq<char>| strip_cr(l));
    assert forall|i: int| 0 <= i < top2.len() implies !is_table_header(#[trigger] q[i]) by {
        lemma_header_strip_cr(p[i]);
        if i != theme_line_index(top) {
            assert(p[i] == ls[i]);
        }
    }
    if top2.len() < q.len() {
        assert(p[top2.len() as int] == ls[h]);
        lemma_header_strip_cr(ls[h]);
    }
    lemma_table_header_index_at(q, top2.len() as int);
    assert(q.take(top2.len() as int) =~= top2.map_values(|l: Seq<char>| strip_cr(l)));
    assert(q.skip(top2.len() as int) =~= rest.map_values(|l: Seq<char>| strip_cr(l)));
    lemma_first_assignment_strip_cr(top2);
}

/// Law: once the top-level theme line of a TOML file is set, the first
/// assignment before the first table header is the new line, where the old
/// one stood (or just before the first table header), and the tables after
/// it are the old ones (each line without one trailing carriage return).
pub proof fn law_top_level_theme_line_reads_back(contents: Seq<char>, line: Seq<char>)
    requires
        newline_free(line),
        is_theme_assignment(line),
        !is_table_header(line),
    ensures
        ({
            let ls = lines_of(contents);
            let top = ls.take(table_header_index(ls));
            let q = lines_of(with_top_level_theme(contents, line));
            &&& first_theme_assignment(q.take(table_header_index(q))) == Some(theme_line_index(top))
            &&& q[theme_line_index(top)] == strip_cr(line)
            &&& q.skip(table_header_index(q)) == ls.skip(table_header_index(ls)).map_values(
                |l: Seq<char>| strip_cr(l),
            )
        }),
{
    lemma_top_level_read(contents, line);
    let ls = lines_of(contents);
    let top = ls.take(table_header_index(ls));
    let top2 = with_theme_line(top, line);
    let q = lines_of(with_top_level_theme(contents, line));
    lemma_first_theme_assignment(top2);
    assert(q.take(top2.len() as int)[theme_line_index(top)] == q[theme_line_index(top)]);
}

/// No line of the text, except the top-level line that first assigns the
/// theme, ends in a carriage return that a line ending would swallow.
pub open spec fn no_stray_cr_top_level(contents: Seq<char>) -> bool {
    let ls = lines_of(contents);
    let top = ls.take(table_header_index(ls));
    forall|j: int|
        0 <= j < ls.len() && first_theme_assignment(top) != Some(j) ==> strip_cr(#[trigger] ls[j])
            == ls[j]
}

/// Law: setting the same top-level theme line twice is setting it once.
pub proof fn law_top_level_setting_is_idempotent(contents: Seq<char>, line: Seq<char>)
    requires
        newline_free(line),
        is_theme_assignment(line),
        !is_table_header(line),
        no_stray_cr_top_level(contents),
    ensures
        with_top_level_theme(with_top_level_theme(contents, line), line) == with_top_level_theme(
            contents,
            line,
        ),
{
    lemma_top_level_read(contents, line);
    let ls = lines_of(contents);
    let h = table_header_index(ls);
    let top = ls.take(h);
    let top2 = with_theme_line(top, line);
    let rest = ls.skip(h);
    let p = with_top_level_theme_line(ls, line);
    let q = lines_of(with_top_level_theme(contents, line));
    let a = q.take(top2.len() as int);
    let i = theme_line_index(top);
    lemma_table_header_index(ls);
    lemma_first_theme_assignment(top);
    assert(with_theme_line(a, line) =~= top2) by {
        assert forall|k: int| 0 <= k < top2.len() implies #[trigger] with_theme_line(a, line)[k]
            == top2[k] by {
            if k != i {
                assert(top2[k] == ls[k]);
                assert(a[k] == strip_cr(top2[k]));
            }
        }
    }
    assert(q.skip(top2.len() as int) =~= rest) by {
        assert forall|m: int| 0 <= m < rest.len() implies #[trigger] q.skip(top2.len() as int)[m]
            == rest[m] by {
            assert(rest[m] == ls[h + m]);
            assert(q.skip(top2.len() as int)[m] == strip_cr(rest[m]));
        }
    }
    assert(with_top_level_theme_line(q, line) =~= p);
}

} // verus!
