//! Character-level text model: lines, trimming and joining, as the
//! configuration patches see them.
use vstd::prelude::*;

verus! {

broadcast use vstd::string::group_string_axioms;

/// Unicode `White_Space`, the set that `char::is_whitespace` tests.
pub open spec fn is_ws(c: char) -> bool {
    ||| ('\u{9}' <= c && c <= '\u{d}')
    ||| c == ' '
    ||| c == '\u{85}'
    ||| c == '\u{a0}'
    ||| c == '\u{1680}'
    ||| ('\u{2000}' <= c && c <= '\u{200a}')
    ||| c == '\u{2028}'
    ||| c == '\u{2029}'
    ||| c == '\u{202f}'
    ||| c == '\u{205f}'
    ||| c == '\u{3000}'
}

pub fn is_whitespace_char(c: char) -> (b: bool)
    ensures
        b == is_ws(c),
{
    ('\u{9}' <= c && c <= '\u{d}') || c == ' ' || c == '\u{85}' || c == '\u{a0}' || c
        == '\u{1680}' || ('\u{2000}' <= c && c <= '\u{200a}') || c == '\u{2028}' || c
        == '\u{2029}' || c == '\u{202f}' || c == '\u{205f}' || c == '\u{3000}'
}

/// `a` followed by `b`.
pub fn concat(a: &str, b: &str) -> (r: String)
    ensures
        r@ == a@ + b@,
{
    let mut r = String::from_str(a);
    r.append(b);
    r
}

/// The characters of a string, in order.
pub fn chars_of(s: &str) -> (v: Vec<char>)
    ensures
        v@ == s@,
{
    let mut v: Vec<char> = Vec::new();
    for c in it: s.chars()
        invariant
            v@ == it.seq().take(it.index() as int),
            it.seq() == s@,
    {
        v.push(c);
    }
    v
}


/// The pieces of `s` between `'\n'` separators, as `str::split('\n')`
/// yields them: always at least one piece.
pub open spec fn raw_lines(s: Seq<char>) -> Seq<Seq<char>>
    decreases s.len(),
{
    if s.len() == 0 {
        seq![Seq::empty()]
    } else {
        let prev = raw_lines(s.drop_last());
        if s.last() == '\n' {
            prev.push(Seq::empty())
        } else {
            prev.update(prev.len() - 1, prev.last().push(s.last()))
        }
    }
}

/// A line with one trailing carriage return removed, if it has one.
pub open spec fn strip_cr(l: Seq<char>) -> Seq<char> {
    if l.len() > 0 && l.last() == '\r' {
        l.drop_last()
    } else {
        l
    }
}

/// The lines of `s` as `str::lines` yields them: split at `'\n'`, a `'\r'`
/// directly before a `'\n'` dropped, and no empty final line after a
/// trailing line ending.
pub open spec fn lines_of(s: Seq<char>) -> Seq<Seq<char>> {
    let raw = raw_lines(s);
    let terminated = raw.drop_last().map_values(|l: Seq<char>| strip_cr(l));
    if raw.last().len() == 0 {
        terminated
    } else {
        terminated.push(raw.last())
    }
}

/// `s` without its leading whitespace, as `str::trim_start` gives it.
pub open spec fn trim_start(s: Seq<char>) -> Seq<char>
    decreases s.len(),
{
    if s.len() > 0 && is_ws(s[0]) {
        trim_start(s.drop_first())
    } else {
        s
    }
}

/// `s` without its trailing whitespace, as `str::trim_end` gives it.
pub open spec fn trim_end(s: Seq<char>) -> Seq<char>
    decreases s.len(),
{
    if s.len() > 0 && is_ws(s.last()) {
        trim_end(s.drop_last())
    } else {
        s
    }
}

/// `s` without leading and trailing whitespace, as `str::trim` gives it.
pub open spec fn trim(s: Seq<char>) -> Seq<char> {
    trim_end(trim_start(s))
}

/// The index of the first occurrence of `c` in `s`.
pub open spec fn index_of(s: Seq<char>, c: char) -> Option<int>
    decreases s.len(),
{
    if s.len() == 0 {
        None
    } else if s[0] == c {
        Some(0)
    } else {
        match index_of(s.drop_first(), c) {
            Some(k) => Some(k + 1),
            None => None,
        }
    }
}

/// The pieces of `ls` with `sep` between each two, as `[T]::join` gives it.
pub open spec fn join(ls: Seq<Seq<char>>, sep: Seq<char>) -> Seq<char>
    decreases ls.len(),
{
    if ls.len() == 0 {
        Seq::empty()
    } else if ls.len() == 1 {
        ls[0]
    } else {
        join(ls.drop_last(), sep) + sep + ls.last()
    }
}

pub proof fn lemma_raw_lines_nonempty(s: Seq<char>)
    ensures
        raw_lines(s).len() >= 1,
    decreases s.len(),
{
    if s.len() > 0 {
        lemma_raw_lines_nonempty(s.drop_last());
    }
}

/// Where the line pieces lie: the `j`th raw piece is the text between the
/// `j`th and the next newline.
pub open spec fn ranges_match(s: Seq<char>, ranges: Seq<(usize, usize)>, ls: Seq<Seq<char>>) -> bool {
    &&& ranges.len() == ls.len()
    &&& forall|j: int|
        #![trigger ls[j]]
        #![trigger ranges[j]]
        0 <= j < ranges.len() ==> {
            &&& ranges[j].0 <= ranges[j].1 <= s.len()
            &&& ls[j] == s.subrange(ranges[j].0 as int, ranges[j].1 as int)
        }
}

/// The character ranges of the lines of `s` (see `lines_of`).
pub fn line_ranges(cs: &Vec<char>) -> (ranges: Vec<(usize, usize)>)
    ensures
        ranges_match(cs@, ranges@, lines_of(cs@)),
{
    let ghost s = cs@;
    let n = cs.len();
    let mut ranges: Vec<(usize, usize)> = Vec::new();
    let ghost mut pieces: Seq<Seq<char>> = Seq::empty();
    let ghost mut stripped: Seq<Seq<char>> = Seq::empty();
    let mut start: usize = 0;
    let mut i: usize = 0;
    assert(s.take(0) =~= Seq::<char>::empty());
    while i < n
        invariant
            n == s.len(),
            s == cs@,
            start <= i <= n,
            raw_lines(s.take(i as int)) =~= pieces.push(s.subrange(start as int, i as int)),
            stripped.len() == pieces.len(),
            forall|j: int| 0 <= j < pieces.len() ==> #[trigger] stripped[j] == strip_cr(pieces[j]),
            ranges_match(s, ranges@, stripped),
        decreases n - i,
    {
        let c = cs[i];
        assert(s.take(i + 1).drop_last() =~= s.take(i as int));
        assert(s.take(i + 1).last() == c);
        if c == '\n' {
            let ghost piece = s.subrange(start as int, i as int);
            let ghost line = strip_cr(piece);
            let ghost old_stripped = stripped;
            let ghost old_ranges = ranges@;
            if i > start && cs[i - 1] == '\r' {
                ranges.push((start, i - 1));
                assert(line =~= s.subrange(start as int, i - 1));
            } else {
                ranges.push((start, i));
                assert(line =~= piece);
            }
            proof {
                pieces = pieces.push(piece);
                stripped = stripped.push(line);
            }
            assert forall|j: int| 0 <= j < ranges@.len() implies {
                &&& ranges@[j].0 <= ranges@[j].1 <= s.len()
                &&& #[trigger] stripped[j] == s.subrange(ranges@[j].0 as int, ranges@[j].1 as int)
            } by {
                if j < ranges@.len() - 1 {
                    assert(stripped[j] == old_stripped[j]);
                    assert(ranges@[j] == old_ranges[j]);
                } else {
                    assert(stripped[j] == line);
                }
            }
            start = i + 1;
            assert(s.subrange(start as int, (i + 1) as int) =~= Seq::<char>::empty());
        } else {
            assert(s.subrange(start as int, (i + 1) as int) =~= s.subrange(start as int, i as int).push(c));
        }
        i = i + 1;
    }
    assert(s.take(n as int) =~= s);
    let ghost raw = raw_lines(s);
    assert(raw.drop_last() =~= pieces);
    assert(raw.drop_last().map_values(|l: Seq<char>| strip_cr(l)) =~= stripped);
    if start < n {
        let ghost old_ranges = ranges@;
        ranges.push((start, n));
        let ghost ls = stripped.push(s.subrange(start as int, n as int));
        assert forall|j: int| 0 <= j < ranges@.len() implies {
            &&& ranges@[j].0 <= ranges@[j].1 <= s.len()
            &&& #[trigger] ls[j] == s.subrange(ranges@[j].0 as int, ranges@[j].1 as int)
        } by {
            if j < ranges@.len() - 1 {
                assert(ls[j] == stripped[j]);
                assert(ranges@[j] == old_ranges[j]);
            }
        }
        assert(lines_of(s) =~= stripped.push(s.subrange(start as int, n as int)));
    } else {
        assert(lines_of(s) =~= stripped);
    }
    ranges
}


/// Dropping a whitespace prefix does not change what `trim_start` gives.
pub proof fn lemma_trim_start_at(s: Seq<char>, a: int)
    requires
        0 <= a <= s.len(),
        forall|i: int| 0 <= i < a ==> is_ws(#[trigger] s[i]),
        a == s.len() || !is_ws(s[a]),
    ensures
        trim_start(s) == s.subrange(a, s.len() as int),
    decreases a,
{
    if a == 0 {
        assert(s.subrange(0, s.len() as int) =~= s);
    } else {
        let t = s.drop_first();
        assert forall|i: int| 0 <= i < a - 1 implies is_ws(#[trigger] t[i]) by {
            assert(t[i] == s[i + 1]);
        }
        lemma_trim_start_at(t, a - 1);
        assert(t.subrange(a - 1, t.len() as int) =~= s.subrange(a, s.len() as int));
    }
}

/// `trim_end` cuts exactly the whitespace suffix.
pub proof fn lemma_trim_end_at(s: Seq<char>, b: int)
    requires
        0 <= b <= s.len(),
        forall|i: int| b <= i < s.len() ==> is_ws(#[trigger] s[i]),
        b == 0 || !is_ws(s[b - 1]),
    ensures
        trim_end(s) == s.take(b),
    decreases s.len() - b,
{
    if b == s.len() {
        assert(s.take(b) =~= s);
    } else {
        let t = s.drop_last();
        assert forall|i: int| b <= i < t.len() implies is_ws(#[trigger] t[i]) by {
            assert(t[i] == s[i]);
        }
        lemma_trim_end_at(t, b);
        assert(t.take(b) =~= s.take(b));
    }
}

/// `index_of` finds the first occurrence.
pub proof fn lemma_index_of_at(s: Seq<char>, c: char, k: int)
    requires
        0 <= k <= s.len(),
        forall|i: int| 0 <= i < k ==> #[trigger] s[i] != c,
        k == s.len() || s[k] == c,
    ensures
        index_of(s, c) == (if k == s.len() { None } else { Some(k) }),
    decreases k,
{
    if k > 0 {
        let t = s.drop_first();
        assert forall|i: int| 0 <= i < k - 1 implies #[trigger] t[i] != c by {
            assert(t[i] == s[i + 1]);
        }
        lemma_index_of_at(t, c, k - 1);
    }
}

/// The trimmed text of `cs[start..end]`, as a character range.
pub fn trimmed_range(cs: &Vec<char>, start: usize, end: usize) -> (r: (usize, usize))
    requires
        start <= end <= cs.len(),
    ensures
        start <= r.0 <= r.1 <= end,
        trim(cs@.subrange(start as int, end as int)) == cs@.subrange(r.0 as int, r.1 as int),
        trim_start(cs@.subrange(start as int, end as int)) == cs@.subrange(r.0 as int, end as int),
        r.0 < r.1 ==> !is_ws(cs@[r.0 as int]),
{
    let ghost line = cs@.subrange(start as int, end as int);
    let mut a = start;
    while a < end && is_whitespace_char(cs[a])
        invariant
            start <= a <= end <= cs.len(),
            forall|i: int| start <= i < a ==> is_ws(#[trigger] cs@[i]),
        decreases end - a,
    {
        a = a + 1;
    }
    proof {
        assert forall|i: int| 0 <= i < a - start implies is_ws(#[trigger] line[i]) by {
            assert(line[i] == cs@[start + i]);
        }
        if a < end {
            assert(line[a - start] == cs@[a as int]);
        }
        lemma_trim_start_at(line, a - start);
        assert(line.subrange(a - start, line.len() as int) =~= cs@.subrange(a as int, end as int));
    }
    let mut b = end;
    while b > a && is_whitespace_char(cs[b - 1])
        invariant
            start <= a <= b <= end <= cs.len(),
            forall|i: int| b <= i < end ==> is_ws(#[trigger] cs@[i]),
        decreases b - a,
    {
        b = b - 1;
    }
    proof {
        let t = cs@.subrange(a as int, end as int);
        assert forall|i: int| b - a <= i < t.len() implies is_ws(#[trigger] t[i]) by {
            assert(t[i] == cs@[a + i]);
        }
        if b > a {
            assert(t[b - a - 1] == cs@[b - 1]);
        }
        lemma_trim_end_at(t, b - a);
        assert(t.take(b - a) =~= cs@.subrange(a as int, b as int));
    }
    (a, b)
}

/// The index of the first `c` in `cs[start..end]`, or `end` if there is none.
pub fn find_char(cs: &Vec<char>, start: usize, end: usize, c: char) -> (k: usize)
    requires
        start <= end <= cs.len(),
    ensures
        start <= k <= end,
        index_of(cs@.subrange(start as int, end as int), c) == (if k == end {
            None
        } else {
            Some(k - start)
        }),
{
    let mut k = start;
    while k < end && cs[k] != c
        invariant
            start <= k <= end <= cs.len(),
            forall|i: int| start <= i < k ==> #[trigger] cs@[i] != c,
        decreases end - k,
    {
        k = k + 1;
    }
    proof {
        let t = cs@.subrange(start as int, end as int);
        assert forall|i: int| 0 <= i < k - start implies #[trigger] t[i] != c by {
            assert(t[i] == cs@[start + i]);
        }
        if k < end {
            assert(t[k - start] == cs@[k as int]);
        }
        lemma_index_of_at(t, c, k - start);
    }
    k
}


/// No character of `l` is a newline.
pub open spec fn newline_free(l: Seq<char>) -> bool {
    forall|k: int| 0 <= k < l.len() ==> #[trigger] l[k] != '\n'
}

/// Appending newline-free text extends the last raw piece.
pub proof fn lemma_raw_lines_append(s: Seq<char>, t: Seq<char>)
    requires
        newline_free(t),
    ensures
        raw_lines(s + t) == raw_lines(s).update(
            raw_lines(s).len() - 1,
            raw_lines(s).last() + t,
        ),
    decreases t.len(),
{
    lemma_raw_lines_nonempty(s);
    if t.len() == 0 {
        assert(s + t =~= s);
        assert(raw_lines(s).last() + t =~= raw_lines(s).last());
        assert(raw_lines(s).update(raw_lines(s).len() - 1, raw_lines(s).last()) =~= raw_lines(s));
    } else {
        let t0 = t.drop_last();
        assert(newline_free(t0)) by {
            assert forall|k: int| 0 <= k < t0.len() implies #[trigger] t0[k] != '\n' by {
                assert(t0[k] == t[k]);
            }
        }
        lemma_raw_lines_append(s, t0);
        assert((s + t).drop_last() =~= s + t0);
        assert((s + t).last() == t.last());
        assert(t[t.len() - 1] != '\n');
        assert(raw_lines(s).last() + t0 + seq![t.last()] =~= raw_lines(s).last() + t);
        assert((raw_lines(s).last() + t0).push(t.last()) =~= raw_lines(s).last() + t);
        assert(raw_lines(s + t) =~= raw_lines(s).update(
            raw_lines(s).len() - 1,
            raw_lines(s).last() + t,
        ));
    }
}

/// A newline followed by newline-free text starts a new raw piece.
pub proof fn lemma_raw_lines_newline(s: Seq<char>, t: Seq<char>)
    requires
        newline_free(t),
    ensures
        raw_lines(s + seq!['\n'] + t) == raw_lines(s).push(t),
{
    let sn = s + seq!['\n'];
    assert(sn.drop_last() =~= s);
    assert(sn.last() == '\n');
    lemma_raw_lines_append(sn, t);
    assert(Seq::<char>::empty() + t =~= t);
    assert(raw_lines(sn).update(raw_lines(sn).len() - 1, raw_lines(sn).last() + t) =~= raw_lines(
        s,
    ).push(t));
}

/// Joining newline-free lines with newlines and splitting them again gives
/// the lines back.
pub proof fn lemma_raw_lines_join(ls: Seq<Seq<char>>)
    requires
        ls.len() >= 1,
        forall|j: int| 0 <= j < ls.len() ==> newline_free(#[trigger] ls[j]),
    ensures
        raw_lines(join(ls, seq!['\n'])) == ls,
    decreases ls.len(),
{
    if ls.len() == 1 {
        lemma_raw_lines_append(Seq::empty(), ls[0]);
        assert(Seq::<char>::empty() + ls[0] =~= ls[0]);
        assert(raw_lines(Seq::<char>::empty()) =~= seq![Seq::<char>::empty()]);
        assert(seq![Seq::<char>::empty()].update(0, Seq::<char>::empty() + ls[0]) =~= ls);
    } else {
        let init = ls.drop_last();
        assert forall|j: int| 0 <= j < init.len() implies newline_free(#[trigger] init[j]) by {
            assert(init[j] == ls[j]);
        }
        lemma_raw_lines_join(init);
        lemma_raw_lines_newline(join(init, seq!['\n']), ls.last());
        assert(init.push(ls.last()) =~= ls);
    }
}

/// The lines of text written as newline-terminated lines are the lines
/// written, each without one trailing carriage return.
pub proof fn lemma_lines_of_terminated(ls: Seq<Seq<char>>)
    requires
        ls.len() >= 1,
        forall|j: int| 0 <= j < ls.len() ==> newline_free(#[trigger] ls[j]),
    ensures
        lines_of(join(ls, seq!['\n']) + seq!['\n']) == ls.map_values(|l: Seq<char>| strip_cr(l)),
{
    let x = join(ls, seq!['\n']);
    lemma_raw_lines_join(ls);
    let xs = x + seq!['\n'];
    assert(xs.drop_last() =~= x);
    assert(xs.last() == '\n');
    assert(raw_lines(xs) == ls.push(Seq::empty()));
    assert(raw_lines(xs).drop_last() =~= ls);
}

/// Every raw piece is newline-free.
pub proof fn lemma_raw_lines_newline_free(s: Seq<char>)
    ensures
        forall|j: int| 0 <= j < raw_lines(s).len() ==> newline_free(#[trigger] raw_lines(s)[j]),
    decreases s.len(),
{
    if s.len() > 0 {
        let p = raw_lines(s.drop_last());
        lemma_raw_lines_newline_free(s.drop_last());
        lemma_raw_lines_nonempty(s.drop_last());
        if s.last() != '\n' {
            let l = p.last().push(s.last());
            assert(newline_free(p[p.len() - 1]));
            assert forall|k: int| 0 <= k < l.len() implies #[trigger] l[k] != '\n' by {
                if k < l.len() - 1 {
                    assert(l[k] == p.last()[k]);
                }
            }
            assert forall|j: int| 0 <= j < raw_lines(s).len() implies newline_free(
                #[trigger] raw_lines(s)[j],
            ) by {
                if j < p.len() - 1 {
                    assert(raw_lines(s)[j] == p[j]);
                }
            }
        } else {
            assert forall|j: int| 0 <= j < raw_lines(s).len() implies newline_free(
                #[trigger] raw_lines(s)[j],
            ) by {
                if j < p.len() {
                    assert(raw_lines(s)[j] == p[j]);
                } else {
                    assert(raw_lines(s)[j] =~= Seq::<char>::empty());
                }
            }
        }
    }
}

/// Every line of a text is newline-free.
pub proof fn lemma_lines_of_newline_free(s: Seq<char>)
    ensures
        forall|j: int| 0 <= j < lines_of(s).len() ==> newline_free(#[trigger] lines_of(s)[j]),
{
    let raw = raw_lines(s);
    lemma_raw_lines_newline_free(s);
    lemma_raw_lines_nonempty(s);
    let ls = lines_of(s);
    assert forall|j: int| 0 <= j < ls.len() implies newline_free(#[trigger] ls[j]) by {
        assert(newline_free(raw[j]));
        if j < raw.len() - 1 {
            assert(ls[j] == strip_cr(raw[j]));
            let l = raw[j];
            if l.len() > 0 && l.last() == '\r' {
                assert forall|k: int| 0 <= k < ls[j].len() implies #[trigger] ls[j][k] != '\n' by {
                    assert(ls[j][k] == l[k]);
                }
            }
        } else {
            assert(ls[j] == raw.last());
        }
    }
}

/// `trim_start` drops a prefix.
pub proof fn lemma_trim_start_suffix(s: Seq<char>)
    ensures
        trim_start(s).len() <= s.len(),
        trim_start(s) == s.skip(s.len() - trim_start(s).len()),
    decreases s.len(),
{
    if s.len() > 0 && is_ws(s[0]) {
        lemma_trim_start_suffix(s.drop_first());
        assert(s.drop_first().skip(s.drop_first().len() - trim_start(s).len()) =~= s.skip(
            s.len() - trim_start(s).len(),
        ));
    } else {
        assert(s.skip(0) =~= s);
    }
}

/// Dropping trailing whitespace before trimming the start.
proof fn lemma_trim_start_drop_ws(s: Seq<char>)
    requires
        s.len() > 0,
        is_ws(s.last()),
    ensures
        trim_start(s.drop_last()) == if trim_start(s).len() == 0 {
            Seq::<char>::empty()
        } else {
            trim_start(s).drop_last()
        },
    decreases s.len(),
{
    if is_ws(s[0]) {
        if s.len() == 1 {
            assert(s.drop_last() =~= Seq::<char>::empty());
            assert(s.drop_first() =~= Seq::<char>::empty());
        } else {
            let t = s.drop_first();
            assert(s.drop_last()[0] == s[0]);
            assert(s.drop_last().drop_first() =~= t.drop_last());
            lemma_trim_start_drop_ws(t);
        }
    } else {
        assert(s.drop_last()[0] == s[0]);
    }
}

/// Trimming ignores one more trailing whitespace character.
pub proof fn lemma_trim_drop_ws(s: Seq<char>)
    requires
        s.len() > 0,
        is_ws(s.last()),
    ensures
        trim(s.drop_last()) == trim(s),
{
    lemma_trim_start_drop_ws(s);
    lemma_trim_start_suffix(s);
    let t = trim_start(s);
    if t.len() > 0 {
        assert(t.last() == s.last());
    } else {
        assert(trim_end(Seq::<char>::empty()) == Seq::<char>::empty());
    }
}

/// Trimming does not see a trailing carriage return.
pub proof fn lemma_trim_strip_cr(l: Seq<char>)
    ensures
        trim(strip_cr(l)) == trim(l),
{
    if l.len() > 0 && l.last() == '\r' {
        lemma_trim_drop_ws(l);
    }
}


/// `trim_end` keeps a prefix that reaches past every non-whitespace
/// character.
pub proof fn lemma_trim_end_prefix(s: Seq<char>)
    ensures
        trim_end(s).len() <= s.len(),
        trim_end(s) == s.take(trim_end(s).len() as int),
        forall|j: int| 0 <= j < s.len() && !is_ws(#[trigger] s[j]) ==> j < trim_end(s).len(),
    decreases s.len(),
{
    if s.len() > 0 && is_ws(s.last()) {
        let t = s.drop_last();
        lemma_trim_end_prefix(t);
        assert(t.take(trim_end(s).len() as int) =~= s.take(trim_end(s).len() as int));
        assert forall|j: int| 0 <= j < s.len() && !is_ws(#[trigger] s[j]) implies j < trim_end(
            s,
        ).len() by {
            assert(j < s.len() - 1);
            assert(t[j] == s[j]);
        }
    } else {
        assert(s.take(s.len() as int) =~= s);
    }
}


/// The order of names: lexicographic by character, which for strings is the
/// order of their UTF-8 bytes, as `str`'s `Ord` compares them.
pub open spec fn str_lt(a: Seq<char>, b: Seq<char>) -> bool
    decreases a.len(),
{
    if a.len() == 0 {
        b.len() > 0
    } else if b.len() == 0 {
        false
    } else if a[0] != b[0] {
        a[0] < b[0]
    } else {
        str_lt(a.drop_first(), b.drop_first())
    }
}

pub proof fn lemma_str_lt_irreflexive(a: Seq<char>)
    ensures
        !str_lt(a, a),
    decreases a.len(),
{
    if a.len() > 0 {
        lemma_str_lt_irreflexive(a.drop_first());
    }
}

pub proof fn lemma_str_lt_asymmetric(a: Seq<char>, b: Seq<char>)
    ensures
        str_lt(a, b) ==> !str_lt(b, a),
    decreases a.len(),
{
    if a.len() > 0 && b.len() > 0 && a[0] == b[0] {
        lemma_str_lt_asymmetric(a.drop_first(), b.drop_first());
    }
}

pub proof fn lemma_str_lt_transitive(a: Seq<char>, b: Seq<char>, c: Seq<char>)
    ensures
        str_lt(a, b) && str_lt(b, c) ==> str_lt(a, c),
    decreases a.len(),
{
    if a.len() > 0 && b.len() > 0 && c.len() > 0 {
        lemma_str_lt_transitive(a.drop_first(), b.drop_first(), c.drop_first());
    }
}

pub proof fn lemma_str_lt_total(a: Seq<char>, b: Seq<char>)
    ensures
        a != b ==> str_lt(a, b) || str_lt(b, a),
    decreases a.len(),
{
    if a.len() > 0 && b.len() > 0 && a[0] == b[0] {
        lemma_str_lt_total(a.drop_first(), b.drop_first());
        if a.drop_first() == b.drop_first() {
            assert(a =~= seq![a[0]] + a.drop_first());
            assert(b =~= seq![b[0]] + b.drop_first());
        }
    } else if a.len() == 0 && b.len() == 0 {
        assert(a =~= b);
    }
}

/// Whether `a` comes before `b` (see `str_lt`).
pub fn chars_less(a: &Vec<char>, b: &Vec<char>) -> (r: bool)
    ensures
        r == str_lt(a@, b@),
{
    let mut i: usize = 0;
    assert(a@.skip(0) =~= a@);
    assert(b@.skip(0) =~= b@);
    while i < a.len() && i < b.len() && a[i] == b[i]
        invariant
            i <= a.len(),
            i <= b.len(),
            str_lt(a@, b@) == str_lt(a@.skip(i as int), b@.skip(i as int)),
        decreases a.len() - i,
    {
        assert(a@.skip(i as int).drop_first() =~= a@.skip(i + 1));
        assert(b@.skip(i as int).drop_first() =~= b@.skip(i + 1));
        i = i + 1;
    }
    if i == a.len() {
        i < b.len()
    } else if i == b.len() {
        false
    } else {
        a[i] < b[i]
    }
}

/// Whether `a` and `b` hold the same characters.
pub fn chars_equal(a: &Vec<char>, b: &Vec<char>) -> (r: bool)
    ensures
        r == (a@ == b@),
{
    if a.len() != b.len() {
        return false;
    }
    let mut i: usize = 0;
    while i < a.len()
        invariant
            a.len() == b.len(),
            i <= a.len(),
            forall|k: int| 0 <= k < i ==> a@[k] == b@[k],
        decreases a.len() - i,
    {
        if a[i] != b[i] {
            return false;
        }
        i = i + 1;
    }
    assert(a@ =~= b@);
    true
}


/// The pieces of `s` that `str::split_inclusive('\n')` yields: each ends
/// with its newline, except perhaps the last; no empty piece.
pub open spec fn split_inclusive(s: Seq<char>) -> Seq<Seq<char>>
    decreases s.len(),
{
    if s.len() == 0 {
        Seq::empty()
    } else {
        let p = split_inclusive(s.drop_last());
        if p.len() > 0 && p.last().last() != '\n' {
            p.update(p.len() - 1, p.last().push(s.last()))
        } else {
            p.push(seq![s.last()])
        }
    }
}

/// The pieces, each after the other.
pub open spec fn concat_all(ps: Seq<Seq<char>>) -> Seq<char>
    decreases ps.len(),
{
    if ps.len() == 0 {
        Seq::empty()
    } else {
        concat_all(ps.drop_last()) + ps.last()
    }
}

/// The character ranges of the pieces of `split_inclusive`.
pub fn split_inclusive_ranges(cs: &Vec<char>) -> (ranges: Vec<(usize, usize)>)
    ensures
        ranges_match(cs@, ranges@, split_inclusive(cs@)),
        forall|j: int| 0 <= j < ranges@.len() ==> (#[trigger] ranges@[j]).0 < ranges@[j].1,
{
    let ghost s = cs@;
    let n = cs.len();
    let mut ranges: Vec<(usize, usize)> = Vec::new();
    let mut start: usize = 0;
    let mut i: usize = 0;
    assert(s.take(0) =~= Seq::<char>::empty());
    while i < n
        invariant
            n == s.len(),
            s == cs@,
            start <= i <= n,
            start == i || (start < i && s[i - 1] != '\n'),
            start == 0 || s[start - 1] == '\n',
            split_inclusive(s.take(i as int)) =~= if start < i {
                ranges@.map_values(|r: (usize, usize)| s.subrange(r.0 as int, r.1 as int)).push(
                    s.subrange(start as int, i as int),
                )
            } else {
                ranges@.map_values(|r: (usize, usize)| s.subrange(r.0 as int, r.1 as int))
            },
            forall|j: int|
                0 <= j < ranges@.len() ==> {
                    &&& (#[trigger] ranges@[j]).0 < ranges@[j].1 <= start
                    &&& s[ranges@[j].1 - 1] == '\n'
                },
        decreases n - i,
    {
        let c = cs[i];
        let ghost prev = s.take(i as int);
        assert(s.take(i + 1).drop_last() =~= prev);
        assert(s.take(i + 1).last() == c);
        let ghost done = ranges@.map_values(|r: (usize, usize)| s.subrange(r.0 as int, r.1 as int));
        if start < i {
            assert(s.subrange(start as int, (i + 1) as int) =~= s.subrange(start as int, i as int).push(c));
        } else {
            assert(s.subrange(start as int, (i + 1) as int) =~= seq![c]);
            proof {
                if done.len() > 0 {
                    let r = ranges@[done.len() - 1];
                    assert(done.last() == s.subrange(r.0 as int, r.1 as int));
                    assert(done.last().last() == '\n');
                }
            }
        }
        if c == '\n' {
            ranges.push((start, i + 1));
            start = i + 1;
            assert(ranges@.map_values(|r: (usize, usize)| s.subrange(r.0 as int, r.1 as int))
                =~= done.push(s.subrange((ranges@.last().0) as int, (i + 1) as int)));
        }
        i = i + 1;
    }
    assert(s.take(n as int) =~= s);
    if start < n {
        ranges.push((start, n));
    }
    let ghost ps = ranges@.map_values(|r: (usize, usize)| s.subrange(r.0 as int, r.1 as int));
    assert(split_inclusive(s) =~= ps);
    ranges
}

} // verus!
