//! Character-level facts about text: whitespace, trimming, line splitting and
//! word splitting, as `str` defines them, over sequences of characters.
use vstd::prelude::*;

verus! {

broadcast use vstd::string::group_string_axioms;

/// Appends one character to a string.
/// Trusted: `String::push` appends the given char to the end of the string,
/// as its documentation says.
#[verifier::external_body]
pub(crate) fn push_char(s: &mut String, c: char)
    ensures
        final(s)@ == old(s)@.push(c),
{
    s.push(c);
}

/// The string holding the characters of `t`.
pub fn owned(t: &str) -> (s: String)
    ensures
        s@ == t@,
{
    String::from_str(t)
}

/// The characters of a string slice, in order, as a vector.
pub fn chars_of(s: &str) -> (v: Vec<char>)
    ensures
        v@ == s@,
{
    let mut v: Vec<char> = Vec::new();
    for c in it: s.chars()
        invariant
            v@ == it.seq().take(it.index() as int),
    {
        v.push(c);
    }
    v
}

/// Appends the characters `v[from..to]` to `out`.
pub fn push_range(out: &mut String, v: &Vec<char>, from: usize, to: usize)
    requires
        from <= to <= v@.len(),
    ensures
        final(out)@ == old(out)@ + v@.subrange(from as int, to as int),
{
    let mut i = from;
    while i < to
        invariant
            from <= i <= to <= v@.len(),
            out@ == old(out)@ + v@.subrange(from as int, i as int),
        decreases to - i,
    {
        push_char(out, v[i]);
        i = i + 1;
        assert(v@.subrange(from as int, i as int) =~= v@.subrange(from as int, i - 1).push(v@[i - 1]));
    }
}

/// The pieces of `s` between its `'\n'` characters: one more piece than
/// there are newlines.
pub open spec fn split_newlines(s: Seq<char>) -> Seq<Seq<char>>
    decreases s.len(),
{
    if s.len() == 0 {
        seq![Seq::empty()]
    } else {
        let prev = split_newlines(s.drop_last());
        if s.last() == '\n' {
            prev.push(Seq::empty())
        } else {
            prev.update(prev.len() - 1, prev.last().push(s.last()))
        }
    }
}

/// A line with one carriage return removed from its end, if it has one.
pub open spec fn strip_cr(p: Seq<char>) -> Seq<char> {
    if p.len() > 0 && p.last() == '\r' {
        p.drop_last()
    } else {
        p
    }
}

/// The lines of `s` as `str::lines` yields them: split at `'\n'`, where a
/// `'\r'` just before a `'\n'` belongs to the line ending; the final line
/// ending is optional, so an empty last piece is no line.
pub open spec fn lines(s: Seq<char>) -> Seq<Seq<char>> {
    let pieces = split_newlines(s);
    let n: int = if pieces.last().len() == 0 { pieces.len() - 1 } else { pieces.len() as int };
    Seq::new(
        n as nat,
        |i: int|
            if i < pieces.len() - 1 {
                strip_cr(pieces[i])
            } else {
                pieces[i]
            },
    )
}

/// There is always at least one piece.
pub proof fn lemma_split_newlines_len(s: Seq<char>)
    ensures
        split_newlines(s).len() >= 1,
    decreases s.len(),
{
    if s.len() > 0 {
        lemma_split_newlines_len(s.drop_last());
    }
}

/// Whether the ranges `r` pick out `want` from `v`, one range per element.
pub open spec fn ranges_pick(v: Seq<char>, r: Seq<(usize, usize)>, want: Seq<Seq<char>>) -> bool {
    &&& r.len() == want.len()
    &&& forall|k: int|
        0 <= k < r.len() ==> {
            &&& (#[trigger] r[k]).0 <= r[k].1 <= v.len()
            &&& want[k] == v.subrange(r[k].0 as int, r[k].1 as int)
        }
}

/// The range of each line of `v`.
pub fn line_ranges(v: &Vec<char>) -> (r: Vec<(usize, usize)>)
    ensures
        ranges_pick(v@, r@, lines(v@)),
{
    let n = v.len();
    let mut r: Vec<(usize, usize)> = Vec::new();
    let mut start: usize = 0;
    let mut i: usize = 0;
    proof {
        assert(v@.take(0) =~= Seq::<char>::empty());
    }
    while i < n
        invariant
            n == v@.len(),
            start <= i <= n,
            split_newlines(v@.take(i as int)).len() == r@.len() + 1,
            split_newlines(v@.take(i as int)).last() == v@.subrange(start as int, i as int),
            forall|k: int|
                0 <= k < r@.len() ==> {
                    &&& (#[trigger] r@[k]).0 <= r@[k].1 <= start
                    &&& strip_cr(split_newlines(v@.take(i as int))[k]) == v@.subrange(
                        r@[k].0 as int,
                        r@[k].1 as int,
                    )
                },
        decreases n - i,
    {
        let ghost prev = split_newlines(v@.take(i as int));
        let ghost old_r = r@;
        proof {
            lemma_split_newlines_len(v@.take(i as int));
            assert(v@.take(i + 1).drop_last() =~= v@.take(i as int));
        }
        if v[i] == '\n' {
            let end = if i > start && v[i - 1] == '\r' {
                i - 1
            } else {
                i
            };
            proof {
                let piece = v@.subrange(start as int, i as int);
                if i > start && v@[i - 1] == '\r' {
                    assert(piece.drop_last() =~= v@.subrange(start as int, i - 1));
                }
            }
            r.push((start, end));
            start = i + 1;
            i = i + 1;
            proof {
                let cur = split_newlines(v@.take(i as int));
                assert(cur == prev.push(Seq::<char>::empty()));
                assert(v@.subrange(start as int, i as int) =~= Seq::<char>::empty());
                assert forall|k: int| 0 <= k < r@.len() implies {
                    &&& (#[trigger] r@[k]).0 <= r@[k].1 <= start
                    &&& strip_cr(cur[k]) == v@.subrange(r@[k].0 as int, r@[k].1 as int)
                } by {
                    if k < old_r.len() {
                        assert(r@[k] == old_r[k]);
                    }
                }
            }
        } else {
            i = i + 1;
            proof {
                let cur = split_newlines(v@.take(i as int));
                assert(cur == prev.update(prev.len() - 1, prev.last().push(v@[i - 1])));
                assert(v@.subrange(start as int, i as int) =~= v@.subrange(start as int, i - 1).push(v@[i - 1]));
            }
        }
    }
    proof {
        assert(v@.take(n as int) =~= v@);
        lemma_split_newlines_len(v@);
    }
    let ghost pieces = split_newlines(v@);
    if start < n {
        r.push((start, n));
        proof {
            assert(pieces.last().len() > 0);
            let ls = lines(v@);
            assert(ls.len() == r@.len());
            assert forall|k: int| 0 <= k < r@.len() implies {
                &&& (#[trigger] r@[k]).0 <= r@[k].1 <= v@.len()
                &&& ls[k] == v@.subrange(r@[k].0 as int, r@[k].1 as int)
            } by {}
        }
    } else {
        proof {
            assert(pieces.last().len() == 0);
            let ls = lines(v@);
            assert(ls.len() == r@.len());
            assert forall|k: int| 0 <= k < r@.len() implies {
                &&& (#[trigger] r@[k]).0 <= r@[k].1 <= v@.len()
                &&& ls[k] == v@.subrange(r@[k].0 as int, r@[k].1 as int)
            } by {}
        }
    }
    r
}

/// Unicode `White_Space`, the set of characters that `char::is_whitespace`
/// documents.
pub open spec fn is_ws(c: char) -> bool {
    ||| ('\u{9}' <= c && c <= '\u{d}')
    ||| c == ' '
    ||| c == '\u{85}'
    ||| c == '\u{a0}'
    ||| c == '\u{1680}'
    ||| ('\u{2000}' <= c && c <= '\u{200a}')
    ||| c == '\u{2028}'
    ||| c == '\u{2029}'
    ||| c == '\u{202f}'
    ||| c == '\u{205f}'
    ||| c == '\u{3000}'
}

/// Whether `c` is white space.
pub fn is_whitespace(c: char) -> (b: bool)
    ensures
        b == is_ws(c),
{
    ('\u{9}' <= c && c <= '\u{d}') || c == ' ' || c == '\u{85}' || c == '\u{a0}' || c
        == '\u{1680}' || ('\u{2000}' <= c && c <= '\u{200a}') || c == '\u{2028}' || c
        == '\u{2029}' || c == '\u{202f}' || c == '\u{205f}' || c == '\u{3000}'
}

/// `s` without its leading white space.
pub open spec fn trim_start(s: Seq<char>) -> Seq<char>
    decreases s.len(),
{
    if s.len() > 0 && is_ws(s[0]) {
        trim_start(s.drop_first())
    } else {
        s
    }
}

/// `s` without its trailing white space.
pub open spec fn trim_end(s: Seq<char>) -> Seq<char>
    decreases s.len(),
{
    if s.len() > 0 && is_ws(s.last()) {
        trim_end(s.drop_last())
    } else {
        s
    }
}

/// `s` without leading and trailing white space, as `str::trim` gives it.
pub open spec fn trim(s: Seq<char>) -> Seq<char> {
    trim_end(trim_start(s))
}

/// Whether `s` holds nothing but white space.
pub open spec fn is_blank(s: Seq<char>) -> bool {
    forall|i: int| 0 <= i < s.len() ==> is_ws(#[trigger] s[i])
}

/// The first index at or after `from` and before `to` that holds no white
/// space, or `to`: `v[from..to]` trimmed at the start is `v[result..to]`.
pub fn skip_ws_forward(v: &Vec<char>, from: usize, to: usize) -> (a: usize)
    requires
        from <= to <= v@.len(),
    ensures
        from <= a <= to,
        trim_start(v@.subrange(from as int, to as int)) == v@.subrange(a as int, to as int),
        forall|j: int| from <= j < a ==> is_ws(#[trigger] v@[j]),
{
    let mut a = from;
    while a < to && is_whitespace(v[a])
        invariant
            from <= a <= to <= v@.len(),
            trim_start(v@.subrange(from as int, to as int)) == trim_start(
                v@.subrange(a as int, to as int),
            ),
            forall|j: int| from <= j < a ==> is_ws(#[trigger] v@[j]),
        decreases to - a,
    {
        assert(v@.subrange(a as int, to as int).drop_first() =~= v@.subrange(a + 1, to as int));
        a = a + 1;
    }
    a
}

/// The last index after `from` and at or before `to` whose preceding
/// character is no white space, or `from`: `v[from..to]` trimmed at the end
/// is `v[from..result]`.
pub fn skip_ws_backward(v: &Vec<char>, from: usize, to: usize) -> (b: usize)
    requires
        from <= to <= v@.len(),
    ensures
        from <= b <= to,
        trim_end(v@.subrange(from as int, to as int)) == v@.subrange(from as int, b as int),
        forall|j: int| b <= j < to ==> is_ws(#[trigger] v@[j]),
{
    let mut b = to;
    while b > from && is_whitespace(v[b - 1])
        invariant
            from <= b <= to <= v@.len(),
            trim_end(v@.subrange(from as int, to as int)) == trim_end(
                v@.subrange(from as int, b as int),
            ),
            forall|j: int| b <= j < to ==> is_ws(#[trigger] v@[j]),
        decreases b - from,
    {
        assert(v@.subrange(from as int, b as int).drop_last() =~= v@.subrange(from as int, b - 1));
        b = b - 1;
    }
    b
}

/// `v[from..to]` trimmed of white space at both ends is `v[a..b]`.
pub fn trim_range(v: &Vec<char>, from: usize, to: usize) -> (ab: (usize, usize))
    requires
        from <= to <= v@.len(),
    ensures
        from <= ab.0 <= ab.1 <= to,
        trim(v@.subrange(from as int, to as int)) == v@.subrange(ab.0 as int, ab.1 as int),
{
    let a = skip_ws_forward(v, from, to);
    let b = skip_ws_backward(v, a, to);
    (a, b)
}

/// Whether `v[from..to]` holds nothing but white space.
pub fn range_is_blank(v: &Vec<char>, from: usize, to: usize) -> (b: bool)
    requires
        from <= to <= v@.len(),
    ensures
        b == is_blank(v@.subrange(from as int, to as int)),
{
    let a = skip_ws_forward(v, from, to);
    if a == to {
        assert forall|i: int| 0 <= i < to - from implies is_ws(
            #[trigger] v@.subrange(from as int, to as int)[i],
        ) by {
            assert(v@.subrange(from as int, to as int)[i] == v@[from + i]);
        }
        true
    } else {
        proof {
            lemma_trim_start_first(v@.subrange(from as int, to as int));
            assert(v@.subrange(a as int, to as int)[0] == v@[a as int]);
            assert(v@.subrange(from as int, to as int)[a - from] == v@[a as int]);
        }
        false
    }
}

/// Trimming at the start stops at a character that is no white space, and
/// only white space goes.
pub proof fn lemma_trim_start_first(s: Seq<char>)
    ensures
        trim_start(s).len() > 0 ==> !is_ws(trim_start(s)[0]),
        trim_start(s).len() <= s.len(),
        trim_start(s) == s.subrange(s.len() - trim_start(s).len(), s.len() as int),
        forall|i: int| 0 <= i < s.len() - trim_start(s).len() ==> is_ws(#[trigger] s[i]),
    decreases s.len(),
{
    if s.len() > 0 && is_ws(s[0]) {
        lemma_trim_start_first(s.drop_first());
        assert forall|i: int| 0 <= i < s.len() - trim_start(s).len() implies is_ws(#[trigger] s[i]) by {
            if i > 0 {
                assert(s.drop_first()[i - 1] == s[i]);
            }
        }
    } else {
        assert(s.subrange(0, s.len() as int) =~= s);
    }
}

/// `ls` without its leading blank lines.
pub open spec fn drop_leading_blank(ls: Seq<Seq<char>>) -> Seq<Seq<char>>
    decreases ls.len(),
{
    if ls.len() > 0 && is_blank(ls[0]) {
        drop_leading_blank(ls.drop_first())
    } else {
        ls
    }
}

/// `ls` without its trailing blank lines.
pub open spec fn drop_trailing_blank(ls: Seq<Seq<char>>) -> Seq<Seq<char>>
    decreases ls.len(),
{
    if ls.len() > 0 && is_blank(ls.last()) {
        drop_trailing_blank(ls.drop_last())
    } else {
        ls
    }
}

/// `ls` without its leading and then its trailing blank lines.
pub open spec fn strip_blank_edge_lines(ls: Seq<Seq<char>>) -> Seq<Seq<char>> {
    drop_trailing_blank(drop_leading_blank(ls))
}

/// For the lines `ls` of `v`, picked out by `r`: the index range of the
/// lines that `strip_blank_edge_lines` keeps.
pub fn trim_empty_lines(v: &Vec<char>, r: &Vec<(usize, usize)>, Ghost(ls): Ghost<Seq<Seq<char>>>) -> (lohi: (usize, usize))
    requires
        ranges_pick(v@, r@, ls),
    ensures
        lohi.0 <= lohi.1 <= ls.len(),
        strip_blank_edge_lines(ls) == ls.subrange(lohi.0 as int, lohi.1 as int),
{
    let n = r.len();
    let mut lo: usize = 0;
    assert(ls.subrange(0, n as int) =~= ls);
    while lo < n && range_is_blank(v, r[lo].0, r[lo].1)
        invariant
            n == r@.len() == ls.len(),
            ranges_pick(v@, r@, ls),
            lo <= n,
            drop_leading_blank(ls) == drop_leading_blank(ls.subrange(lo as int, n as int)),
        decreases n - lo,
    {
        assert(ls.subrange(lo as int, n as int)[0] == ls[lo as int]);
        assert(ls.subrange(lo as int, n as int).drop_first() =~= ls.subrange(lo + 1, n as int));
        lo = lo + 1;
    }
    proof {
        if lo < n {
            assert(ls.subrange(lo as int, n as int)[0] == ls[lo as int]);
        }
    }
    let mut hi: usize = n;
    while hi > lo && range_is_blank(v, r[hi - 1].0, r[hi - 1].1)
        invariant
            n == r@.len() == ls.len(),
            ranges_pick(v@, r@, ls),
            lo <= hi <= n,
            drop_leading_blank(ls) == ls.subrange(lo as int, n as int),
            strip_blank_edge_lines(ls) == drop_trailing_blank(ls.subrange(lo as int, hi as int)),
        decreases hi - lo,
    {
        assert(ls.subrange(lo as int, hi as int).last() == ls[hi - 1]);
        assert(ls.subrange(lo as int, hi as int).drop_last() =~= ls.subrange(lo as int, hi - 1));
        hi = hi - 1;
    }
    proof {
        if hi > lo {
            assert(ls.subrange(lo as int, hi as int).last() == ls[hi - 1]);
        }
    }
    (lo, hi)
}

/// A text without newlines is a single piece.
pub proof fn lemma_split_no_newline(s: Seq<char>)
    requires
        forall|i: int| 0 <= i < s.len() ==> s[i] != '\n',
    ensures
        split_newlines(s) == seq![s],
    decreases s.len(),
{
    if s.len() > 0 {
        lemma_split_no_newline(s.drop_last());
        assert(s.drop_last().push(s.last()) =~= s);
        assert(split_newlines(s) =~= seq![s]);
    } else {
        assert(s =~= Seq::<char>::empty());
    }
}

/// Splitting at a newline splits the pieces there.
pub proof fn lemma_split_concat(a: Seq<char>, b: Seq<char>)
    ensures
        split_newlines(a + seq!['\n'] + b) == split_newlines(a) + split_newlines(b),
    decreases b.len(),
{
    let s = a + seq!['\n'] + b;
    lemma_split_newlines_len(b);
    if b.len() == 0 {
        assert(s.drop_last() =~= a);
        assert(split_newlines(s) =~= split_newlines(a) + split_newlines(b));
    } else {
        lemma_split_concat(a, b.drop_last());
        lemma_split_newlines_len(b.drop_last());
        assert(s.drop_last() =~= a + seq!['\n'] + b.drop_last());
        assert(split_newlines(s) =~= split_newlines(a) + split_newlines(b));
    }
}

/// The lines joined with `'\n'` between them.
pub open spec fn join_lines(ls: Seq<Seq<char>>) -> Seq<char>
    decreases ls.len(),
{
    if ls.len() == 0 {
        Seq::empty()
    } else if ls.len() == 1 {
        ls[0]
    } else {
        join_lines(ls.drop_last()) + seq!['\n'] + ls.last()
    }
}

/// Joining the pieces between newlines with newlines gives the text back.
pub proof fn lemma_join_split(s: Seq<char>)
    ensures
        join_lines(split_newlines(s)) == s,
    decreases s.len(),
{
    if s.len() > 0 {
        let prev = split_newlines(s.drop_last());
        lemma_join_split(s.drop_last());
        lemma_split_newlines_len(s.drop_last());
        let cur = split_newlines(s);
        if s.last() == '\n' {
            assert(cur.drop_last() =~= prev);
            assert(join_lines(cur) =~= s);
        } else {
            if prev.len() == 1 {
                assert(cur.len() == 1);
                assert(cur[0] == prev[0].push(s.last()));
                assert(s.drop_last().push(s.last()) =~= s);
                assert(join_lines(cur) =~= s);
            } else {
                assert(cur.drop_last() =~= prev.drop_last());
                assert(join_lines(prev) == join_lines(prev.drop_last()) + seq!['\n'] + prev.last());
                assert(cur.last() == prev.last().push(s.last()));
                assert(s.drop_last().push(s.last()) =~= s);
                assert(join_lines(cur) =~= s);
            }
        }
    }
}

/// A text that starts and ends with characters other than white space
/// trims to itself.
pub proof fn lemma_trim_unchanged(s: Seq<char>)
    requires
        s.len() > 0,
        !is_ws(s[0]),
        !is_ws(s.last()),
    ensures
        trim(s) == s,
{
}

/// Removing a carriage return from the end of a line changes neither its
/// trimmed form nor whether it is blank: a carriage return is white space.
pub proof fn lemma_strip_cr_trim(p: Seq<char>)
    ensures
        trim(strip_cr(p)) == trim(p),
        is_blank(strip_cr(p)) == is_blank(p),
{
    if p.len() > 0 && p.last() == '\r' {
        lemma_trim_end_drop_ws(trim_start(p), p);
        if is_blank(p.drop_last()) {
            assert forall|i: int| 0 <= i < p.len() implies is_ws(#[trigger] p[i]) by {
                if i < p.len() - 1 {
                    assert(p.drop_last()[i] == p[i]);
                }
            }
        }
        if is_blank(p) {
            assert forall|i: int| 0 <= i < p.drop_last().len() implies is_ws(#[trigger] p.drop_last()[i]) by {
                assert(p.drop_last()[i] == p[i]);
            }
        }
    }
}

/// Trimming at the start, then dropping a trailing white space character,
/// then trimming at the end is trimming the whole.
proof fn lemma_trim_end_drop_ws(t: Seq<char>, p: Seq<char>)
    requires
        p.len() > 0,
        is_ws(p.last()),
        t == trim_start(p),
    ensures
        trim_end(trim_start(p.drop_last())) == trim_end(t),
    decreases p.len(),
{
    if is_ws(p[0]) {
        if p.len() == 1 {
            assert(p.drop_first() =~= Seq::<char>::empty());
            assert(p.drop_last() =~= Seq::<char>::empty());
        } else {
            assert(p.drop_last().drop_first() =~= p.drop_first().drop_last());
            lemma_trim_end_drop_ws(trim_start(p.drop_first()), p.drop_first());
        }
    } else {
        assert(trim_start(p.drop_last()) == p.drop_last());
        assert(t == p);
    }
}

/// The number of blank lines at the start of `ls`.
pub open spec fn leading_blanks(ls: Seq<Seq<char>>) -> nat
    decreases ls.len(),
{
    if ls.len() > 0 && is_blank(ls[0]) {
        1 + leading_blanks(ls.drop_first())
    } else {
        0
    }
}

/// The number of blank lines at the end of `ls`.
pub open spec fn trailing_blanks(ls: Seq<Seq<char>>) -> nat
    decreases ls.len(),
{
    if ls.len() > 0 && is_blank(ls.last()) {
        1 + trailing_blanks(ls.drop_last())
    } else {
        0
    }
}

/// Dropping the leading blank lines keeps the lines from the first one
/// that is not blank.
pub proof fn lemma_drop_leading(ls: Seq<Seq<char>>)
    ensures
        leading_blanks(ls) <= ls.len(),
        drop_leading_blank(ls) == ls.subrange(leading_blanks(ls) as int, ls.len() as int),
        leading_blanks(ls) < ls.len() ==> !is_blank(ls[leading_blanks(ls) as int]),
    decreases ls.len(),
{
    if ls.len() > 0 && is_blank(ls[0]) {
        lemma_drop_leading(ls.drop_first());
        assert(ls.drop_first().subrange(leading_blanks(ls.drop_first()) as int, ls.len() - 1) =~= ls.subrange(
            leading_blanks(ls) as int,
            ls.len() as int,
        ));
    } else {
        assert(ls.subrange(0, ls.len() as int) =~= ls);
    }
}

/// Dropping the trailing blank lines keeps the lines up to the last one
/// that is not blank.
pub proof fn lemma_drop_trailing(ls: Seq<Seq<char>>)
    ensures
        trailing_blanks(ls) <= ls.len(),
        drop_trailing_blank(ls) == ls.subrange(0, ls.len() - trailing_blanks(ls)),
        trailing_blanks(ls) < ls.len() ==> !is_blank(ls[ls.len() - trailing_blanks(ls) - 1]),
    decreases ls.len(),
{
    if ls.len() > 0 && is_blank(ls.last()) {
        lemma_drop_trailing(ls.drop_last());
        assert(ls.drop_last().subrange(0, ls.len() - 1 - trailing_blanks(ls.drop_last())) =~= ls.subrange(
            0,
            ls.len() - trailing_blanks(ls),
        ));
    } else {
        assert(ls.subrange(0, ls.len() as int) =~= ls);
    }
}

/// Two lists of lines of one length, blank at the same places.
pub open spec fn same_blanks(a: Seq<Seq<char>>, b: Seq<Seq<char>>) -> bool {
    &&& a.len() == b.len()
    &&& forall|k: int| 0 <= k < a.len() ==> is_blank(#[trigger] a[k]) == is_blank(b[k])
}

/// Lists blank at the same places begin and end with as many blank lines.
pub proof fn lemma_same_blanks_counts(a: Seq<Seq<char>>, b: Seq<Seq<char>>)
    requires
        same_blanks(a, b),
    ensures
        leading_blanks(a) == leading_blanks(b),
        trailing_blanks(a) == trailing_blanks(b),
    decreases a.len(),
{
    if a.len() > 0 {
        assert(same_blanks(a.drop_first(), b.drop_first())) by {
            assert forall|k: int| 0 <= k < a.len() - 1 implies is_blank(#[trigger] a.drop_first()[k])
                == is_blank(b.drop_first()[k]) by {
                assert(a.drop_first()[k] == a[k + 1]);
                assert(b.drop_first()[k] == b[k + 1]);
            }
        }
        assert(same_blanks(a.drop_last(), b.drop_last())) by {
            assert forall|k: int| 0 <= k < a.len() - 1 implies is_blank(#[trigger] a.drop_last()[k])
                == is_blank(b.drop_last()[k]) by {
                assert(a.drop_last()[k] == a[k]);
                assert(b.drop_last()[k] == b[k]);
            }
        }
        lemma_same_blanks_counts(a.drop_first(), b.drop_first());
        lemma_same_blanks_counts(a.drop_last(), b.drop_last());
        assert(is_blank(a[0]) == is_blank(b[0]));
        assert(is_blank(a.last()) == is_blank(b.last()));
    }
}

/// The lines that `strip_blank_edge_lines` keeps form the index range
/// returned here.
pub proof fn lemma_strip_span(ls: Seq<Seq<char>>) -> (span: (int, int))
    ensures
        0 <= span.0 <= span.1 <= ls.len(),
        strip_blank_edge_lines(ls) == ls.subrange(span.0, span.1),
        span.0 < span.1 ==> !is_blank(ls[span.0]) && !is_blank(ls[span.1 - 1]),
        forall|k: int| 0 <= k < span.0 ==> is_blank(#[trigger] ls[k]),
        forall|k: int| span.1 <= k < ls.len() ==> is_blank(#[trigger] ls[k]),
        span == blank_edge_span(ls),
{
    lemma_blank_prefix(ls);
    lemma_drop_leading(ls);
    let lo = leading_blanks(ls) as int;
    let rest = ls.subrange(lo, ls.len() as int);
    lemma_drop_trailing(rest);
    lemma_blank_suffix(rest);
    let hi = lo + rest.len() - trailing_blanks(rest);
    assert(rest.subrange(0, rest.len() - trailing_blanks(rest)) =~= ls.subrange(lo, hi));
    assert forall|k: int| hi <= k < ls.len() implies is_blank(#[trigger] ls[k]) by {
        assert(rest[k - lo] == ls[k]);
    }
    if lo < hi {
        assert(rest[0] == ls[lo]);
        assert(rest[rest.len() - trailing_blanks(rest) - 1] == ls[hi - 1]);
    }
    (lo, hi)
}

/// The index range of the lines that are left once the blank lines at
/// both ends are gone.
pub open spec fn blank_edge_span(ls: Seq<Seq<char>>) -> (int, int) {
    let lo = leading_blanks(ls) as int;
    let rest = ls.subrange(lo, ls.len() as int);
    (lo, lo + rest.len() - trailing_blanks(rest))
}

proof fn lemma_blank_prefix(ls: Seq<Seq<char>>)
    ensures
        forall|k: int| 0 <= k < leading_blanks(ls) ==> is_blank(#[trigger] ls[k]),
    decreases ls.len(),
{
    lemma_drop_leading(ls);
    if ls.len() > 0 && is_blank(ls[0]) {
        lemma_blank_prefix(ls.drop_first());
        assert forall|k: int| 0 <= k < leading_blanks(ls) implies is_blank(#[trigger] ls[k]) by {
            if k > 0 {
                assert(ls.drop_first()[k - 1] == ls[k]);
            }
        }
    }
}

proof fn lemma_blank_suffix(ls: Seq<Seq<char>>)
    ensures
        forall|k: int| ls.len() - trailing_blanks(ls) <= k < ls.len() ==> is_blank(#[trigger] ls[k]),
    decreases ls.len(),
{
    lemma_drop_trailing(ls);
    if ls.len() > 0 && is_blank(ls.last()) {
        lemma_blank_suffix(ls.drop_last());
        assert forall|k: int| ls.len() - trailing_blanks(ls) <= k < ls.len() implies is_blank(#[trigger] ls[k]) by {
            if k < ls.len() - 1 {
                assert(ls.drop_last()[k] == ls[k]);
            }
        }
    }
}

/// Lists blank at the same places keep the same span.
pub proof fn lemma_same_blanks_span(a: Seq<Seq<char>>, b: Seq<Seq<char>>)
    requires
        same_blanks(a, b),
    ensures
        blank_edge_span(a) == blank_edge_span(b),
{
    lemma_same_blanks_counts(a, b);
    let lo = leading_blanks(a) as int;
    lemma_drop_leading(a);
    assert(same_blanks(a.subrange(lo, a.len() as int), b.subrange(lo, b.len() as int))) by {
        assert forall|k: int| 0 <= k < a.len() - lo implies is_blank(
            #[trigger] a.subrange(lo, a.len() as int)[k],
        ) == is_blank(b.subrange(lo, b.len() as int)[k]) by {
            assert(a.subrange(lo, a.len() as int)[k] == a[lo + k]);
            assert(b.subrange(lo, b.len() as int)[k] == b[lo + k]);
        }
    }
    lemma_same_blanks_counts(a.subrange(lo, a.len() as int), b.subrange(lo, b.len() as int));
}

/// A blank line added at the end changes nothing that the blank edges hide.
pub proof fn lemma_strip_push_blank(ls: Seq<Seq<char>>, x: Seq<char>)
    requires
        is_blank(x),
    ensures
        strip_blank_edge_lines(ls.push(x)) == strip_blank_edge_lines(ls),
{
    let (lo, hi) = lemma_strip_span(ls);
    let (lo2, hi2) = lemma_strip_span(ls.push(x));
    let l2 = ls.push(x);
    if lo < hi {
        assert(l2[lo] == ls[lo]);
        assert(l2[hi - 1] == ls[hi - 1]);
        assert(lo2 <= lo) by {
            if lo2 > lo {
                assert(is_blank(l2[lo]));
            }
        }
        assert(lo2 >= lo) by {
            if lo2 < lo {
                assert(is_blank(ls[lo2]));
                assert(l2[lo2] == ls[lo2]);
            }
        }
        assert(hi2 >= hi) by {
            if hi2 < hi {
                assert(is_blank(l2[hi - 1]));
            }
        }
        assert(hi2 <= hi) by {
            if hi2 > hi {
                if hi2 - 1 < ls.len() {
                    assert(l2[hi2 - 1] == ls[hi2 - 1]);
                    assert(is_blank(ls[hi2 - 1]));
                } else {
                    assert(l2[hi2 - 1] == x);
                }
            }
        }
        assert(l2.subrange(lo2, hi2) =~= ls.subrange(lo, hi));
    } else {
        assert(lo2 >= hi2) by {
            if lo2 < hi2 {
                if lo2 < ls.len() {
                    assert(l2[lo2] == ls[lo2]);
                    assert(is_blank(ls[lo2]));
                } else {
                    assert(l2[lo2] == x);
                }
            }
        }
        assert(l2.subrange(lo2, hi2) =~= ls.subrange(lo, hi));
    }
}

/// The pieces of a text with a newline added: one more, empty, piece.
pub proof fn lemma_split_push_newline(s: Seq<char>)
    ensures
        split_newlines(s.push('\n')) == split_newlines(s).push(Seq::empty()),
{
    assert(s.push('\n').drop_last() =~= s);
}

/// The lines of a text with a newline added: where the text ended in a
/// newline, one more empty line; otherwise the same lines, the last one
/// without a carriage return at its end.
pub proof fn lemma_lines_push_newline(s: Seq<char>)
    ensures
        ({
            let l1 = lines(s);
            let l2 = lines(s.push('\n'));
            if split_newlines(s).last().len() == 0 {
                l2 == l1.push(Seq::<char>::empty())
            } else {
                &&& l1.len() > 0
                &&& l2 == l1.update(l1.len() - 1, strip_cr(l1.last()))
            }
        }),
{
    lemma_split_push_newline(s);
    lemma_split_newlines_len(s);
    let p = split_newlines(s);
    let l1 = lines(s);
    let l2 = lines(s.push('\n'));
    let p2 = split_newlines(s.push('\n'));
    assert(p2.len() == p.len() + 1);
    assert(p2.last().len() == 0);
    if p.last().len() == 0 {
        assert(l2.len() == l1.len() + 1);
        assert forall|i: int| 0 <= i < l2.len() implies #[trigger] l2[i] == l1.push(Seq::<char>::empty())[i] by {
            assert(p2[i] == p[i]);
            if i == l1.len() {
                assert(p[i].len() == 0);
                assert(strip_cr(p[i]) =~= Seq::<char>::empty());
            }
        }
        assert(l2 =~= l1.push(Seq::<char>::empty()));
    } else {
        assert(l2 =~= l1.update(l1.len() - 1, strip_cr(l1.last())));
    }
}

/// The words of `s` as `str::split_whitespace` yields them: the maximal runs
/// of characters that are not white space, in order.
pub open spec fn words(s: Seq<char>) -> Seq<Seq<char>>
    decreases s.len(),
{
    if s.len() == 0 {
        Seq::empty()
    } else {
        let prev = words(s.drop_last());
        let c = s.last();
        if is_ws(c) {
            prev
        } else if s.len() >= 2 && !is_ws(s[s.len() - 2]) {
            prev.update(prev.len() - 1, prev.last().push(c))
        } else {
            prev.push(seq![c])
        }
    }
}

/// The range of each word of `v[from..to]`.
pub fn word_ranges(v: &Vec<char>, from: usize, to: usize) -> (r: Vec<(usize, usize)>)
    requires
        from <= to <= v@.len(),
    ensures
        ranges_pick(v@, r@, words(v@.subrange(from as int, to as int))),
{
    let mut r: Vec<(usize, usize)> = Vec::new();
    let mut in_word = false;
    let mut start = from;
    let mut i = from;
    assert(v@.subrange(from as int, from as int) =~= Seq::<char>::empty());
    while i < to
        invariant
            from <= start <= i <= to <= v@.len(),
            ({
                let w = words(v@.subrange(from as int, i as int));
                &&& w.len() == r@.len() + if in_word { 1int } else { 0int }
                &&& forall|k: int|
                    0 <= k < r@.len() ==> {
                        &&& (#[trigger] r@[k]).0 <= r@[k].1 <= i
                        &&& w[k] == v@.subrange(r@[k].0 as int, r@[k].1 as int)
                    }
                &&& in_word ==> w.last() == v@.subrange(start as int, i as int) && start < i
                &&& in_word == (i > from && !is_ws(v@[i - 1]))
            }),
        decreases to - i,
    {
        let ghost t = v@.subrange(from as int, i as int);
        let ghost prev = words(t);
        let ghost old_r = r@;
        let c = v[i];
        let ws = is_whitespace(c);
        assert(v@.subrange(from as int, i + 1).drop_last() =~= t);
        assert(v@.subrange(from as int, i + 1).last() == c);
        if ws {
            if in_word {
                r.push((start, i));
                in_word = false;
                assert forall|k: int| 0 <= k < r@.len() implies {
                    &&& (#[trigger] r@[k]).0 <= r@[k].1 <= i + 1
                    &&& prev[k] == v@.subrange(r@[k].0 as int, r@[k].1 as int)
                } by {
                    if k < old_r.len() {
                        assert(r@[k] == old_r[k]);
                    }
                }
            }
        } else {
            if in_word {
                assert(v@.subrange(from as int, i + 1)[i - from - 1] == v@[i - 1]);
                assert(v@.subrange(start as int, i + 1) =~= v@.subrange(start as int, i as int).push(c));
            } else {
                start = i;
                in_word = true;
                if i > from {
                    assert(v@.subrange(from as int, i + 1)[i - from - 1] == v@[i - 1]);
                }
                assert(v@.subrange(i as int, i + 1) =~= seq![c]);
            }
        }
        i = i + 1;
    }
    if in_word {
        let ghost old_r = r@;
        r.push((start, to));
        assert forall|k: int| 0 <= k < r@.len() implies {
            &&& (#[trigger] r@[k]).0 <= r@[k].1 <= v@.len()
            &&& words(v@.subrange(from as int, to as int))[k] == v@.subrange(r@[k].0 as int, r@[k].1 as int)
        } by {
            if k < old_r.len() {
                assert(r@[k] == old_r[k]);
            }
        }
    }
    r
}

/// Whether `v[from..to]` is exactly the characters of `t`.
pub fn range_matches(v: &Vec<char>, from: usize, to: usize, t: &Vec<char>) -> (b: bool)
    requires
        from <= to <= v@.len(),
    ensures
        b == (v@.subrange(from as int, to as int) == t@),
{
    if to - from != t.len() {
        return false;
    }
    let mut i: usize = 0;
    while i < t.len()
        invariant
            from <= to <= v@.len(),
            to - from == t@.len(),
            i <= t@.len(),
            forall|j: int| 0 <= j < i ==> v@[from + j] == t@[j],
        decreases t@.len() - i,
    {
        if v[from + i] != t[i] {
            assert(v@.subrange(from as int, to as int)[i as int] != t@[i as int]);
            return false;
        }
        i = i + 1;
    }
    assert(v@.subrange(from as int, to as int) =~= t@);
    true
}

/// Whether the characters `v` are those of `t`.
pub fn chars_are(v: &Vec<char>, t: &str) -> (b: bool)
    ensures
        b == (v@ == t@),
{
    let w = chars_of(t);
    assert(v@.subrange(0, v@.len() as int) =~= v@);
    range_matches(v, 0, v.len(), &w)
}

/// A text ending in a character that is not white space has a word.
pub proof fn lemma_words_nonempty(s: Seq<char>)
    requires
        s.len() > 0,
        !is_ws(s.last()),
    ensures
        words(s).len() > 0,
    decreases s.len(),
{
    if s.len() >= 2 && !is_ws(s[s.len() - 2]) {
        assert(s.drop_last().last() == s[s.len() - 2]);
        lemma_words_nonempty(s.drop_last());
    }
}

/// A white space character separates the words before it from those after.
pub proof fn lemma_words_concat(a: Seq<char>, c: char, b: Seq<char>)
    requires
        is_ws(c),
    ensures
        words(a + seq![c] + b) == words(a) + words(b),
    decreases b.len(),
{
    let s = a + seq![c] + b;
    if b.len() == 0 {
        assert(s.drop_last() =~= a);
        assert(words(b) =~= Seq::<Seq<char>>::empty());
        assert(words(a) + words(b) =~= words(a));
    } else {
        let b1 = b.drop_last();
        lemma_words_concat(a, c, b1);
        assert(s.drop_last() =~= a + seq![c] + b1);
        let x = b.last();
        assert(s.last() == x);
        if is_ws(x) {
        } else if b1.len() > 0 && !is_ws(b1.last()) {
            lemma_words_nonempty(b1);
            assert(s[s.len() - 2] == b1.last());
            assert(b[b.len() - 2] == b1.last());
            assert(words(s) =~= words(a) + words(b));
        } else {
            if b1.len() > 0 {
                assert(s[s.len() - 2] == b1.last());
                assert(b[b.len() - 2] == b1.last());
            } else {
                assert(s[s.len() - 2] == c);
            }
            assert(words(s) =~= words(a) + words(b));
        }
    }
}

/// A nonempty text without white space is one word.
pub proof fn lemma_words_single(x: Seq<char>)
    requires
        x.len() > 0,
        forall|i: int| 0 <= i < x.len() ==> !is_ws(#[trigger] x[i]),
    ensures
        words(x) == seq![x],
    decreases x.len(),
{
    assert(!is_ws(x.last()));
    if x.len() == 1 {
        assert(x.drop_last() =~= Seq::<char>::empty());
        assert(words(x.drop_last()) =~= Seq::<Seq<char>>::empty());
        assert(seq![x.last()] =~= x);
        assert(words(x) =~= seq![x]);
    } else {
        assert forall|i: int| 0 <= i < x.len() - 1 implies !is_ws(#[trigger] x.drop_last()[i]) by {
            assert(x.drop_last()[i] == x[i]);
        }
        lemma_words_single(x.drop_last());
        assert(!is_ws(x[x.len() - 2]));
        assert(x.drop_last().push(x.last()) =~= x);
        assert(words(x) =~= seq![x]);
    }
}

} // verus!
