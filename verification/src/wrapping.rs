//! Wrapping text in a Markdown fence or in `<paste>` tags, recognising such
//! wrappers, and taking them off again.
use vstd::prelude::*;

use crate::text::{
    chars_are, chars_of, join_lines, line_ranges, lines, push_range, range_matches, ranges_pick, strip_blank_edge_lines, trim, trim_empty_lines,
    trim_range,
};

verus! {

broadcast use vstd::string::group_string_axioms;

/// The wrapper that a caller asks for.
#[derive(Clone, Copy, Debug, PartialEq, Eq, Structural)]
pub enum Format {
    Markdown,
    Xml,
}

/// The wrapper that a text was found to carry.
#[derive(Clone, Copy, Debug, PartialEq, Eq, Structural)]
pub enum WrappedFormat {
    Markdown,
    Xml,
}

/// `n` backticks.
pub open spec fn fence(n: nat) -> Seq<char> {
    Seq::new(n, |i: int| '`')
}

/// The characters `<paste>`.
pub open spec fn paste_open() -> Seq<char> {
    seq!['<', 'p', 'a', 's', 't', 'e', '>']
}

/// The characters `</paste>`.
pub open spec fn paste_close() -> Seq<char> {
    seq!['<', '/', 'p', 'a', 's', 't', 'e', '>']
}

/// `s` without the `'\n'` characters at its end.
pub open spec fn strip_trailing_newlines(s: Seq<char>) -> Seq<char>
    decreases s.len(),
{
    if s.len() > 0 && s.last() == '\n' {
        strip_trailing_newlines(s.drop_last())
    } else {
        s
    }
}

/// The number of backticks at the end of `s`.
pub open spec fn trailing_backticks(s: Seq<char>) -> nat
    decreases s.len(),
{
    if s.len() > 0 && s.last() == '`' {
        trailing_backticks(s.drop_last()) + 1
    } else {
        0
    }
}

/// The length of the longest run of consecutive backticks in `s`.
pub open spec fn longest_run(s: Seq<char>) -> nat
    decreases s.len(),
{
    if s.len() == 0 {
        0
    } else {
        let before = longest_run(s.drop_last());
        let here = trailing_backticks(s);
        if before >= here {
            before
        } else {
            here
        }
    }
}

/// The length of the fence around content whose longest backtick run is
/// `longest`: two more than that run when it is at least three, else three.
pub open spec fn fence_len(longest: nat) -> nat {
    if longest >= 3 {
        longest + 2
    } else {
        3
    }
}

/// The lines of `s` that the wrapper checks look at: all of them but the
/// blank ones at either end.
pub open spec fn framed_lines(s: Seq<char>) -> Seq<Seq<char>> {
    strip_blank_edge_lines(lines(s))
}

/// The lines between the first and the last of `ls`, joined.
pub open spec fn inner_text(ls: Seq<Seq<char>>) -> Seq<char> {
    join_lines(ls.subrange(1, ls.len() - 1))
}

/// `s` is fenced: at least two framed lines, a backtick run of three or more,
/// and the first and last framed lines are, trimmed, exactly as many
/// backticks as the longest run in `s`.
pub open spec fn spec_is_wrapped_markdown(s: Seq<char>) -> bool {
    let ls = framed_lines(s);
    let l = longest_run(s);
    &&& ls.len() >= 2
    &&& l >= 3
    &&& trim(ls[0]) == fence(l)
    &&& trim(ls.last()) == fence(l)
}

/// `s` is in paste tags: its first framed line is, trimmed, `<paste>` and its
/// last is `</paste>`.
pub open spec fn spec_is_wrapped_xml(s: Seq<char>) -> bool {
    let ls = framed_lines(s);
    &&& ls.len() >= 1
    &&& trim(ls[0]) == paste_open()
    &&& trim(ls.last()) == paste_close()
}

/// The wrapper that `s` carries; a fence is recognised first.
pub open spec fn spec_detect_wrapped_format(s: Seq<char>) -> Option<WrappedFormat> {
    if spec_is_wrapped_markdown(s) {
        Some(WrappedFormat::Markdown)
    } else if spec_is_wrapped_xml(s) {
        Some(WrappedFormat::Xml)
    } else {
        None
    }
}

/// `s` without its trailing newlines, between two fences on lines of their own.
pub open spec fn spec_wrap_markdown(s: Seq<char>) -> Seq<char> {
    let c = strip_trailing_newlines(s);
    let f = fence(fence_len(longest_run(c)));
    f + seq!['\n'] + c + seq!['\n'] + f + seq!['\n']
}

/// `s` without its trailing newlines, between `<paste>` and `</paste>` lines.
pub open spec fn spec_wrap_xml(s: Seq<char>) -> Seq<char> {
    paste_open() + seq!['\n'] + strip_trailing_newlines(s) + seq!['\n'] + paste_close() + seq!['\n']
}

/// `s` wrapped in the given format.
pub open spec fn spec_wrap_content(s: Seq<char>, format: Format) -> Seq<char> {
    match format {
        Format::Markdown => spec_wrap_markdown(s),
        Format::Xml => spec_wrap_xml(s),
    }
}

/// The text inside the fences of `s` when `s` is fenced, else `s`.
pub open spec fn spec_unwrap_markdown(s: Seq<char>) -> Seq<char> {
    if spec_is_wrapped_markdown(s) {
        inner_text(framed_lines(s))
    } else {
        s
    }
}

/// The text inside the paste tags of `s` when `s` is in paste tags, else `s`;
/// a fenced text found inside loses its trailing newlines.
pub open spec fn spec_unwrap_xml(s: Seq<char>) -> Seq<char> {
    let ls = framed_lines(s);
    if ls.len() >= 2 && trim(ls[0]) == paste_open() && trim(ls.last()) == paste_close() {
        let middle = inner_text(ls);
        if spec_is_wrapped_markdown(middle) {
            strip_trailing_newlines(middle)
        } else {
            middle
        }
    } else {
        s
    }
}

/// `s` with its outer wrapper taken off; a text without a known wrapper is
/// left as it is.
pub open spec fn spec_unwrap_auto(s: Seq<char>) -> Seq<char> {
    match spec_detect_wrapped_format(s) {
        Some(WrappedFormat::Markdown) => spec_unwrap_markdown(s),
        Some(WrappedFormat::Xml) => spec_unwrap_xml(s),
        None => s,
    }
}

/// What the clipboard becomes before a paste in `format`: a text already in
/// that wrapper only loses its trailing newlines, a text in the other wrapper
/// is rewrapped, and any other text is wrapped.
pub open spec fn spec_transform_clipboard_for_paste(s: Seq<char>, format: Format) -> Seq<char> {
    match (spec_detect_wrapped_format(s), format) {
        (Some(WrappedFormat::Markdown), Format::Markdown) => strip_trailing_newlines(s),
        (Some(WrappedFormat::Xml), Format::Xml) => strip_trailing_newlines(s),
        (Some(WrappedFormat::Markdown), Format::Xml) => spec_wrap_xml(spec_unwrap_markdown(s)),
        (Some(WrappedFormat::Xml), Format::Markdown) => spec_wrap_markdown(spec_unwrap_xml(s)),
        (None, f) => spec_wrap_content(s, f),
    }
}

/// Appends `v[from..to]` to `out`.
fn push_chars(out: &mut Vec<char>, v: &Vec<char>, from: usize, to: usize)
    requires
        from <= to <= v@.len(),
    ensures
        final(out)@ == old(out)@ + v@.subrange(from as int, to as int),
{
    let mut i = from;
    while i < to
        invariant
            from <= i <= to <= v@.len(),
            out@ == old(out)@ + v@.subrange(from as int, i as int),
        decreases to - i,
    {
        out.push(v[i]);
        i = i + 1;
        assert(v@.subrange(from as int, i as int) =~= v@.subrange(from as int, i - 1).push(v@[i - 1]));
    }
}

/// Appends `n` backticks to `out`.
fn push_backticks(out: &mut Vec<char>, n: usize)
    ensures
        final(out)@ == old(out)@ + fence(n as nat),
{
    let mut i: usize = 0;
    while i < n
        invariant
            i <= n,
            out@ == old(out)@ + fence(i as nat),
        decreases n - i,
    {
        out.push('`');
        i = i + 1;
        assert(fence(i as nat) =~= fence((i - 1) as nat).push('`'));
    }
}

/// The string whose characters are `v`.
fn string_of(v: &Vec<char>) -> (s: String)
    ensures
        s@ == v@,
{
    let mut s = String::new();
    push_range(&mut s, v, 0, v.len());
    assert(v@.subrange(0, v@.len() as int) =~= v@);
    s
}

/// The characters `<paste>`, as a vector.
fn paste_open_chars() -> (v: Vec<char>)
    ensures
        v@ == paste_open(),
{
    let v = chars_of("<paste>");
    proof {
        reveal_strlit("<paste>");
    }
    assert(v@ =~= paste_open());
    v
}

/// The characters `</paste>`, as a vector.
fn paste_close_chars() -> (v: Vec<char>)
    ensures
        v@ == paste_close(),
{
    let v = chars_of("</paste>");
    proof {
        reveal_strlit("</paste>");
    }
    assert(v@ =~= paste_close());
    v
}

/// Whether `v[from..to]` is exactly `n` backticks.
fn range_is_fence(v: &Vec<char>, from: usize, to: usize, n: usize) -> (b: bool)
    requires
        from <= to <= v@.len(),
    ensures
        b == (v@.subrange(from as int, to as int) == fence(n as nat)),
{
    if to - from != n {
        assert(v@.subrange(from as int, to as int).len() != fence(n as nat).len());
        return false;
    }
    let mut i = from;
    while i < to
        invariant
            from <= i <= to <= v@.len(),
            to - from == n,
            forall|j: int| from <= j < i ==> v@[j] == '`',
        decreases to - i,
    {
        if v[i] != '`' {
            assert(v@.subrange(from as int, to as int)[i - from] != fence(n as nat)[i - from]);
            return false;
        }
        i = i + 1;
    }
    assert(v@.subrange(from as int, to as int) =~= fence(n as nat));
    true
}

/// The end of `v[..to]` once its trailing newlines are cut off.
fn trim_trailing_newlines(v: &Vec<char>, to: usize) -> (e: usize)
    requires
        to <= v@.len(),
    ensures
        e <= to,
        strip_trailing_newlines(v@.subrange(0, to as int)) == v@.subrange(0, e as int),
{
    let mut e = to;
    while e > 0 && v[e - 1] == '\n'
        invariant
            e <= to <= v@.len(),
            strip_trailing_newlines(v@.subrange(0, to as int)) == strip_trailing_newlines(
                v@.subrange(0, e as int),
            ),
        decreases e,
    {
        assert(v@.subrange(0, e as int).drop_last() =~= v@.subrange(0, e - 1));
        e = e - 1;
    }
    e
}

/// The longest backtick run in `v[..to]`.
fn longest_run_upto(v: &Vec<char>, to: usize) -> (n: usize)
    requires
        to <= v@.len(),
    ensures
        n == longest_run(v@.subrange(0, to as int)),
{
    let mut max: usize = 0;
    let mut current: usize = 0;
    let mut i: usize = 0;
    while i < to
        invariant
            i <= to <= v@.len(),
            current <= i,
            max <= i,
            current == trailing_backticks(v@.subrange(0, i as int)),
            longest_run(v@.subrange(0, i as int)) == if max >= current {
                max
            } else {
                current
            },
        decreases to - i,
    {
        assert(v@.subrange(0, i + 1).drop_last() =~= v@.subrange(0, i as int));
        if v[i] == '`' {
            current = current + 1;
        } else {
            if current > max {
                max = current;
            }
            current = 0;
        }
        i = i + 1;
    }
    if current > max {
        current
    } else {
        max
    }
}

/// `ls[from..to]` joined with newlines, where `r` picks out the lines `ls`
/// of `v`.
fn join_ranges(
    v: &Vec<char>,
    r: &Vec<(usize, usize)>,
    from: usize,
    to: usize,
    Ghost(ls): Ghost<Seq<Seq<char>>>,
) -> (out: Vec<char>)
    requires
        ranges_pick(v@, r@, ls),
        from <= to <= ls.len(),
    ensures
        out@ == join_lines(ls.subrange(from as int, to as int)),
{
    let mut out: Vec<char> = Vec::new();
    let mut k = from;
    while k < to
        invariant
            ranges_pick(v@, r@, ls),
            from <= k <= to <= ls.len(),
            out@ == join_lines(ls.subrange(from as int, k as int)),
        decreases to - k,
    {
        let ghost before = out@;
        if k > from {
            out.push('\n');
        }
        push_chars(&mut out, v, r[k].0, r[k].1);
        k = k + 1;
        proof {
            let sub = ls.subrange(from as int, k as int);
            assert(sub.drop_last() =~= ls.subrange(from as int, k - 1));
            assert(sub.last() == ls[k - 1]);
            if k - 1 == from {
                assert(before =~= Seq::<char>::empty());
                assert(out@ =~= sub[0]);
            } else {
                assert(out@ =~= before + seq!['\n'] + sub.last());
            }
        }
    }
    out
}

/// The line ranges of `v` and the span of them that is not blank at either end.
fn framed(v: &Vec<char>) -> (res: (Vec<(usize, usize)>, usize, usize))
    ensures
        ranges_pick(v@, res.0@, lines(v@)),
        res.1 <= res.2 <= lines(v@).len(),
        framed_lines(v@) == lines(v@).subrange(res.1 as int, res.2 as int),
{
    let r = line_ranges(v);
    let (lo, hi) = trim_empty_lines(v, &r, Ghost(lines(v@)));
    (r, lo, hi)
}

/// Whether line `k` of `v`, trimmed, is exactly `n` backticks.
fn line_is_fence(v: &Vec<char>, r: &Vec<(usize, usize)>, k: usize, n: usize, Ghost(ls): Ghost<Seq<Seq<char>>>) -> (b: bool)
    requires
        ranges_pick(v@, r@, ls),
        k < ls.len(),
    ensures
        b == (trim(ls[k as int]) == fence(n as nat)),
{
    let (a, b) = trim_range(v, r[k].0, r[k].1);
    range_is_fence(v, a, b, n)
}

/// Whether line `k` of `v`, trimmed, is exactly the characters of `t`.
fn line_matches(v: &Vec<char>, r: &Vec<(usize, usize)>, k: usize, t: &Vec<char>, Ghost(ls): Ghost<Seq<Seq<char>>>) -> (b: bool)
    requires
        ranges_pick(v@, r@, ls),
        k < ls.len(),
    ensures
        b == (trim(ls[k as int]) == t@),
{
    let (a, b) = trim_range(v, r[k].0, r[k].1);
    range_matches(v, a, b, t)
}

/// Whether `v` is fenced.
fn is_wrapped_markdown(v: &Vec<char>) -> (b: bool)
    ensures
        b == spec_is_wrapped_markdown(v@),
{
    let (r, lo, hi) = framed(v);
    let ghost ls = lines(v@);
    let ghost fl = framed_lines(v@);
    if hi - lo < 2 {
        return false;
    }
    let longest = longest_run_upto(v, v.len());
    assert(v@.subrange(0, v@.len() as int) =~= v@);
    if longest < 3 {
        return false;
    }
    assert(fl[0] == ls[lo as int]);
    assert(fl.last() == ls[hi - 1]);
    line_is_fence(v, &r, lo, longest, Ghost(ls)) && line_is_fence(v, &r, hi - 1, longest, Ghost(ls))
}

/// Whether `v` is in paste tags.
fn is_wrapped_xml(v: &Vec<char>) -> (b: bool)
    ensures
        b == spec_is_wrapped_xml(v@),
{
    let (r, lo, hi) = framed(v);
    let ghost ls = lines(v@);
    let ghost fl = framed_lines(v@);
    if hi == lo {
        return false;
    }
    assert(fl[0] == ls[lo as int]);
    assert(fl.last() == ls[hi - 1]);
    let open = paste_open_chars();
    let close = paste_close_chars();
    line_matches(v, &r, lo, &open, Ghost(ls)) && line_matches(v, &r, hi - 1, &close, Ghost(ls))
}

/// The wrapper that `v` carries.
fn detect_chars(v: &Vec<char>) -> (f: Option<WrappedFormat>)
    ensures
        f == spec_detect_wrapped_format(v@),
{
    if is_wrapped_markdown(v) {
        Some(WrappedFormat::Markdown)
    } else if is_wrapped_xml(v) {
        Some(WrappedFormat::Xml)
    } else {
        None
    }
}

/// `v` fenced.
fn wrap_markdown(v: &Vec<char>) -> (out: Vec<char>)
    ensures
        out@ == spec_wrap_markdown(v@),
{
    let e = trim_trailing_newlines(v, v.len());
    assert(v@.subrange(0, v@.len() as int) =~= v@);
    let longest = longest_run_upto(v, e);
    let mut f: Vec<char> = Vec::new();
    if longest >= 3 {
        push_backticks(&mut f, longest);
        f.push('`');
        f.push('`');
        assert(f@ =~= fence(longest as nat + 2));
    } else {
        push_backticks(&mut f, 3);
    }
    let mut out: Vec<char> = Vec::new();
    push_chars(&mut out, &f, 0, f.len());
    out.push('\n');
    push_chars(&mut out, v, 0, e);
    out.push('\n');
    push_chars(&mut out, &f, 0, f.len());
    out.push('\n');
    assert(f@.subrange(0, f@.len() as int) =~= f@);
    assert(out@ =~= spec_wrap_markdown(v@));
    out
}

/// `v` in paste tags.
fn wrap_xml(v: &Vec<char>) -> (out: Vec<char>)
    ensures
        out@ == spec_wrap_xml(v@),
{
    let e = trim_trailing_newlines(v, v.len());
    assert(v@.subrange(0, v@.len() as int) =~= v@);
    let open = paste_open_chars();
    let close = paste_close_chars();
    let mut out: Vec<char> = Vec::new();
    push_chars(&mut out, &open, 0, open.len());
    out.push('\n');
    push_chars(&mut out, v, 0, e);
    out.push('\n');
    push_chars(&mut out, &close, 0, close.len());
    out.push('\n');
    assert(open@.subrange(0, open@.len() as int) =~= open@);
    assert(close@.subrange(0, close@.len() as int) =~= close@);
    assert(out@ =~= spec_wrap_xml(v@));
    out
}

/// `v` wrapped in `format`.
fn wrap_chars(v: &Vec<char>, format: Format) -> (out: Vec<char>)
    ensures
        out@ == spec_wrap_content(v@, format),
{
    match format {
        Format::Markdown => wrap_markdown(v),
        Format::Xml => wrap_xml(v),
    }
}

/// The text inside the fences of `v`, or `v` itself when it is not fenced.
fn unwrap_markdown(v: &Vec<char>) -> (out: Vec<char>)
    ensures
        out@ == spec_unwrap_markdown(v@),
{
    if !is_wrapped_markdown(v) {
        return v.clone();
    }
    let (r, lo, hi) = framed(v);
    let ghost ls = lines(v@);
    let out = join_ranges(v, &r, lo + 1, hi - 1, Ghost(ls));
    assert(framed_lines(v@).subrange(1, (hi - lo) - 1) =~= ls.subrange(lo + 1, hi - 1));
    out
}

/// The text inside the paste tags of `v`, or `v` itself when it is not in them.
fn unwrap_xml(v: &Vec<char>) -> (out: Vec<char>)
    ensures
        out@ == spec_unwrap_xml(v@),
{
    let (r, lo, hi) = framed(v);
    let ghost ls = lines(v@);
    let ghost fl = framed_lines(v@);
    if hi - lo < 2 {
        return v.clone();
    }
    assert(fl[0] == ls[lo as int]);
    assert(fl.last() == ls[hi - 1]);
    let open = paste_open_chars();
    let close = paste_close_chars();
    if !line_matches(v, &r, lo, &open, Ghost(ls)) || !line_matches(v, &r, hi - 1, &close, Ghost(ls)) {
        return v.clone();
    }
    let middle = join_ranges(v, &r, lo + 1, hi - 1, Ghost(ls));
    assert(fl.subrange(1, (hi - lo) - 1) =~= ls.subrange(lo + 1, hi - 1));
    if is_wrapped_markdown(&middle) {
        let e = trim_trailing_newlines(&middle, middle.len());
        assert(middle@.subrange(0, middle@.len() as int) =~= middle@);
        let mut out: Vec<char> = Vec::new();
        push_chars(&mut out, &middle, 0, e);
        out
    } else {
        middle
    }
}

impl Format {
    /// The name of the format on the wire: `md` or `xml`.
    pub fn as_wire(self) -> (s: &'static str)
        ensures
            s@ == match self {
                Format::Markdown => "md"@,
                Format::Xml => "xml"@,
            },
    {
        match self {
            Format::Markdown => "md",
            Format::Xml => "xml",
        }
    }
}

/// `content` wrapped in `format`.
pub fn wrap_content(content: &str, format: Format) -> (s: String)
    ensures
        s@ == spec_wrap_content(content@, format),
{
    let v = chars_of(content);
    string_of(&wrap_chars(&v, format))
}

/// What the clipboard becomes before a paste in `format`.
pub fn transform_clipboard_for_paste(content: &str, format: Format) -> (s: String)
    ensures
        s@ == spec_transform_clipboard_for_paste(content@, format),
{
    let v = chars_of(content);
    let out = match (detect_chars(&v), format) {
        (Some(WrappedFormat::Markdown), Format::Markdown) | (Some(WrappedFormat::Xml), Format::Xml) => {
            let e = trim_trailing_newlines(&v, v.len());
            assert(v@.subrange(0, v@.len() as int) =~= v@);
            let mut out: Vec<char> = Vec::new();
            push_chars(&mut out, &v, 0, e);
            out
        },
        (Some(WrappedFormat::Markdown), Format::Xml) => wrap_xml(&unwrap_markdown(&v)),
        (Some(WrappedFormat::Xml), Format::Markdown) => wrap_markdown(&unwrap_xml(&v)),
        (None, format) => wrap_chars(&v, format),
    };
    string_of(&out)
}

/// `content` with its outer wrapper taken off; content without a known
/// wrapper comes back as it is.
pub fn unwrap_auto(content: &str) -> (s: String)
    ensures
        s@ == spec_unwrap_auto(content@),
{
    let v = chars_of(content);
    let out = match detect_chars(&v) {
        Some(WrappedFormat::Markdown) => unwrap_markdown(&v),
        Some(WrappedFormat::Xml) => unwrap_xml(&v),
        None => v,
    };
    string_of(&out)
}

/// The wrapper that `content` carries, if any.
pub fn detect_wrapped_format(content: &str) -> (f: Option<WrappedFormat>)
    ensures
        f == spec_detect_wrapped_format(content@),
{
    detect_chars(&chars_of(content))
}

/// The length of the longest run of consecutive backticks in `content`.
pub fn longest_backtick_run(content: &str) -> (n: usize)
    ensures
        n == longest_run(content@),
{
    let v = chars_of(content);
    let n = longest_run_upto(&v, v.len());
    assert(v@.subrange(0, v@.len() as int) =~= v@);
    n
}

/// The format that `value` names: `md` or `markdown`, `xml` or `paste`;
/// any other name is refused with a message that quotes it.
pub open spec fn spec_parse_format(value: Seq<char>) -> Result<Format, Seq<char>> {
    if value == "md"@ || value == "markdown"@ {
        Ok(Format::Markdown)
    } else if value == "xml"@ || value == "paste"@ {
        Ok(Format::Xml)
    } else {
        Err("unknown format '"@ + value + "', expected md or xml"@)
    }
}

impl Format {
    /// The format that `value` names.
    pub fn parse(value: &str) -> (res: Result<Format, String>)
        ensures
            match res {
                Ok(f) => spec_parse_format(value@) == Ok::<Format, Seq<char>>(f),
                Err(e) => spec_parse_format(value@) == Err::<Format, Seq<char>>(e@),
            },
    {
        let v = chars_of(value);
        if chars_are(&v, "md") || chars_are(&v, "markdown") {
            Ok(Format::Markdown)
        } else if chars_are(&v, "xml") || chars_are(&v, "paste") {
            Ok(Format::Xml)
        } else {
            let mut e = String::from_str("unknown format '");
            e.append(value);
            e.append("', expected md or xml");
            Err(e)
        }
    }
}

impl core::str::FromStr for Format {
    type Err = String;

    fn from_str(value: &str) -> (res: Result<Format, String>)
        ensures
            match res {
                Ok(f) => spec_parse_format(value@) == Ok::<Format, Seq<char>>(f),
                Err(e) => spec_parse_format(value@) == Err::<Format, Seq<char>>(e@),
            },
    {
        Format::parse(value)
    }
}

} // verus!
