//! What holds of wrapping, detection and unwrapping across calls.
use vstd::prelude::*;

use crate::text::{
    is_blank, is_ws, lemma_join_split, lemma_split_concat, lemma_split_newlines_len,
    lemma_split_no_newline, lemma_trim_unchanged, lemma_lines_push_newline, lemma_same_blanks_span, lemma_strip_cr_trim,
    lemma_strip_push_blank, lemma_strip_span, lines, same_blanks, split_newlines, strip_cr, trim,
};
use crate::wrapping::{
    fence, fence_len, framed_lines, inner_text, paste_close, paste_open, spec_unwrap_auto,
    spec_transform_clipboard_for_paste, spec_unwrap_markdown, spec_unwrap_xml, spec_wrap_content, spec_wrap_markdown, spec_wrap_xml,
    Format, WrappedFormat, longest_run, spec_detect_wrapped_format, spec_is_wrapped_markdown,
    spec_is_wrapped_xml, strip_trailing_newlines, trailing_backticks,
};

verus! {

/// A newline at the end is no backtick.
proof fn lemma_longest_push_newline(s: Seq<char>)
    ensures
        longest_run(s.push('\n')) == longest_run(s),
{
    assert(s.push('\n').drop_last() =~= s);
    assert(trailing_backticks(s.push('\n')) == 0);
}

/// A newline at the end leaves the framed lines as many, and their first
/// and last lines the same once trimmed.
proof fn lemma_framed_push_newline(s: Seq<char>)
    ensures
        ({
            let f1 = framed_lines(s);
            let f2 = framed_lines(s.push('\n'));
            &&& f1.len() == f2.len()
            &&& f1.len() > 0 ==> trim(f1[0]) == trim(f2[0]) && trim(f1.last()) == trim(f2.last())
        }),
{
    lemma_lines_push_newline(s);
    let l1 = lines(s);
    let l2 = lines(s.push('\n'));
    if split_newlines(s).last().len() == 0 {
        assert(is_blank(Seq::<char>::empty()));
        lemma_strip_push_blank(l1, Seq::<char>::empty());
    } else {
        let n = l1.len() - 1;
        lemma_strip_cr_trim(l1[n]);
        assert(same_blanks(l1, l2)) by {
            assert forall|k: int| 0 <= k < l1.len() implies is_blank(#[trigger] l1[k]) == is_blank(l2[k]) by {
                if k == n {
                    assert(l2[k] == strip_cr(l1[k]));
                } else {
                    assert(l2[k] == l1[k]);
                }
            }
        }
        lemma_same_blanks_span(l1, l2);
        let (lo, hi) = lemma_strip_span(l1);
        let (lo2, hi2) = lemma_strip_span(l2);
        assert(lo == lo2 && hi == hi2);
        let f1 = framed_lines(s);
        let f2 = framed_lines(s.push('\n'));
        if lo < hi {
            assert(f1[0] == l1[lo]);
            assert(f2[0] == l2[lo]);
            assert(f1.last() == l1[hi - 1]);
            assert(f2.last() == l2[hi - 1]);
            assert(trim(l1[lo]) == trim(l2[lo]));
            assert(trim(l1[hi - 1]) == trim(l2[hi - 1]));
        }
    }
}

/// A newline at the end changes nothing in what is detected.
proof fn lemma_detect_push_newline(s: Seq<char>)
    ensures
        spec_is_wrapped_markdown(s.push('\n')) == spec_is_wrapped_markdown(s),
        spec_is_wrapped_xml(s.push('\n')) == spec_is_wrapped_xml(s),
        spec_detect_wrapped_format(s.push('\n')) == spec_detect_wrapped_format(s),
{
    lemma_longest_push_newline(s);
    lemma_framed_push_newline(s);
}

/// Trailing newlines change nothing in what is detected.
pub proof fn law_detect_ignores_trailing_newlines(s: Seq<char>)
    ensures
        spec_is_wrapped_markdown(strip_trailing_newlines(s)) == spec_is_wrapped_markdown(s),
        spec_is_wrapped_xml(strip_trailing_newlines(s)) == spec_is_wrapped_xml(s),
        spec_detect_wrapped_format(strip_trailing_newlines(s)) == spec_detect_wrapped_format(s),
    decreases s.len(),
{
    if s.len() > 0 && s.last() == '\n' {
        law_detect_ignores_trailing_newlines(s.drop_last());
        assert(s.drop_last().push('\n') =~= s);
        lemma_detect_push_newline(s.drop_last());
    }
}

/// Cutting trailing newlines twice is cutting them once.
pub proof fn lemma_strip_trailing_newlines_idempotent(s: Seq<char>)
    ensures
        strip_trailing_newlines(strip_trailing_newlines(s)) == strip_trailing_newlines(s),
        strip_trailing_newlines(s).len() > 0 ==> strip_trailing_newlines(s).last() != '\n',
    decreases s.len(),
{
    if s.len() > 0 && s.last() == '\n' {
        lemma_strip_trailing_newlines_idempotent(s.drop_last());
    }
}

/// Backticks at the end of a text lie after its last newline.
proof fn lemma_trailing_after_newline(a: Seq<char>, b: Seq<char>)
    ensures
        trailing_backticks(a + seq!['\n'] + b) == trailing_backticks(b),
    decreases b.len(),
{
    let s = a + seq!['\n'] + b;
    if b.len() == 0 {
        assert(s.last() == '\n');
    } else {
        assert(s.drop_last() =~= a + seq!['\n'] + b.drop_last());
        assert(s.last() == b.last());
        lemma_trailing_after_newline(a, b.drop_last());
    }
}

/// No backtick run crosses a newline.
proof fn lemma_longest_concat(a: Seq<char>, b: Seq<char>)
    ensures
        longest_run(a + seq!['\n'] + b) == if longest_run(a) >= longest_run(b) {
            longest_run(a)
        } else {
            longest_run(b)
        },
    decreases b.len(),
{
    let s = a + seq!['\n'] + b;
    lemma_trailing_after_newline(a, b);
    if b.len() == 0 {
        assert(s.drop_last() =~= a);
    } else {
        assert(s.drop_last() =~= a + seq!['\n'] + b.drop_last());
        lemma_longest_concat(a, b.drop_last());
    }
}

/// The longest run in `n` backticks is `n`.
proof fn lemma_longest_fence(n: nat)
    ensures
        longest_run(fence(n)) == n,
        trailing_backticks(fence(n)) == n,
    decreases n,
{
    if n > 0 {
        assert(fence(n).drop_last() =~= fence((n - 1) as nat));
        lemma_longest_fence((n - 1) as nat);
    }
}

/// The lines with carriage returns taken off their ends.
pub open spec fn cr_stripped(ps: Seq<Seq<char>>) -> Seq<Seq<char>> {
    Seq::new(ps.len(), |i: int| strip_cr(ps[i]))
}

/// A text between an opening and a closing line has those lines, around the
/// text's own lines.
proof fn lemma_frame_lines(open: Seq<char>, c: Seq<char>, close: Seq<char>)
    requires
        open.len() > 0,
        close.len() > 0,
        forall|i: int| 0 <= i < open.len() ==> open[i] != '\n' && open[i] != '\r',
        forall|i: int| 0 <= i < close.len() ==> close[i] != '\n' && close[i] != '\r',
    ensures
        lines(open + seq!['\n'] + c + seq!['\n'] + close + seq!['\n']) == seq![open] + cr_stripped(
            split_newlines(c),
        ) + seq![close],
{
    let w = open + seq!['\n'] + c + seq!['\n'] + close + seq!['\n'];
    let tail = close + seq!['\n'] + Seq::<char>::empty();
    let mid = c + seq!['\n'] + tail;
    assert(w =~= open + seq!['\n'] + mid);
    lemma_split_concat(open, mid);
    lemma_split_concat(c, tail);
    lemma_split_concat(close, Seq::<char>::empty());
    lemma_split_no_newline(open);
    lemma_split_no_newline(close);
    assert(split_newlines(Seq::<char>::empty()) == seq![Seq::<char>::empty()]);
    let p = split_newlines(c);
    lemma_split_newlines_len(c);
    let pieces = split_newlines(w);
    assert(pieces =~= seq![open] + p + seq![close, Seq::<char>::empty()]);
    assert(strip_cr(open) == open);
    assert(strip_cr(close) == close);
    let want = seq![open] + cr_stripped(p) + seq![close];
    assert(lines(w) =~= want);
}

/// A text between an opening and a closing line that are not blank has
/// all its lines framed.
proof fn lemma_frame_framed(open: Seq<char>, c: Seq<char>, close: Seq<char>)
    requires
        open.len() > 0,
        close.len() > 0,
        forall|i: int| 0 <= i < open.len() ==> open[i] != '\n' && open[i] != '\r',
        forall|i: int| 0 <= i < close.len() ==> close[i] != '\n' && close[i] != '\r',
        !is_ws(open[0]),
        !is_ws(close[0]),
    ensures
        framed_lines(open + seq!['\n'] + c + seq!['\n'] + close + seq!['\n']) == seq![open]
            + cr_stripped(split_newlines(c)) + seq![close],
{
    let w = open + seq!['\n'] + c + seq!['\n'] + close + seq!['\n'];
    lemma_frame_lines(open, c, close);
    let ls = lines(w);
    let (lo, hi) = lemma_strip_span(ls);
    assert(!is_blank(ls[0])) by {
        assert(ls[0] == open);
    }
    assert(!is_blank(ls[ls.len() - 1])) by {
        assert(ls[ls.len() - 1] == close);
    }
    assert(lo == 0) by {
        if lo > 0 {
            assert(is_blank(ls[0]));
        }
    }
    assert(hi == ls.len()) by {
        if hi < ls.len() {
            assert(is_blank(ls[ls.len() - 1]));
        }
    }
    assert(ls.subrange(lo, hi) =~= ls);
}

/// The characters of a fence: no newline, no carriage return, and not white space.
proof fn lemma_fence_chars(n: nat)
    ensures
        forall|i: int| 0 <= i < n ==> fence(n)[i] != '\n' && fence(n)[i] != '\r' && !is_ws(#[trigger] fence(n)[i]),
{
}

/// Wrapping in a format gives a text that is detected as wrapped in that
/// format, whatever the content.
pub proof fn law_wrap_is_detected(content: Seq<char>, format: Format)
    ensures
        spec_detect_wrapped_format(spec_wrap_content(content, format)) == Some(matching(format)),
{
    let c = strip_trailing_newlines(content);
    match format {
        Format::Markdown => {
            let n = fence_len(longest_run(c));
            let f = fence(n);
            let w = spec_wrap_markdown(content);
            lemma_fence_chars(n);
            lemma_frame_framed(f, c, f);
            let fl = framed_lines(w);
            assert(fl[0] == f);
            assert(fl.last() == f);
            lemma_trim_unchanged(f);
            lemma_longest_fence(n);
            let tail = f + seq!['\n'] + Seq::<char>::empty();
            lemma_longest_concat(f, Seq::<char>::empty());
            lemma_longest_concat(c, tail);
            lemma_longest_concat(f, c + seq!['\n'] + tail);
            assert(w =~= f + seq!['\n'] + (c + seq!['\n'] + tail));
            assert(longest_run(w) == n);
            assert(spec_is_wrapped_markdown(w));
        },
        Format::Xml => {
            let w = spec_wrap_xml(content);
            let o = paste_open();
            let cl = paste_close();
            lemma_frame_framed(o, c, cl);
            let fl = framed_lines(w);
            assert(fl[0] == o);
            assert(fl.last() == cl);
            lemma_trim_unchanged(o);
            lemma_trim_unchanged(cl);
            assert(!spec_is_wrapped_markdown(w)) by {
                if spec_is_wrapped_markdown(w) {
                    let l = longest_run(w);
                    assert(fence(l)[0] == '`');
                    assert(o[0] == '<');
                }
            }
            assert(spec_is_wrapped_xml(w));
        },
    }
}

/// No line of `s` ends in a carriage return, which `str::lines` would take
/// for part of a line ending once `s` is wrapped.
pub open spec fn no_cr_line_ends(s: Seq<char>) -> bool {
    forall|k: int|
        0 <= k < split_newlines(s).len() ==> strip_cr(#[trigger] split_newlines(s)[k])
            == split_newlines(s)[k]
}

/// Unwrapping a wrapped text gives back the content without its trailing
/// newlines, for content none of whose lines ends in a carriage return.
pub proof fn law_unwrap_wrap(content: Seq<char>, format: Format)
    requires
        no_cr_line_ends(strip_trailing_newlines(content)),
    ensures
        spec_unwrap_auto(spec_wrap_content(content, format)) == strip_trailing_newlines(content),
{
    let c = strip_trailing_newlines(content);
    law_wrap_is_detected(content, format);
    let p = split_newlines(c);
    lemma_split_newlines_len(c);
    assert(cr_stripped(p) =~= p);
    lemma_join_split(c);
    match format {
        Format::Markdown => {
            let n = fence_len(longest_run(c));
            let f = fence(n);
            let w = spec_wrap_markdown(content);
            lemma_fence_chars(n);
            lemma_frame_framed(f, c, f);
            let fl = framed_lines(w);
            assert(fl.subrange(1, fl.len() - 1) =~= p);
            assert(spec_unwrap_markdown(w) == c);
        },
        Format::Xml => {
            let w = spec_wrap_xml(content);
            let o = paste_open();
            let cl = paste_close();
            lemma_frame_framed(o, c, cl);
            let fl = framed_lines(w);
            assert(fl.subrange(1, fl.len() - 1) =~= p);
            assert(fl[0] == o);
            assert(fl.last() == cl);
            lemma_trim_unchanged(o);
            lemma_trim_unchanged(cl);
            assert(inner_text(fl) == c);
            lemma_strip_trailing_newlines_idempotent(content);
            assert(spec_unwrap_xml(w) == c);
        },
    }
}

/// The wrapped format that matches a requested format.
pub open spec fn matching(format: Format) -> WrappedFormat {
    match format {
        Format::Markdown => WrappedFormat::Markdown,
        Format::Xml => WrappedFormat::Xml,
    }
}

/// After the paste transform the clipboard is detected as wrapped in the
/// requested format, whatever it held before.
pub proof fn law_transform_is_detected(content: Seq<char>, format: Format)
    ensures
        spec_detect_wrapped_format(spec_transform_clipboard_for_paste(content, format)) == Some(
            matching(format),
        ),
{
    match (spec_detect_wrapped_format(content), format) {
        (Some(WrappedFormat::Markdown), Format::Markdown) => {
            law_detect_ignores_trailing_newlines(content);
        },
        (Some(WrappedFormat::Xml), Format::Xml) => {
            law_detect_ignores_trailing_newlines(content);
        },
        (Some(WrappedFormat::Markdown), Format::Xml) => {
            law_wrap_is_detected(spec_unwrap_markdown(content), Format::Xml);
        },
        (Some(WrappedFormat::Xml), Format::Markdown) => {
            law_wrap_is_detected(spec_unwrap_xml(content), Format::Markdown);
        },
        (None, f) => {
            law_wrap_is_detected(content, f);
        },
    }
}

/// Pasting again in the same format only drops trailing newlines.
pub proof fn law_transform_again_trims(content: Seq<char>, format: Format)
    ensures
        ({
            let once = spec_transform_clipboard_for_paste(content, format);
            spec_transform_clipboard_for_paste(once, format) == strip_trailing_newlines(once)
        }),
{
    law_transform_is_detected(content, format);
}

/// For a text already wrapped in the requested format, the paste transform
/// is idempotent.
pub proof fn law_transform_idempotent_when_wrapped(content: Seq<char>, format: Format)
    requires
        spec_detect_wrapped_format(content) == Some(matching(format)),
    ensures
        ({
            let once = spec_transform_clipboard_for_paste(content, format);
            spec_transform_clipboard_for_paste(once, format) == once
        }),
{
    law_transform_again_trims(content, format);
    lemma_strip_trailing_newlines_idempotent(content);
}

/// Wrapping ignores the content's trailing newlines.
pub proof fn law_wrap_ignores_trailing_newlines(content: Seq<char>, format: Format)
    ensures
        spec_wrap_content(strip_trailing_newlines(content), format) == spec_wrap_content(content, format),
{
    lemma_strip_trailing_newlines_idempotent(content);
}

} // verus!
