//! The library's text handling against a model built directly on std's
//! `lines`, `trim` and `char::is_whitespace`, over many generated texts.
use wrap::text::is_whitespace;
use wrap::{
    detect_wrapped_format, longest_backtick_run, transform_clipboard_for_paste, unwrap_auto,
    wrap_content, Format, WrappedFormat,
};

fn model_longest(s: &str) -> usize {
    let mut best = 0;
    let mut run = 0;
    for c in s.chars() {
        if c == '`' {
            run += 1;
            best = best.max(run);
        } else {
            run = 0;
        }
    }
    best
}

fn model_lines(s: &str) -> Vec<&str> {
    let mut ls: Vec<&str> = s.lines().collect();
    while ls.first().map_or(false, |l| l.trim().is_empty()) {
        ls.remove(0);
    }
    while ls.last().map_or(false, |l| l.trim().is_empty()) {
        ls.pop();
    }
    ls
}

fn model_is_md(s: &str) -> bool {
    let ls = model_lines(s);
    let n = model_longest(s);
    ls.len() >= 2 && n >= 3 && ls[0].trim() == "`".repeat(n) && ls[ls.len() - 1].trim() == "`".repeat(n)
}

fn model_is_xml(s: &str) -> bool {
    let ls = model_lines(s);
    ls.first().map(|l| l.trim()) == Some("<paste>") && ls.last().map(|l| l.trim()) == Some("</paste>")
}

fn model_detect(s: &str) -> Option<WrappedFormat> {
    if model_is_md(s) {
        Some(WrappedFormat::Markdown)
    } else if model_is_xml(s) {
        Some(WrappedFormat::Xml)
    } else {
        None
    }
}

fn model_wrap(s: &str, f: Format) -> String {
    let c = s.trim_end_matches('\n');
    match f {
        Format::Markdown => {
            let n = model_longest(c);
            let fence = "`".repeat(if n >= 3 { n + 2 } else { 3 });
            format!("{fence}\n{c}\n{fence}\n")
        }
        Format::Xml => format!("<paste>\n{c}\n</paste>\n"),
    }
}

fn model_unwrap_md(s: &str) -> String {
    if !model_is_md(s) {
        return s.to_string();
    }
    let ls = model_lines(s);
    ls[1..ls.len() - 1].join("\n")
}

fn model_unwrap_xml(s: &str) -> String {
    let ls = model_lines(s);
    if ls.len() < 2 || ls[0].trim() != "<paste>" || ls[ls.len() - 1].trim() != "</paste>" {
        return s.to_string();
    }
    let inner = ls[1..ls.len() - 1].join("\n");
    if model_is_md(&inner) {
        inner.trim_end_matches('\n').to_string()
    } else {
        inner
    }
}

fn model_unwrap(s: &str) -> String {
    match model_detect(s) {
        Some(WrappedFormat::Markdown) => model_unwrap_md(s),
        Some(WrappedFormat::Xml) => model_unwrap_xml(s),
        None => s.to_string(),
    }
}

fn model_transform(s: &str, f: Format) -> String {
    match (model_detect(s), f) {
        (Some(WrappedFormat::Markdown), Format::Markdown)
        | (Some(WrappedFormat::Xml), Format::Xml) => s.trim_end_matches('\n').to_string(),
        (Some(WrappedFormat::Markdown), Format::Xml) => model_wrap(&model_unwrap_md(s), Format::Xml),
        (Some(WrappedFormat::Xml), Format::Markdown) => model_wrap(&model_unwrap_xml(s), Format::Markdown),
        (None, f) => model_wrap(s, f),
    }
}

const PIECES: [&str; 14] = [
    "`", "```", "\n", "\r", "\r\n", " ", "\t", "a", "<paste>", "</paste>", "\u{a0}", "\u{3000}",
    "\u{e9}", "x y",
];

fn texts() -> Vec<String> {
    let mut out = vec![String::new()];
    let mut seed: u64 = 0x2545_f491_4f6c_dd1d;
    for _ in 0..4000 {
        let mut s = String::new();
        seed ^= seed << 13;
        seed ^= seed >> 7;
        seed ^= seed << 17;
        let n = (seed % 12) as usize;
        for k in 0..n {
            let pick = ((seed >> (k * 5)) % PIECES.len() as u64) as usize;
            s.push_str(PIECES[pick]);
        }
        out.push(s.clone());
        out.push(format!("```\n{s}\n```"));
        out.push(format!("<paste>\n{s}\n</paste>\n\n"));
        out.push(format!(" \n````\r\n{s}\n ```` \n"));
    }
    out
}

#[test]
fn detection_matches_the_std_model() {
    for s in texts() {
        assert_eq!(detect_wrapped_format(&s), model_detect(&s), "{s:?}");
        assert_eq!(longest_backtick_run(&s), model_longest(&s), "{s:?}");
    }
}

#[test]
fn wrapping_matches_the_std_model() {
    for s in texts() {
        for f in [Format::Markdown, Format::Xml] {
            assert_eq!(wrap_content(&s, f), model_wrap(&s, f), "{s:?}");
            assert_eq!(transform_clipboard_for_paste(&s, f), model_transform(&s, f), "{s:?}");
        }
        assert_eq!(unwrap_auto(&s), model_unwrap(&s), "{s:?}");
    }
}

#[test]
fn whitespace_matches_std() {
    for u in 0u32..0x11_0000 {
        if let Some(c) = char::from_u32(u) {
            assert_eq!(is_whitespace(c), c.is_whitespace(), "{u:x}");
        }
    }
}
