use wrap::{
    detect_wrapped_format, longest_backtick_run, transform_clipboard_for_paste, unwrap_auto,
    wrap_content, Format, WrappedFormat,
};

#[test]
fn markdown_wraps_with_three_backticks_by_default() {
    assert_eq!(wrap_content("hello", Format::Markdown), "```\nhello\n```\n");
}

#[test]
fn markdown_wraps_with_adaptive_fence() {
    assert_eq!(
        wrap_content("a\n```nested\nb", Format::Markdown),
        "`````\na\n```nested\nb\n`````\n"
    );
}

#[test]
fn xml_wraps_with_paste_tags() {
    assert_eq!(
        wrap_content("hello\n", Format::Xml),
        "<paste>\nhello\n</paste>\n"
    );
}

#[test]
fn detects_plain_fences_but_not_labeled_fences() {
    assert_eq!(
        detect_wrapped_format("```\nhello\n```"),
        Some(WrappedFormat::Markdown)
    );
    assert_eq!(detect_wrapped_format("```rust\nhello\n```"), None);
}

#[test]
fn paste_transform_is_idempotent_for_same_format() {
    assert_eq!(
        transform_clipboard_for_paste("```\nhello\n```\n", Format::Markdown),
        "```\nhello\n```"
    );
}

#[test]
fn paste_transform_converts_between_formats() {
    assert_eq!(
        transform_clipboard_for_paste("```\nhello\n```\n", Format::Xml),
        "<paste>\nhello\n</paste>\n"
    );
    assert_eq!(
        transform_clipboard_for_paste("<paste>\nhello\n</paste>\n", Format::Markdown),
        "```\nhello\n```\n"
    );
}

#[test]
fn unwrap_auto_handles_markdown_and_xml() {
    assert_eq!(unwrap_auto("```\nhello\n```"), "hello");
    assert_eq!(unwrap_auto("<paste>\nhello\n</paste>"), "hello");
}

#[test]
fn unwrap_xml_keeps_inner_labeled_fence() {
    assert_eq!(
        unwrap_auto("<paste>\n```rust\nhello\n```\n</paste>"),
        "```rust\nhello\n```"
    );
}

#[test]
fn longest_run_counts_consecutive_backticks() {
    assert_eq!(longest_backtick_run(""), 0);
    assert_eq!(longest_backtick_run("a`b``c"), 2);
    assert_eq!(longest_backtick_run("````"), 4);
    assert_eq!(longest_backtick_run("`` x ```"), 3);
}
