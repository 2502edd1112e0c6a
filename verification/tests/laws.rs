use wrap::client::{paste_text_request, request_from_args_at, ClientRequest};
use wrap::clipboard::{ClipboardRead, ClipboardState, Message};
use wrap::protocol::{parse_paste_text_request, plan_request_at, request_label, DaemonAction};
use wrap::wire::{
    decode_message, encode_message, message_size, push_string, push_u32, source_send_event, u32_at,
    Arg, ByteOrder, Reader,
};
use wrap::{
    detect_wrapped_format, transform_clipboard_for_paste, unwrap_auto, wrap_content, Format,
    WrappedFormat,
};

const CONTENTS: [&str; 9] = [
    "",
    "hello",
    "hello\n\n",
    "a\n```rust\nb\n```\n",
    "`````",
    "\n\nx\n  \n",
    "<paste>\ny\n</paste>",
    "tab\there",
    "caf\u{e9} \u{3000}",
];

#[test]
fn wrapped_text_is_detected_in_its_format() {
    for c in CONTENTS {
        assert_eq!(detect_wrapped_format(&wrap_content(c, Format::Markdown)), Some(WrappedFormat::Markdown));
        assert_eq!(detect_wrapped_format(&wrap_content(c, Format::Xml)), Some(WrappedFormat::Xml));
    }
}

#[test]
fn unwrapping_gives_back_the_content() {
    for c in CONTENTS {
        for f in [Format::Markdown, Format::Xml] {
            assert_eq!(unwrap_auto(&wrap_content(c, f)), c.trim_end_matches('\n'));
        }
    }
    // A line ending in a carriage return loses it, as `str::lines` reads it.
    assert_eq!(unwrap_auto(&wrap_content("a\r", Format::Markdown)), "a");
}

#[test]
fn unwrapping_leaves_plain_text_unchanged() {
    assert_eq!(unwrap_auto("plain\n\n"), "plain\n\n");
    assert_eq!(unwrap_auto("```rust\nx\n```\n"), "```rust\nx\n```\n");
}

#[test]
fn trailing_newlines_change_neither_detection_nor_wrapping() {
    for c in ["```\nx\n```", "<paste>\nx\n</paste>", "x", "```\nx\n```\r"] {
        let more = format!("{c}\n\n\n");
        assert_eq!(detect_wrapped_format(&more), detect_wrapped_format(c));
        for f in [Format::Markdown, Format::Xml] {
            assert_eq!(wrap_content(&more, f), wrap_content(c, f));
        }
    }
}

#[test]
fn pasting_again_only_trims() {
    for c in CONTENTS {
        for f in [Format::Markdown, Format::Xml] {
            let once = transform_clipboard_for_paste(c, f);
            let expected = if f == Format::Markdown { WrappedFormat::Markdown } else { WrappedFormat::Xml };
            assert_eq!(detect_wrapped_format(&once), Some(expected));
            let twice = transform_clipboard_for_paste(&once, f);
            assert_eq!(twice, once.trim_end_matches('\n'));
            assert_eq!(transform_clipboard_for_paste(&twice, f), twice);
        }
    }
    assert_eq!(transform_clipboard_for_paste("hello", Format::Markdown), "```\nhello\n```\n");
}

#[test]
fn paste_text_requests_round_trip() {
    for c in ["", "x", "hello\nworld\n", " padded ", "\u{1f600}\r\n"] {
        let line = paste_text_request(1234, c);
        assert_eq!(parse_paste_text_request(&line), Ok(Some(("1234", c.to_string()))));
        assert_eq!(plan_request_at(&line, 3234), Ok(DaemonAction::PasteText(c.to_string())));
        assert_eq!(
            plan_request_at(&line, 3235),
            Err("dropping stale action request, age=2001ms".to_string())
        );
    }
}

#[test]
fn stale_client_requests_are_refused() {
    let line = match request_from_args_at(&["emit-paste".to_string()], 100).unwrap() {
        ClientRequest::Send(l) => l,
        ClientRequest::PasteStdin => panic!("a line is sent"),
    };
    assert_eq!(plan_request_at(&line, 2100), Ok(DaemonAction::EmitPaste));
    assert_eq!(plan_request_at(&line, 50), Ok(DaemonAction::EmitPaste));
    assert_eq!(
        plan_request_at(&line, 2101),
        Err("dropping stale action request, age=2001ms".to_string())
    );
}

#[test]
fn words_and_strings_round_trip() {
    for order in [ByteOrder::Little, ByteOrder::Big] {
        for x in [0u32, 1, 0x8000_0000, u32::MAX, 0x1234_5678] {
            let mut d = Vec::new();
            push_u32(&mut d, x, order);
            assert_eq!(u32_at(&d, 0, order), x);
        }
        for s in ["", "a", "abc", "abcd", "\u{e9}\u{e9}"] {
            let mut d = vec![9, 9, 9, 9];
            push_string(&mut d, s, order);
            assert_eq!(d.len() % 4, 0);
            let mut r = Reader::new(&d, order);
            r.u32().unwrap();
            assert_eq!(r.string(), Ok(s.to_string()));
            assert_eq!(r.u32(), Err("short wayland event".to_string()));
        }
    }
}

#[test]
fn own_text_is_read_back() {
    let mut s = ClipboardState::new(5);
    s.begin_set(8, "mine".to_string());
    assert!(matches!(s.read_plan(), Ok(ClipboardRead::Owned(t)) if t == "mine"));
    let mut sel = Vec::new();
    push_u32(&mut sel, 9, ByteOrder::Little);
    let event = Message { sender: 5, opcode: 1, data: sel, fds: vec![] };
    s.handle_event(&event, ByteOrder::Little).unwrap();
    assert!(matches!(s.read_plan(), Ok(ClipboardRead::Owned(t)) if t == "mine"));
    let mut other = Vec::new();
    push_u32(&mut other, 12, ByteOrder::Little);
    let event = Message { sender: 5, opcode: 1, data: other, fds: vec![] };
    s.handle_event(&event, ByteOrder::Little).unwrap();
    assert!(s.owned_selection_text.is_none());
    assert!(matches!(s.read_plan(), Err(e) if e == "clipboard does not advertise text data"));
}

#[test]
fn labels_hide_pasted_text() {
    for c in ["secret", "another secret!", "\u{e9}t\u{e9}"] {
        let line = paste_text_request(5, c);
        assert_eq!(request_label(&line), format!("PASTE_TEXT len={}", c.len()));
    }
}

#[test]
fn messages_round_trip() {
    for order in [ByteOrder::Little, ByteOrder::Big] {
        let m = encode_message(42, 3, &[Arg::U32(7), Arg::String("text/plain"), Arg::Fd], order);
        assert_eq!(message_size(&m, order), Ok(m.len()));
        let (sender, opcode, args) = decode_message(&m, order);
        assert_eq!((sender, opcode), (42, 3));
        assert_eq!(args, m[8..].to_vec());
        let send = encode_message(9, 0, &[Arg::String("text/plain;charset=utf-8")], order);
        let (_, op, data) = decode_message(&send, order);
        assert!(source_send_event(op, &data, order));
    }
}
