use wrap::client::{
    interpret_response, macos_request_from_args, paste_stdin_request, paste_text_request,
    request_from_args,
    request_from_args_at, wrap_command, wrapctl_usage, ClientRequest, MacosRequest,
};
use wrap::protocol::{
    check_action_age, choose_mime, parse_paste_text_request, plan_request, plan_request_at,
    reject_stale_action, request_label, response_line, DaemonAction,
};
use wrap::Format;

#[test]
fn emit_paste_builds_timestamped_request() {
    let request = match request_from_args(vec!["emit-paste".to_string()]).unwrap() {
        ClientRequest::Send(line) => line,
        ClientRequest::PasteStdin => panic!("emit-paste sends a line"),
    };

    assert!(request.starts_with("EMIT_PASTE "));
    assert!(request.ends_with('\n'));
}

#[test]
fn routes_darwin_commands() {
    assert_eq!(
        macos_request_from_args(&["paste".to_string(), "md".to_string()]),
        Ok(MacosRequest::Paste(Format::Markdown))
    );
    assert_eq!(
        macos_request_from_args(&["unwrap-paste".to_string()]),
        Ok(MacosRequest::UnwrapPaste)
    );
    assert_eq!(
        macos_request_from_args(&["status".to_string()]),
        Ok(MacosRequest::Status)
    );
}

#[test]
fn parses_paste_text_payload_without_trimming_content() {
    let request = "PASTE_TEXT 123 12\nhello\nworld\n";
    let (sent_at, content) = parse_paste_text_request(request).unwrap().unwrap();

    assert_eq!(sent_at, "123");
    assert_eq!(content, "hello\nworld\n");
}

#[test]
fn rejects_paste_text_length_mismatch() {
    let err = parse_paste_text_request("PASTE_TEXT 123 9\nhello").unwrap_err();

    assert!(err.contains("invalid PASTE_TEXT length"));
}

#[test]
fn paste_text_request_label_hides_content() {
    assert_eq!(request_label("PASTE_TEXT 123 5\nhello"), "PASTE_TEXT len=5");
}

#[test]
fn paste_text_errors_name_their_cause() {
    assert_eq!(parse_paste_text_request("STATUS\n"), Ok(None));
    assert_eq!(
        parse_paste_text_request("PASTE_TEXT 123 5"),
        Err("invalid PASTE_TEXT request".to_string())
    );
    assert_eq!(
        parse_paste_text_request("PASTE_TEXT 123\nhello"),
        Err("invalid PASTE_TEXT request".to_string())
    );
    assert_eq!(
        parse_paste_text_request("PASTE_TEXT 123 x\nhello"),
        Err("invalid PASTE_TEXT length".to_string())
    );
    assert_eq!(
        parse_paste_text_request("PASTE_TEXT 123 5 6\nhello"),
        Err("invalid PASTE_TEXT request".to_string())
    );
    assert_eq!(
        parse_paste_text_request("PASTE_TEXT 123 9\nhello"),
        Err("invalid PASTE_TEXT length: expected 9, got 5".to_string())
    );
}

#[test]
fn paste_text_length_counts_bytes() {
    let request = "PASTE_TEXT 7 3\n\u{e9}a";
    let (sent_at, content) = parse_paste_text_request(request).unwrap().unwrap();
    assert_eq!(sent_at, "7");
    assert_eq!(content, "\u{e9}a");
    assert_eq!(request_label(request), "PASTE_TEXT len=3");
    assert_eq!(request_label("PASTE_TEXT 1 2\nabc"), "PASTE_TEXT invalid");
    assert_eq!(request_label("  STATUS \n"), "STATUS");
}

#[test]
fn paste_text_request_round_trips() {
    let line = paste_text_request(42, "caf\u{e9}\r\n  x\n");
    assert_eq!(line, "PASTE_TEXT 42 11\ncaf\u{e9}\r\n  x\n");
    let (sent_at, content) = parse_paste_text_request(&line).unwrap().unwrap();
    assert_eq!(sent_at, "42");
    assert_eq!(content, "caf\u{e9}\r\n  x\n");
}

#[test]
fn action_age_is_checked() {
    assert_eq!(check_action_age("1000", 3000), Ok(()));
    assert_eq!(check_action_age("+1000", 3000), Ok(()));
    assert_eq!(check_action_age("5000", 3000), Ok(()));
    assert_eq!(
        check_action_age("999", 3000),
        Err("dropping stale action request, age=2001ms".to_string())
    );
    assert_eq!(
        check_action_age("x", 3000),
        Err("action request has invalid timestamp".to_string())
    );
    assert_eq!(
        check_action_age("", 3000),
        Err("action request has invalid timestamp".to_string())
    );
    assert_eq!(
        check_action_age("18446744073709551616", 3000),
        Err("action request has invalid timestamp".to_string())
    );
    assert_eq!(check_action_age("18446744073709551615", 3000), Ok(()));
}

#[test]
fn daemon_plans_each_request() {
    assert_eq!(plan_request_at("STATUS\n", 0), Ok(DaemonAction::Status));
    assert_eq!(plan_request_at("  STATUS  ", 0), Ok(DaemonAction::Status));
    assert_eq!(plan_request_at("EMIT_PASTE 100\n", 200), Ok(DaemonAction::EmitPaste));
    assert_eq!(plan_request_at("UNWRAP_PASTE 100\n", 200), Ok(DaemonAction::UnwrapPaste));
    assert_eq!(
        plan_request_at("PASTE xml 100\n", 200),
        Ok(DaemonAction::Paste(Format::Xml))
    );
    assert_eq!(
        plan_request_at("PASTE bogus 100\n", 200),
        Err("invalid PASTE request".to_string())
    );
    assert_eq!(
        plan_request_at("PASTE bogus 100\n", 5000),
        Err("dropping stale action request, age=4900ms".to_string())
    );
    assert_eq!(
        plan_request_at("PASTE_TEXT 100 2\nhi", 200),
        Ok(DaemonAction::PasteText("hi".to_string()))
    );
    assert_eq!(plan_request_at("HELLO", 0), Err("unknown request".to_string()));
    assert_eq!(plan_request_at("", 0), Err("unknown request".to_string()));
}

#[test]
fn client_requests_are_understood_by_the_daemon() {
    for (args, action) in [
        (vec!["status"], DaemonAction::Status),
        (vec!["emit-paste"], DaemonAction::EmitPaste),
        (vec!["unwrap-paste"], DaemonAction::UnwrapPaste),
        (vec!["paste", "markdown"], DaemonAction::Paste(Format::Markdown)),
        (vec!["paste", "paste"], DaemonAction::Paste(Format::Xml)),
    ] {
        let args: Vec<String> = args.into_iter().map(|a| a.to_string()).collect();
        let line = match request_from_args_at(&args, 10_000).unwrap() {
            ClientRequest::Send(line) => line,
            ClientRequest::PasteStdin => panic!("a line is sent"),
        };
        assert_eq!(plan_request_at(&line, 11_000), Ok(action));
    }
    assert_eq!(
        request_from_args_at(&["paste-stdin".to_string()], 1),
        Ok(ClientRequest::PasteStdin)
    );
    assert_eq!(
        request_from_args_at(&["paste".to_string(), "md".to_string()], 7),
        Ok(ClientRequest::Send("PASTE md 7\n".to_string()))
    );
    assert_eq!(
        request_from_args_at(&["paste".to_string(), "html".to_string()], 7),
        Err("unknown format 'html', expected md or xml".to_string())
    );
    assert_eq!(request_from_args_at(&[], 7), Err(wrapctl_usage()));
    assert_eq!(
        macos_request_from_args(&["paste".to_string()]),
        Err(wrapctl_usage())
    );
}

#[test]
fn replies_are_read_back() {
    for outcome in [
        Ok(String::new()),
        Ok("wrapd ready".to_string()),
        Err("clipboard is empty".to_string()),
    ] {
        let line = response_line(&outcome);
        let back = interpret_response(&line);
        match outcome {
            Ok(m) if m.is_empty() => assert_eq!(back, Ok(None)),
            Ok(m) => assert_eq!(back, Ok(Some(m))),
            Err(e) => assert_eq!(back, Err(e)),
        }
    }
    assert_eq!(response_line(&Ok(String::new())), "OK\n");
    assert_eq!(response_line(&Err("x".to_string())), "ERR x\n");
    assert_eq!(
        interpret_response("what\n"),
        Err("unexpected daemon response: what".to_string())
    );
}

#[test]
fn mime_choice_prefers_utf8() {
    let m = |xs: &[&str]| xs.iter().map(|x| x.to_string()).collect::<Vec<_>>();
    assert_eq!(
        choose_mime(&m(&["text/plain", "text/plain;charset=utf-8"])),
        Some("text/plain;charset=utf-8")
    );
    assert_eq!(choose_mime(&m(&["image/png", "text/plain"])), Some("text/plain"));
    assert_eq!(choose_mime(&m(&["image/png"])), None);
}

#[test]
fn wrap_command_runs_a_format_or_unwrap() {
    assert_eq!(wrap_command("md", "x\n"), Ok("```\nx\n```\n".to_string()));
    assert_eq!(wrap_command("paste", "x"), Ok("<paste>\nx\n</paste>\n".to_string()));
    assert_eq!(wrap_command("unwrap", "<paste>\nx\n</paste>\n"), Ok("x".to_string()));
    assert_eq!(
        wrap_command("nope", "x"),
        Err("unknown format 'nope', expected md or xml".to_string())
    );
}

#[test]
fn requests_read_the_clock() {
    let stale = reject_stale_action("0").unwrap_err();
    assert!(stale.starts_with("dropping stale action request, age="));
    assert!(stale.ends_with("ms"));
    assert_eq!(reject_stale_action(&u64::MAX.to_string()), Ok(()));
    assert_eq!(reject_stale_action("soon"), Err("action request has invalid timestamp".to_string()));
    assert_eq!(plan_request("STATUS"), Ok(DaemonAction::Status));
    let line = paste_stdin_request("abc");
    assert!(line.starts_with("PASTE_TEXT "));
    assert!(line.ends_with(" 3\nabc"));
    match plan_request(&line) {
        Ok(DaemonAction::PasteText(t)) => assert_eq!(t, "abc"),
        other => panic!("a fresh paste text request runs: {other:?}"),
    }
    assert!(matches!(
        request_from_args(vec!["paste-stdin".to_string()]),
        Ok(ClientRequest::PasteStdin)
    ));
}
