//! The client's side of the request protocol: the request line for a
//! command, and what a reply line means.
use vstd::prelude::*;

use crate::decimal::{decimal, push_decimal};
use crate::protocol::{byte_len, has_prefix, now_ms_u64, views};
use crate::text::{chars_are, chars_of, owned, push_range, range_matches, skip_ws_backward, trim_end};
use crate::wrapping::{spec_parse_format, Format};

verus! {

broadcast use vstd::string::group_string_axioms;

/// How `wrap` is used.
pub open spec fn spec_wrap_usage() -> Seq<char> {
    "Usage:\n  wrap [md|xml] < input\n  wrap unwrap < input"@
}

/// How `wrap` is used.
pub fn wrap_usage() -> (s: String)
    ensures
        s@ == spec_wrap_usage(),
{
    owned("Usage:\n  wrap [md|xml] < input\n  wrap unwrap < input")
}

/// How `wrapctl` is used.
pub open spec fn spec_wrapctl_usage() -> Seq<char> {
    "Usage:\n  wrapctl paste [md|xml]\n  wrapctl paste-stdin\n  wrapctl emit-paste\n  wrapctl unwrap-paste\n  wrapctl status"@
}

/// How `wrapctl` is used.
pub fn wrapctl_usage() -> (s: String)
    ensures
        s@ == spec_wrapctl_usage(),
{
    owned(
        "Usage:\n  wrapctl paste [md|xml]\n  wrapctl paste-stdin\n  wrapctl emit-paste\n  wrapctl unwrap-paste\n  wrapctl status",
    )
}

/// What `wrap` prints for a command and the text read from its input:
/// `unwrap` takes the wrapper off, a format name wraps the text in it, and
/// anything else is refused as `Format::parse` refuses it.
pub open spec fn spec_wrap_command(command: Seq<char>, content: Seq<char>) -> Result<Seq<char>, Seq<char>> {
    if command == "unwrap"@ {
        Ok(crate::wrapping::spec_unwrap_auto(content))
    } else {
        match spec_parse_format(command) {
            Ok(f) => Ok(crate::wrapping::spec_wrap_content(content, f)),
            Err(e) => Err(e),
        }
    }
}

/// What `wrap` prints for `command` and the text `content` read from its input.
pub fn wrap_command(command: &str, content: &str) -> (res: Result<String, String>)
    ensures
        crate::protocol::outcome_view(res) == spec_wrap_command(command@, content@),
{
    let v = chars_of(command);
    if chars_are(&v, "unwrap") {
        Ok(crate::wrapping::unwrap_auto(content))
    } else {
        match Format::parse(command) {
            Ok(f) => Ok(crate::wrapping::wrap_content(content, f)),
            Err(e) => Err(e),
        }
    }
}

/// The request that a `wrapctl` command sends: a line ready to go, or a
/// paste text request to build once the text has been read from the input.
#[derive(Debug, PartialEq, Eq)]
pub enum ClientRequest {
    Send(String),
    PasteStdin,
}

/// A client request with the line it sends as characters.
pub enum ClientRequestView {
    Send(Seq<char>),
    PasteStdin,
}

impl View for ClientRequest {
    type V = ClientRequestView;

    open spec fn view(&self) -> ClientRequestView {
        match self {
            ClientRequest::Send(s) => ClientRequestView::Send(s@),
            ClientRequest::PasteStdin => ClientRequestView::PasteStdin,
        }
    }
}

/// A request result by its view and the characters of its message.
pub open spec fn request_view(r: Result<ClientRequest, String>) -> Result<ClientRequestView, Seq<char>> {
    match r {
        Ok(q) => Ok(q@),
        Err(e) => Err(e@),
    }
}

/// The request for the arguments `args` at time `now`: `status`,
/// `emit-paste`, `paste-stdin`, `unwrap-paste` or `paste <format>`; the
/// action requests carry the time; anything else gets the usage.
pub open spec fn spec_request_from_args(args: Seq<Seq<char>>, now: u64) -> Result<ClientRequestView, Seq<char>> {
    if args.len() == 1 && args[0] == "status"@ {
        Ok(ClientRequestView::Send("STATUS\n"@))
    } else if args.len() == 1 && args[0] == "emit-paste"@ {
        Ok(ClientRequestView::Send("EMIT_PASTE "@ + decimal(now as nat) + "\n"@))
    } else if args.len() == 1 && args[0] == "paste-stdin"@ {
        Ok(ClientRequestView::PasteStdin)
    } else if args.len() == 1 && args[0] == "unwrap-paste"@ {
        Ok(ClientRequestView::Send("UNWRAP_PASTE "@ + decimal(now as nat) + "\n"@))
    } else if args.len() == 2 && args[0] == "paste"@ {
        match spec_parse_format(args[1]) {
            Ok(f) => Ok(
                ClientRequestView::Send(
                    "PASTE "@ + wire_name(f) + " "@ + decimal(now as nat) + "\n"@,
                ),
            ),
            Err(e) => Err(e),
        }
    } else {
        Err(spec_wrapctl_usage())
    }
}

/// The name of a format on the wire.
pub open spec fn wire_name(f: Format) -> Seq<char> {
    match f {
        Format::Markdown => "md"@,
        Format::Xml => "xml"@,
    }
}

/// The request for the arguments `args` at time `now`.
pub fn request_from_args_at(args: &[String], now: u64) -> (res: Result<ClientRequest, String>)
    ensures
        request_view(res) == spec_request_from_args(views(args@), now),
{
    let ghost a = views(args@);
    if args.len() == 1 {
        let v = chars_of(args[0].as_str());
        assert(v@ == a[0]);
        if chars_are(&v, "status") {
            return Ok(ClientRequest::Send(owned("STATUS\n")));
        }
        if chars_are(&v, "emit-paste") {
            let mut line = owned("EMIT_PASTE ");
            push_decimal(&mut line, now);
            line.append("\n");
            return Ok(ClientRequest::Send(line));
        }
        if chars_are(&v, "paste-stdin") {
            return Ok(ClientRequest::PasteStdin);
        }
        if chars_are(&v, "unwrap-paste") {
            let mut line = owned("UNWRAP_PASTE ");
            push_decimal(&mut line, now);
            line.append("\n");
            return Ok(ClientRequest::Send(line));
        }
    }
    if args.len() == 2 {
        let v = chars_of(args[0].as_str());
        assert(v@ == a[0]);
        assert(args[1]@ == a[1]);
        if chars_are(&v, "paste") {
            let format = match Format::parse(args[1].as_str()) {
                Ok(f) => f,
                Err(e) => {
                    return Err(e);
                },
            };
            let mut line = owned("PASTE ");
            line.append(format.as_wire());
            line.append(" ");
            push_decimal(&mut line, now);
            line.append("\n");
            return Ok(ClientRequest::Send(line));
        }
    }
    Err(wrapctl_usage())
}

/// The request for the arguments `args`, with the time read from the clock;
/// the answer is the one `request_from_args_at` gives for that time.
pub fn request_from_args(args: Vec<String>) -> (res: Result<ClientRequest, String>)
    ensures
        exists|now: u64| request_view(res) == spec_request_from_args(views(args@), now),
{
    let now = now_ms_u64();
    request_from_args_at(args.as_slice(), now)
}

/// The request to paste `content`: `PASTE_TEXT <now> <bytes>`, a newline,
/// then the text as it is.
pub open spec fn spec_paste_text_request(now: u64, content: Seq<char>) -> Seq<char> {
    "PASTE_TEXT "@ + decimal(now as nat) + " "@ + decimal(byte_len(content) as nat) + "\n"@ + content
}

/// The request to paste `content`, sent at time `now`.
pub fn paste_text_request(now: u64, content: &str) -> (line: String)
    ensures
        line@ == spec_paste_text_request(now, content@),
{
    let mut line = owned("PASTE_TEXT ");
    push_decimal(&mut line, now);
    line.append(" ");
    push_decimal(&mut line, content.len() as u64);
    line.append("\n");
    line.append(content);
    line
}

/// The request to paste `content`, sent now.
pub fn paste_stdin_request(content: &str) -> (line: String)
    ensures
        exists|now: u64| line@ == spec_paste_text_request(now, content@),
{
    let now = now_ms_u64();
    paste_text_request(now, content)
}

/// What a reply line from the daemon means, once trailing white space is
/// gone: `OK <message>` is success with a message to print, `OK` success
/// alone, `ERR <error>` a failure with the daemon's error, and anything
/// else a failure that quotes the reply.
pub open spec fn spec_interpret_response(response: Seq<char>) -> Result<Option<Seq<char>>, Seq<char>> {
    let r = trim_end(response);
    if has_prefix(r, "OK "@) {
        Ok(Some(r.subrange(3, r.len() as int)))
    } else if r == "OK"@ {
        Ok(None)
    } else if has_prefix(r, "ERR "@) {
        Err(r.subrange(4, r.len() as int))
    } else {
        Err("unexpected daemon response: "@ + r)
    }
}

/// A reply's meaning by the characters it holds.
pub open spec fn reply_view(r: Result<Option<String>, String>) -> Result<Option<Seq<char>>, Seq<char>> {
    match r {
        Ok(Some(m)) => Ok(Some(m@)),
        Ok(None) => Ok(None),
        Err(e) => Err(e@),
    }
}

/// What the daemon's reply line `response` means.
pub fn interpret_response(response: &str) -> (res: Result<Option<String>, String>)
    ensures
        reply_view(res) == spec_interpret_response(response@),
{
    let v = chars_of(response);
    let e = skip_ws_backward(&v, 0, v.len());
    assert(v@.subrange(0, v@.len() as int) =~= v@);
    let ok_space = chars_of("OK ");
    let err_space = chars_of("ERR ");
    proof {
        reveal_strlit("OK ");
        reveal_strlit("ERR ");
    }
    let ghost r = v@.subrange(0, e as int);
    if e >= ok_space.len() && range_matches(&v, 0, ok_space.len(), &ok_space) {
        let mut m = String::new();
        push_range(&mut m, &v, ok_space.len(), e);
        assert(r.subrange(0, ok_space@.len() as int) =~= v@.subrange(0, ok_space@.len() as int));
        assert(r.subrange(3, r.len() as int) =~= v@.subrange(3, e as int));
        return Ok(Some(m));
    }
    proof {
        if has_prefix(r, "OK "@) {
            assert(r.subrange(0, ok_space@.len() as int) =~= v@.subrange(0, ok_space@.len() as int));
        }
    }
    let ok = chars_of("OK");
    if range_matches(&v, 0, e, &ok) {
        return Ok(None);
    }
    if e >= err_space.len() && range_matches(&v, 0, err_space.len(), &err_space) {
        let mut m = String::new();
        push_range(&mut m, &v, err_space.len(), e);
        assert(r.subrange(0, err_space@.len() as int) =~= v@.subrange(0, err_space@.len() as int));
        assert(r.subrange(4, r.len() as int) =~= v@.subrange(4, e as int));
        return Err(m);
    }
    proof {
        if has_prefix(r, "ERR "@) {
            assert(r.subrange(0, err_space@.len() as int) =~= v@.subrange(0, err_space@.len() as int));
        }
    }
    let mut m = owned("unexpected daemon response: ");
    push_range(&mut m, &v, 0, e);
    Err(m)
}

/// What `wrapctl` does on macOS.
#[derive(Debug, PartialEq, Eq)]
pub enum MacosRequest {
    Status,
    Paste(Format),
    UnwrapPaste,
}

/// The macOS request for the arguments `args`: `status`, `unwrap-paste` or
/// `paste <format>`; anything else gets the usage.
pub open spec fn spec_macos_request_from_args(args: Seq<Seq<char>>) -> Result<MacosRequest, Seq<char>> {
    if args.len() == 1 && args[0] == "status"@ {
        Ok(MacosRequest::Status)
    } else if args.len() == 1 && args[0] == "unwrap-paste"@ {
        Ok(MacosRequest::UnwrapPaste)
    } else if args.len() == 2 && args[0] == "paste"@ {
        match spec_parse_format(args[1]) {
            Ok(f) => Ok(MacosRequest::Paste(f)),
            Err(e) => Err(e),
        }
    } else {
        Err(spec_wrapctl_usage())
    }
}

/// A macOS request result by the characters of its message.
pub open spec fn macos_view(r: Result<MacosRequest, String>) -> Result<MacosRequest, Seq<char>> {
    match r {
        Ok(q) => Ok(q),
        Err(e) => Err(e@),
    }
}

/// The macOS request for the arguments `args`.
pub fn macos_request_from_args(args: &[String]) -> (res: Result<MacosRequest, String>)
    ensures
        macos_view(res) == spec_macos_request_from_args(views(args@)),
{
    let ghost a = views(args@);
    if args.len() == 1 {
        let v = chars_of(args[0].as_str());
        assert(v@ == a[0]);
        if chars_are(&v, "status") {
            return Ok(MacosRequest::Status);
        }
        if chars_are(&v, "unwrap-paste") {
            return Ok(MacosRequest::UnwrapPaste);
        }
    }
    if args.len() == 2 {
        let v = chars_of(args[0].as_str());
        assert(v@ == a[0]);
        assert(args[1]@ == a[1]);
        if chars_are(&v, "paste") {
            return match Format::parse(args[1].as_str()) {
                Ok(f) => Ok(MacosRequest::Paste(f)),
                Err(e) => Err(e),
            };
        }
    }
    Err(wrapctl_usage())
}

} // verus!
