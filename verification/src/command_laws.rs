//! What the `wrap` and `wrapctl` commands do, stated over their inputs.
use vstd::prelude::*;

use crate::client::{
    spec_macos_request_from_args, spec_request_from_args, spec_wrap_command, ClientRequestView,
    MacosRequest,
};
use crate::laws::{law_unwrap_wrap, law_wrap_is_detected, matching, no_cr_line_ends};
use crate::protocol::{spec_plan_request, ActionView};
use crate::protocol_laws::law_client_request_planned;
use crate::wrapping::{
    fence, framed_lines, inner_text, longest_run, paste_close, paste_open, spec_detect_wrapped_format,
    spec_is_wrapped_markdown, spec_parse_format, strip_trailing_newlines, Format,
};

verus! {

/// No format is named `unwrap`.
proof fn lemma_format_name_not_unwrap(name: Seq<char>)
    requires
        spec_parse_format(name) is Ok,
    ensures
        name != "unwrap"@,
{
    reveal_strlit("unwrap");
    reveal_strlit("md");
    reveal_strlit("markdown");
    reveal_strlit("xml");
    reveal_strlit("paste");
    assert("unwrap"@.len() != "md"@.len());
    assert("unwrap"@.len() != "markdown"@.len());
    assert("unwrap"@.len() != "xml"@.len());
    assert("unwrap"@.len() != "paste"@.len());
}

/// `wrap xml` (or `wrap paste`) puts any text, without its trailing
/// newlines, between a `<paste>` line and a `</paste>` line as it is; a
/// text that is already wrapped, in a fence or in paste tags, is wrapped
/// again.
pub proof fn law_wrap_command_xml(name: Seq<char>, content: Seq<char>)
    requires
        spec_parse_format(name) == Ok::<Format, Seq<char>>(Format::Xml),
    ensures
        spec_wrap_command(name, content) == Ok::<Seq<char>, Seq<char>>(
            paste_open() + seq!['\n'] + strip_trailing_newlines(content) + seq!['\n'] + paste_close()
                + seq!['\n'],
        ),
{
    lemma_format_name_not_unwrap(name);
}

/// `wrap md` (or `wrap markdown`) puts any text, without its trailing
/// newlines, between two lines of the same number of backticks: two more
/// than the longest backtick run in the text when that run is three or
/// longer, else three. The fence is longer than every run in the text, so a
/// text that is already fenced ends up nested in a longer fence.
pub proof fn law_wrap_command_markdown(name: Seq<char>, content: Seq<char>)
    requires
        spec_parse_format(name) == Ok::<Format, Seq<char>>(Format::Markdown),
    ensures
        ({
            let c = strip_trailing_newlines(content);
            let l = longest_run(c);
            let n: nat = if l >= 3 {
                l + 2
            } else {
                3
            };
            &&& n > l
            &&& spec_wrap_command(name, content) == Ok::<Seq<char>, Seq<char>>(
                fence(n) + seq!['\n'] + c + seq!['\n'] + fence(n) + seq!['\n'],
            )
        }),
{
    lemma_format_name_not_unwrap(name);
}

/// What `wrap <format>` prints is detected as wrapped in that format, and
/// `wrap unwrap` turns it back into the input without its trailing
/// newlines, whatever the input holds (a text already wrapped in either
/// format among it), for input none of whose lines ends in a carriage
/// return.
pub proof fn law_wrap_command_round_trip(name: Seq<char>, content: Seq<char>)
    requires
        spec_parse_format(name) is Ok,
        no_cr_line_ends(strip_trailing_newlines(content)),
    ensures
        spec_wrap_command(name, content) is Ok,
        spec_detect_wrapped_format(spec_wrap_command(name, content)->Ok_0) == Some(
            matching(spec_parse_format(name)->Ok_0),
        ),
        spec_wrap_command("unwrap"@, spec_wrap_command(name, content)->Ok_0) == Ok::<
            Seq<char>,
            Seq<char>,
        >(strip_trailing_newlines(content)),
{
    lemma_format_name_not_unwrap(name);
    let f = spec_parse_format(name)->Ok_0;
    law_wrap_is_detected(content, f);
    law_unwrap_wrap(content, f);
}

/// `wrap unwrap` takes the outer fence off a fenced text: what it prints is
/// the lines between the two fence lines.
pub proof fn law_unwrap_command_fenced(content: Seq<char>)
    requires
        spec_is_wrapped_markdown(content),
    ensures
        spec_wrap_command("unwrap"@, content) == Ok::<Seq<char>, Seq<char>>(
            inner_text(framed_lines(content)),
        ),
{
}

/// `wrap unwrap` leaves a text that carries no known wrapper as it is.
pub proof fn law_unwrap_command_bare(content: Seq<char>)
    requires
        spec_detect_wrapped_format(content) is None,
    ensures
        spec_wrap_command("unwrap"@, content) == Ok::<Seq<char>, Seq<char>>(content),
{
}

/// On macOS, `wrapctl paste <name>` pastes in the format that `name`
/// names, and a name that is no format is refused as `Format::parse`
/// refuses it.
pub proof fn law_macos_paste_format(name: Seq<char>)
    ensures
        match spec_parse_format(name) {
            Ok(f) => spec_macos_request_from_args(seq!["paste"@, name]) == Ok::<
                MacosRequest,
                Seq<char>,
            >(MacosRequest::Paste(f)),
            Err(e) => spec_macos_request_from_args(seq!["paste"@, name]) == Err::<
                MacosRequest,
                Seq<char>,
            >(e),
        },
{
    let args = seq!["paste"@, name];
    assert(args.len() == 2 && args[0] == "paste"@ && args[1] == name);
}

/// `wrapctl paste <name>` asks for the same format on macOS as it does
/// elsewhere: the format of the macOS paste is the one that the daemon reads
/// back from the request line sent for the same command.
pub proof fn law_macos_paste_agrees_with_daemon(name: Seq<char>, sent: u64, line: Seq<char>)
    requires
        spec_request_from_args(seq!["paste"@, name], sent) == Ok::<ClientRequestView, Seq<char>>(
            ClientRequestView::Send(line),
        ),
    ensures
        spec_plan_request(line, sent) matches Ok(ActionView::Paste(f))
            && spec_macos_request_from_args(seq!["paste"@, name]) == Ok::<MacosRequest, Seq<char>>(
            MacosRequest::Paste(f),
        ),
{
    reveal_strlit("status");
    reveal_strlit("emit-paste");
    reveal_strlit("unwrap-paste");
    reveal_strlit("paste");
    let args = seq!["paste"@, name];
    assert(args.len() == 2 && args[0] == "paste"@ && args[1] == name);
    assert(spec_parse_format(name) is Ok);
    law_client_request_planned(args, sent, sent, line);
    law_macos_paste_format(name);
    assert("paste"@.len() != "status"@.len());
    assert("paste"@.len() != "emit-paste"@.len());
    assert("paste"@.len() != "unwrap-paste"@.len());
}

} // verus!
