//! What holds of the requests that the client builds once the daemon reads
//! them, and of the reply lines once the client reads them.
use vstd::prelude::*;

use crate::client::{
    spec_interpret_response, spec_paste_text_request, spec_request_from_args, wire_name,
    ClientRequestView,
};
use crate::decimal::{decimal, is_digit, lemma_decimal_digits, lemma_parse_decimal, lemma_parse_decimal_usize};
use crate::protocol::{
    after_age_check, byte_len, has_prefix, is_first_newline, spec_check_action_age,
    spec_choose_mime, spec_parse_paste_text_request, spec_plan_request, spec_request_label, spec_response_line,
    stale_message,
    ActionView, MAX_ACTION_AGE_MS,
};
use crate::text::{is_ws, lemma_words_concat, lemma_words_single, trim_end, words};
use crate::wrapping::{spec_parse_format, Format};

verus! {

/// The age check on numbers: a request sent at `sent` is refused at `now`
/// when it is more than `MAX_ACTION_AGE_MS` old.
pub open spec fn age_verdict(sent: u64, now: u64) -> Result<(), Seq<char>> {
    if now > sent && now - sent > MAX_ACTION_AGE_MS {
        Err(stale_message((now - sent) as u64))
    } else {
        Ok(())
    }
}

/// The age check of a timestamp written in decimal is the check on the number.
pub proof fn lemma_check_decimal(sent: u64, now: u64)
    ensures
        spec_check_action_age(decimal(sent as nat), now) == age_verdict(sent, now),
{
    lemma_parse_decimal(sent);
}

/// The characters of a number in decimal are neither white space nor newlines.
proof fn lemma_decimal_plain(n: nat)
    ensures
        decimal(n).len() > 0,
        forall|i: int| 0 <= i < decimal(n).len() ==> !is_ws(#[trigger] decimal(n)[i]) && decimal(n)[i] != '\n',
{
    lemma_decimal_digits(n);
    assert forall|i: int| 0 <= i < decimal(n).len() implies !is_ws(#[trigger] decimal(n)[i]) && decimal(n)[i] != '\n' by {
        assert(is_digit(decimal(n)[i]));
    }
}

/// The words of a number in decimal followed by a newline: the number.
proof fn lemma_words_decimal_line(n: nat)
    ensures
        words(decimal(n) + "\n"@) == seq![decimal(n)],
{
    reveal_strlit("\n");
    lemma_decimal_plain(n);
    lemma_words_single(decimal(n));
    lemma_words_concat(decimal(n), '\n', Seq::<char>::empty());
    assert(decimal(n) + "\n"@ =~= decimal(n) + seq!['\n'] + Seq::<char>::empty());
    assert(words(Seq::<char>::empty()) =~= Seq::<Seq<char>>::empty());
    assert(seq![decimal(n)] + Seq::<Seq<char>>::empty() =~= seq![decimal(n)]);
}

/// A request that the client builds for a text is read back by the daemon
/// as that text, with the timestamp it was sent with.
pub proof fn law_paste_text_round_trip(now: u64, content: Seq<char>)
    ensures
        spec_parse_paste_text_request(spec_paste_text_request(now, content)) == Ok::<
            Option<(Seq<char>, Seq<char>)>,
            Seq<char>,
        >(Some((decimal(now as nat), content))),
{
    reveal_strlit("PASTE_TEXT ");
    reveal_strlit(" ");
    reveal_strlit("\n");
    let p = "PASTE_TEXT "@;
    let d1 = decimal(now as nat);
    let d2 = decimal(byte_len(content) as nat);
    let req = spec_paste_text_request(now, content);
    lemma_decimal_plain(now as nat);
    lemma_decimal_plain(byte_len(content) as nat);
    assert(req == p + d1 + " "@ + d2 + "\n"@ + content);
    assert(req.subrange(0, p.len() as int) =~= p);
    let rest = req.subrange(p.len() as int, req.len() as int);
    assert(rest =~= d1 + seq![' '] + d2 + seq!['\n'] + content);
    let nl: int = (d1.len() + 1 + d2.len()) as int;
    assert(is_first_newline(rest, nl)) by {
        assert forall|j: int| 0 <= j < nl implies rest[j] != '\n' by {
            if j < d1.len() {
                assert(rest[j] == d1[j]);
            } else if j == d1.len() {
                assert(rest[j] == ' ');
            } else {
                assert(rest[j] == d2[j - d1.len() - 1]);
            }
        }
    }
    let c = choose|i: int| is_first_newline(rest, i);
    assert(c == nl) by {
        if c < nl {
            assert(rest[c] == '\n');
        } else if c > nl {
            assert(rest[nl] == '\n');
        }
    }
    assert(rest.subrange(0, nl) =~= d1 + seq![' '] + d2);
    assert(rest.subrange(nl + 1, rest.len() as int) =~= content);
    lemma_words_concat(d1, ' ', d2);
    lemma_words_single(d1);
    lemma_words_single(d2);
    let fields = words(rest.subrange(0, nl));
    assert(fields =~= seq![d1, d2]);
    lemma_parse_decimal_usize(byte_len(content));
}

/// A paste text request, read at `later`, puts its text on the clipboard
/// unless it is too old.
pub proof fn law_paste_text_planned(now: u64, later: u64, content: Seq<char>)
    ensures
        spec_plan_request(spec_paste_text_request(now, content), later) == after_age_check(
            age_verdict(now, later),
            ActionView::PasteText(content),
        ),
{
    law_paste_text_round_trip(now, content);
    lemma_check_decimal(now, later);
}

/// The action that the daemon is meant to take for a command's request.
pub open spec fn intended_action(args: Seq<Seq<char>>, sent: u64, now: u64) -> Result<ActionView, Seq<char>> {
    if args[0] == "status"@ {
        Ok(ActionView::Status)
    } else if args[0] == "emit-paste"@ {
        after_age_check(age_verdict(sent, now), ActionView::EmitPaste)
    } else if args[0] == "unwrap-paste"@ {
        after_age_check(age_verdict(sent, now), ActionView::UnwrapPaste)
    } else {
        match spec_parse_format(args[1]) {
            Ok(f) => after_age_check(age_verdict(sent, now), ActionView::Paste(f)),
            Err(e) => Err(e),
        }
    }
}

/// A line that starts with a character other than `P` is no paste text request.
proof fn lemma_not_paste_text(line: Seq<char>, k: int)
    requires
        0 <= k < 11,
        k < line.len(),
        line[k] != "PASTE_TEXT "@[k],
    ensures
        spec_parse_paste_text_request(line) == Ok::<Option<(Seq<char>, Seq<char>)>, Seq<char>>(None),
{
    reveal_strlit("PASTE_TEXT ");
    if has_prefix(line, "PASTE_TEXT "@) {
        assert(line.subrange(0, 11)[k] == line[k]);
    }
}

/// The daemon takes the action that a client's command asks for, refusing
/// action requests that reach it too late.
pub proof fn law_client_request_planned(args: Seq<Seq<char>>, sent: u64, later: u64, line: Seq<char>)
    requires
        spec_request_from_args(args, sent) == Ok::<ClientRequestView, Seq<char>>(ClientRequestView::Send(line)),
    ensures
        spec_plan_request(line, later) == intended_action(args, sent, later),
{
    reveal_strlit("status");
    reveal_strlit("emit-paste");
    reveal_strlit("paste-stdin");
    reveal_strlit("unwrap-paste");
    reveal_strlit("paste");
    reveal_strlit("STATUS\n");
    reveal_strlit("STATUS");
    reveal_strlit("EMIT_PASTE ");
    reveal_strlit("EMIT_PASTE");
    reveal_strlit("UNWRAP_PASTE ");
    reveal_strlit("UNWRAP_PASTE");
    reveal_strlit("PASTE ");
    reveal_strlit("PASTE");
    reveal_strlit("PASTE_TEXT ");
    reveal_strlit(" ");
    reveal_strlit("\n");
    reveal_strlit("md");
    reveal_strlit("xml");
    let d = decimal(sent as nat);
    lemma_decimal_plain(sent as nat);
    lemma_words_decimal_line(sent as nat);
    lemma_check_decimal(sent, later);
    if args.len() == 1 && args[0] == "status"@ {
        assert(line == "STATUS\n"@);
        lemma_not_paste_text(line, 0);
        assert(line =~= "STATUS"@ + seq!['\n'] + Seq::<char>::empty());
        lemma_words_concat("STATUS"@, '\n', Seq::<char>::empty());
        lemma_words_single("STATUS"@);
        assert(words(line) =~= seq!["STATUS"@]);
        assert(spec_plan_request(line, later) == intended_action(args, sent, later));
    } else if args.len() == 1 && args[0] == "emit-paste"@ {
        assert(line == "EMIT_PASTE "@ + d + "\n"@);
        lemma_not_paste_text(line, 0);
        assert(line =~= "EMIT_PASTE"@ + seq![' '] + (d + "\n"@));
        lemma_words_concat("EMIT_PASTE"@, ' ', d + "\n"@);
        lemma_words_single("EMIT_PASTE"@);
        assert(words(line) =~= seq!["EMIT_PASTE"@, d]);
        assert(words(line)[1] == d);
        assert(spec_plan_request(line, later) == intended_action(args, sent, later));
    } else if args.len() == 1 && args[0] == "unwrap-paste"@ {
        assert(line == "UNWRAP_PASTE "@ + d + "\n"@);
        lemma_not_paste_text(line, 0);
        assert(line =~= "UNWRAP_PASTE"@ + seq![' '] + (d + "\n"@));
        lemma_words_concat("UNWRAP_PASTE"@, ' ', d + "\n"@);
        lemma_words_single("UNWRAP_PASTE"@);
        assert(words(line) =~= seq!["UNWRAP_PASTE"@, d]);
        assert(words(line)[1] == d);
        assert("UNWRAP_PASTE"@ != "EMIT_PASTE"@) by {
            assert("UNWRAP_PASTE"@.len() != "EMIT_PASTE"@.len());
        }
        assert(spec_plan_request(line, later) == intended_action(args, sent, later));
    } else {
        assert(args.len() == 2 && args[0] == "paste"@);
        assert(spec_parse_format(args[1]) is Ok);
        assert("paste"@.len() != "status"@.len());
        assert("paste"@.len() != "emit-paste"@.len());
        assert("paste"@.len() != "unwrap-paste"@.len());
        assert("PASTE"@.len() != "STATUS"@.len());
        let f = spec_parse_format(args[1])->Ok_0;
        let wn = wire_name(f);
        assert(line == "PASTE "@ + wn + " "@ + d + "\n"@);
        lemma_not_paste_text(line, 5);
        assert(line =~= "PASTE"@ + seq![' '] + (wn + seq![' '] + (d + "\n"@)));
        lemma_words_concat("PASTE"@, ' ', wn + seq![' '] + (d + "\n"@));
        lemma_words_concat(wn, ' ', d + "\n"@);
        lemma_words_single("PASTE"@);
        lemma_words_single(wn);
        assert(words(line) =~= seq!["PASTE"@, wn, d]);
        assert(words(line)[1] == wn);
        assert(words(line)[2] == d);
        assert(spec_parse_format(wn) == Ok::<Format, Seq<char>>(f)) by {
            reveal_strlit("markdown");
            assert("md"@ != "xml"@);
            assert("xml"@ != "md"@);
            assert("xml"@.len() != "markdown"@.len());
        }
        assert(spec_plan_request(line, later) == intended_action(args, sent, later));
    }
}

/// The client reads a reply line as the outcome that the daemon wrote,
/// for messages that do not end in white space and errors that are not
/// empty.
pub proof fn law_reply_round_trip(outcome: Result<Seq<char>, Seq<char>>)
    requires
        match outcome {
            Ok(m) => m.len() == 0 || !is_ws(m.last()),
            Err(e) => e.len() > 0 && !is_ws(e.last()),
        },
    ensures
        spec_interpret_response(spec_response_line(outcome)) == match outcome {
            Ok(m) => if m.len() == 0 {
                Ok::<Option<Seq<char>>, Seq<char>>(None)
            } else {
                Ok(Some(m))
            },
            Err(e) => Err(e),
        },
{
    reveal_strlit("OK\n");
    reveal_strlit("OK ");
    reveal_strlit("OK");
    reveal_strlit("ERR ");
    reveal_strlit("\n");
    let line = spec_response_line(outcome);
    match outcome {
        Ok(m) => {
            if m.len() == 0 {
                assert(line.drop_last() =~= "OK"@);
                assert(trim_end(line) == trim_end(line.drop_last()));
                assert(trim_end("OK"@) == "OK"@);
                assert(!has_prefix("OK"@, "OK "@));
            } else {
                let body = "OK "@ + m;
                assert(line.drop_last() =~= body);
                assert(body.last() == m.last());
                assert(line.last() == '\n');
                assert(trim_end(line) == trim_end(line.drop_last()));
                assert(trim_end(line) == body);
                assert(body.subrange(0, 3) =~= "OK "@);
                assert(body.subrange(3, body.len() as int) =~= m);
            }
        },
        Err(e) => {
            let body = "ERR "@ + e;
            assert(line.drop_last() =~= body);
            assert(body.last() == e.last());
            assert(line.last() == '\n');
            assert(trim_end(line) == trim_end(line.drop_last()));
            assert(trim_end(line) == body);
            assert(!has_prefix(body, "OK "@)) by {
                if has_prefix(body, "OK "@) {
                    assert(body.subrange(0, 3)[0] == body[0]);
                }
            }
            assert(body != "OK"@) by {
                assert(body.len() > 2);
            }
            assert(body.subrange(0, 4) =~= "ERR "@);
            assert(body.subrange(4, body.len() as int) =~= e);
        },
    }
}

/// The daemon logs a paste text request by the length of its text alone,
/// whatever the text holds.
pub proof fn law_label_hides_content(now: u64, content: Seq<char>)
    ensures
        spec_request_label(spec_paste_text_request(now, content)) == "PASTE_TEXT len="@ + decimal(
            byte_len(content) as nat,
        ),
{
    law_paste_text_round_trip(now, content);
    reveal_strlit("PASTE_TEXT ");
    let req = spec_paste_text_request(now, content);
    assert(req.subrange(0, 11) =~= "PASTE_TEXT "@);
}

/// The text type the daemon asks an offer for: UTF-8 text whenever the
/// offer advertises it, plain text when it advertises that and not UTF-8
/// text, and none only when it advertises neither; the type asked for is
/// always one that the offer advertises.
pub proof fn law_choose_mime_preference(mimes: Seq<Seq<char>>)
    ensures
        mimes.contains("text/plain;charset=utf-8"@) ==> spec_choose_mime(mimes) == Some(
            "text/plain;charset=utf-8"@,
        ),
        !mimes.contains("text/plain;charset=utf-8"@) && mimes.contains("text/plain"@)
            ==> spec_choose_mime(mimes) == Some("text/plain"@),
        spec_choose_mime(mimes) is Some <==> (mimes.contains("text/plain;charset=utf-8"@)
            || mimes.contains("text/plain"@)),
        spec_choose_mime(mimes) matches Some(t) ==> mimes.contains(t),
{
}

} // verus!
