//! The daemon's side of the request protocol: reading a request, deciding
//! what to do about it, and the reply line.
use vstd::prelude::*;
use vstd::utf8::encode_utf8;

use crate::decimal::{decimal, parse_u64_range, parse_usize_range, push_decimal, spec_parse_u64, spec_parse_usize};
use crate::text::{chars_are, chars_of, owned, push_range, range_matches, trim, trim_range, word_ranges, words};
use crate::wrapping::{spec_parse_format, Format};

verus! {

broadcast use vstd::string::group_string_axioms;

/// How old, in milliseconds, an action request may be before it is dropped.
pub const MAX_ACTION_AGE_MS: u64 = 2000;

/// Whether `s` begins with `p`.
pub open spec fn has_prefix(s: Seq<char>, p: Seq<char>) -> bool {
    p.len() <= s.len() && s.subrange(0, p.len() as int) == p
}

/// `i` is the index of the first newline in `s`.
pub open spec fn is_first_newline(s: Seq<char>, i: int) -> bool {
    &&& 0 <= i < s.len()
    &&& s[i] == '\n'
    &&& forall|j: int| 0 <= j < i ==> s[j] != '\n'
}

/// The number of bytes that the UTF-8 encoding of `s` takes, as `str::len`
/// reports it.
pub open spec fn byte_len(s: Seq<char>) -> usize {
    encode_utf8(s).len() as usize
}

/// The message for a paste text whose length is not the announced one.
pub open spec fn length_mismatch(expected: usize, actual: usize) -> Seq<char> {
    "invalid PASTE_TEXT length: expected "@ + decimal(expected as nat) + ", got "@ + decimal(
        actual as nat,
    )
}

/// What a request for pasting a given text holds: `None` when it is no such
/// request, else its timestamp field and its text, which must be exactly as
/// many bytes long as its header says.
pub open spec fn spec_parse_paste_text_request(req: Seq<char>) -> Result<
    Option<(Seq<char>, Seq<char>)>,
    Seq<char>,
> {
    let p = "PASTE_TEXT "@;
    if !has_prefix(req, p) {
        Ok(None)
    } else {
        let rest = req.subrange(p.len() as int, req.len() as int);
        if !(exists|i: int| is_first_newline(rest, i)) {
            Err("invalid PASTE_TEXT request"@)
        } else {
            let nl = choose|i: int| is_first_newline(rest, i);
            let fields = words(rest.subrange(0, nl));
            let content = rest.subrange(nl + 1, rest.len() as int);
            if fields.len() < 2 {
                Err("invalid PASTE_TEXT request"@)
            } else {
                match spec_parse_usize(fields[1]) {
                    None => Err("invalid PASTE_TEXT length"@),
                    Some(expected) => {
                        if fields.len() > 2 {
                            Err("invalid PASTE_TEXT request"@)
                        } else if byte_len(content) != expected {
                            Err(length_mismatch(expected, byte_len(content)))
                        } else {
                            Ok(Some((fields[0], content)))
                        }
                    },
                }
            }
        }
    }
}

/// The result of reading a paste text request, by the characters it holds.
pub open spec fn paste_text_view(r: Result<Option<(&str, String)>, String>) -> Result<
    Option<(Seq<char>, Seq<char>)>,
    Seq<char>,
> {
    match r {
        Ok(Some((sent_at, content))) => Ok(Some((sent_at@, content@))),
        Ok(None) => Ok(None),
        Err(e) => Err(e@),
    }
}

/// Reads a request for pasting a given text: `PASTE_TEXT <sent_at> <len>`,
/// a newline, then exactly `len` bytes of text, kept as they are.
pub fn parse_paste_text_request<'a>(request: &'a str) -> (res: Result<Option<(&'a str, String)>, String>)
    ensures
        paste_text_view(res) == spec_parse_paste_text_request(request@),
{
    let v = chars_of(request);
    let prefix = chars_of("PASTE_TEXT ");
    let n = v.len();
    let p = prefix.len();
    if n < p || !range_matches(&v, 0, p, &prefix) {
        return Ok(None);
    }
    let ghost rest = v@.subrange(p as int, n as int);
    let mut j = p;
    while j < n && v[j] != '\n'
        invariant
            p <= j <= n == v@.len(),
            rest == v@.subrange(p as int, n as int),
            forall|k: int| p <= k < j ==> v@[k] != '\n',
        decreases n - j,
    {
        j = j + 1;
    }
    if j == n {
        proof {
            assert forall|i: int| !is_first_newline(rest, i) by {
                if 0 <= i < rest.len() {
                    assert(rest[i] == v@[p + i]);
                }
            }
        }
        return Err(owned("invalid PASTE_TEXT request"));
    }
    proof {
        let nl = j - p;
        assert(is_first_newline(rest, nl)) by {
            assert forall|k: int| 0 <= k < nl implies rest[k] != '\n' by {
                assert(rest[k] == v@[p + k]);
            }
        }
        let c = choose|i: int| is_first_newline(rest, i);
        assert(c == nl) by {
            if c < nl {
                assert(rest[c] == '\n');
            } else if c > nl {
                assert(rest[nl] == '\n');
            }
        }
        assert(rest.subrange(0, nl) =~= v@.subrange(p as int, j as int));
        assert(rest.subrange(nl + 1, rest.len() as int) =~= v@.subrange(j + 1, n as int));
    }
    let fields = word_ranges(&v, p, j);
    if fields.len() < 2 {
        return Err(owned("invalid PASTE_TEXT request"));
    }
    let expected = match parse_usize_range(&v, fields[1].0, fields[1].1) {
        Some(e) => e,
        None => {
            return Err(owned("invalid PASTE_TEXT length"));
        },
    };
    if fields.len() > 2 {
        return Err(owned("invalid PASTE_TEXT request"));
    }
    let content = request.substring_char(j + 1, n);
    let actual = content.len();
    if actual != expected {
        let mut e = owned("invalid PASTE_TEXT length: expected ");
        push_decimal(&mut e, expected as u64);
        e.append(", got ");
        push_decimal(&mut e, actual as u64);
        return Err(e);
    }
    let sent_at = request.substring_char(fields[0].0, fields[0].1);
    Ok(Some((sent_at, owned(content))))
}

/// How a request is logged: a paste text request by its length only, any
/// other request trimmed.
pub open spec fn spec_request_label(req: Seq<char>) -> Seq<char> {
    if has_prefix(req, "PASTE_TEXT "@) {
        match spec_parse_paste_text_request(req) {
            Ok(Some((_, content))) => "PASTE_TEXT len="@ + decimal(byte_len(content) as nat),
            _ => "PASTE_TEXT invalid"@,
        }
    } else {
        trim(req)
    }
}

/// The label under which a request is logged; the text of a paste text
/// request stays out of the log.
pub fn request_label(request: &str) -> (label: String)
    ensures
        label@ == spec_request_label(request@),
{
    let v = chars_of(request);
    let prefix = chars_of("PASTE_TEXT ");
    if v.len() >= prefix.len() && range_matches(&v, 0, prefix.len(), &prefix) {
        match parse_paste_text_request(request) {
            Ok(Some((_, content))) => {
                let mut label = owned("PASTE_TEXT len=");
                push_decimal(&mut label, content.as_str().len() as u64);
                label
            },
            _ => owned("PASTE_TEXT invalid"),
        }
    } else {
        let (a, b) = trim_range(&v, 0, v.len());
        assert(v@.subrange(0, v@.len() as int) =~= v@);
        let mut label = String::new();
        push_range(&mut label, &v, a, b);
        label
    }
}

/// The message for an action request older than the allowed age.
pub open spec fn stale_message(age: u64) -> Seq<char> {
    "dropping stale action request, age="@ + decimal(age as nat) + "ms"@
}

/// Whether an action request sent at `sent_at` may still run at time `now`:
/// the timestamp must be a number, and the request at most
/// `MAX_ACTION_AGE_MS` old (a request from the future counts as new).
pub open spec fn spec_check_action_age(sent_at: Seq<char>, now: u64) -> Result<(), Seq<char>> {
    match spec_parse_u64(sent_at) {
        None => Err("action request has invalid timestamp"@),
        Some(t) => {
            let age: u64 = if now >= t { (now - t) as u64 } else { 0 };
            if age > MAX_ACTION_AGE_MS {
                Err(stale_message(age))
            } else {
                Ok(())
            }
        },
    }
}

/// A result by the characters of its message.
pub open spec fn unit_view(r: Result<(), String>) -> Result<(), Seq<char>> {
    match r {
        Ok(()) => Ok(()),
        Err(e) => Err(e@),
    }
}

/// Whether an action request sent at `sent_at` may still run at time `now`.
pub fn check_action_age(sent_at: &str, now: u64) -> (res: Result<(), String>)
    ensures
        unit_view(res) == spec_check_action_age(sent_at@, now),
{
    let v = chars_of(sent_at);
    assert(v@.subrange(0, v@.len() as int) =~= v@);
    let sent = match parse_u64_range(&v, 0, v.len()) {
        Some(t) => t,
        None => {
            return Err(owned("action request has invalid timestamp"));
        },
    };
    let age = now.saturating_sub(sent);
    if age > MAX_ACTION_AGE_MS {
        let mut e = owned("dropping stale action request, age=");
        push_decimal(&mut e, age);
        e.append("ms");
        Err(e)
    } else {
        Ok(())
    }
}

/// The current time in milliseconds since the Unix epoch.
/// Trusted: reads the system clock through `SystemTime::now`, with a clock
/// before the epoch read as zero; nothing is promised of the value, which
/// depends on the time of the call.
#[verifier::external_body]
pub(crate) fn now_ms_u64() -> u64 {
    std::time::SystemTime::now().duration_since(std::time::UNIX_EPOCH).unwrap_or_default().as_millis() as u64
}

/// Whether an action request sent at `sent_at` may still run now; the
/// answer is the one `check_action_age` gives for the time read from the
/// clock.
pub fn reject_stale_action(sent_at: &str) -> (res: Result<(), String>)
    ensures
        exists|now: u64| unit_view(res) == spec_check_action_age(sent_at@, now),
{
    let now = now_ms_u64();
    check_action_age(sent_at, now)
}

/// What the daemon does for a request, after it has checked it.
#[derive(Debug, PartialEq, Eq)]
pub enum DaemonAction {
    /// Reply with the daemon's status.
    Status,
    /// Emit the paste keys.
    EmitPaste,
    /// Unwrap the clipboard, then emit the paste keys.
    UnwrapPaste,
    /// Transform the clipboard for pasting in the format, then emit the paste keys.
    Paste(Format),
    /// Put the text on the clipboard, then emit the paste keys.
    PasteText(String),
}

/// A daemon action, with the text it carries as characters.
pub enum ActionView {
    Status,
    EmitPaste,
    UnwrapPaste,
    Paste(Format),
    PasteText(Seq<char>),
}

impl View for DaemonAction {
    type V = ActionView;

    open spec fn view(&self) -> ActionView {
        match self {
            DaemonAction::Status => ActionView::Status,
            DaemonAction::EmitPaste => ActionView::EmitPaste,
            DaemonAction::UnwrapPaste => ActionView::UnwrapPaste,
            DaemonAction::Paste(f) => ActionView::Paste(*f),
            DaemonAction::PasteText(t) => ActionView::PasteText(t@),
        }
    }
}

/// An action result by its view and the characters of its message.
pub open spec fn action_view(r: Result<DaemonAction, String>) -> Result<ActionView, Seq<char>> {
    match r {
        Ok(a) => Ok(a@),
        Err(e) => Err(e@),
    }
}

/// `then` unless the age check failed.
pub open spec fn after_age_check(check: Result<(), Seq<char>>, then: ActionView) -> Result<ActionView, Seq<char>> {
    match check {
        Ok(()) => Ok(then),
        Err(e) => Err(e),
    }
}

/// What the daemon does for `req` at time `now`: a paste text request is
/// read first; otherwise the request's words decide, and every action but
/// `STATUS` must pass the age check, which comes before the format of a
/// `PASTE` request is read.
pub open spec fn spec_plan_request(req: Seq<char>, now: u64) -> Result<ActionView, Seq<char>> {
    match spec_parse_paste_text_request(req) {
        Err(e) => Err(e),
        Ok(Some((sent_at, content))) => after_age_check(
            spec_check_action_age(sent_at, now),
            ActionView::PasteText(content),
        ),
        Ok(None) => {
            let w = words(req);
            if w.len() == 1 && w[0] == "STATUS"@ {
                Ok(ActionView::Status)
            } else if w.len() == 2 && w[0] == "EMIT_PASTE"@ {
                after_age_check(spec_check_action_age(w[1], now), ActionView::EmitPaste)
            } else if w.len() == 2 && w[0] == "UNWRAP_PASTE"@ {
                after_age_check(spec_check_action_age(w[1], now), ActionView::UnwrapPaste)
            } else if w.len() == 3 && w[0] == "PASTE"@ {
                match spec_check_action_age(w[2], now) {
                    Err(e) => Err(e),
                    Ok(()) => match spec_parse_format(w[1]) {
                        Ok(f) => Ok(ActionView::Paste(f)),
                        Err(_) => Err("invalid PASTE request"@),
                    },
                }
            } else {
                Err("unknown request"@)
            }
        },
    }
}

/// Whether `v[from..to]` is exactly the characters of `t`.
fn range_is(v: &Vec<char>, from: usize, to: usize, t: &str) -> (b: bool)
    requires
        from <= to <= v@.len(),
    ensures
        b == (v@.subrange(from as int, to as int) == t@),
{
    let w = chars_of(t);
    range_matches(v, from, to, &w)
}

/// The string holding `v[from..to]`.
fn owned_range(v: &Vec<char>, from: usize, to: usize) -> (s: String)
    requires
        from <= to <= v@.len(),
    ensures
        s@ == v@.subrange(from as int, to as int),
{
    let mut s = String::new();
    push_range(&mut s, v, from, to);
    s
}

/// What the daemon does for `request` at time `now`.
pub fn plan_request_at(request: &str, now: u64) -> (res: Result<DaemonAction, String>)
    ensures
        action_view(res) == spec_plan_request(request@, now),
{
    match parse_paste_text_request(request) {
        Err(e) => {
            return Err(e);
        },
        Ok(Some((sent_at, content))) => {
            return match check_action_age(sent_at, now) {
                Ok(()) => Ok(DaemonAction::PasteText(content)),
                Err(e) => Err(e),
            };
        },
        Ok(None) => {},
    }
    let v = chars_of(request);
    assert(v@.subrange(0, v@.len() as int) =~= v@);
    let w = word_ranges(&v, 0, v.len());
    if w.len() == 1 && range_is(&v, w[0].0, w[0].1, "STATUS") {
        return Ok(DaemonAction::Status);
    }
    if w.len() == 2 && range_is(&v, w[0].0, w[0].1, "EMIT_PASTE") {
        let sent_at = owned_range(&v, w[1].0, w[1].1);
        return match check_action_age(sent_at.as_str(), now) {
            Ok(()) => Ok(DaemonAction::EmitPaste),
            Err(e) => Err(e),
        };
    }
    if w.len() == 2 && range_is(&v, w[0].0, w[0].1, "UNWRAP_PASTE") {
        let sent_at = owned_range(&v, w[1].0, w[1].1);
        return match check_action_age(sent_at.as_str(), now) {
            Ok(()) => Ok(DaemonAction::UnwrapPaste),
            Err(e) => Err(e),
        };
    }
    if w.len() == 3 && range_is(&v, w[0].0, w[0].1, "PASTE") {
        let sent_at = owned_range(&v, w[2].0, w[2].1);
        if let Err(e) = check_action_age(sent_at.as_str(), now) {
            return Err(e);
        }
        let format = owned_range(&v, w[1].0, w[1].1);
        return match Format::parse(format.as_str()) {
            Ok(f) => Ok(DaemonAction::Paste(f)),
            Err(_) => Err(owned("invalid PASTE request")),
        };
    }
    Err(owned("unknown request"))
}

/// What the daemon does for `request` now; the answer is the one
/// `plan_request_at` gives for the time read from the clock.
pub fn plan_request(request: &str) -> (res: Result<DaemonAction, String>)
    ensures
        exists|now: u64| action_view(res) == spec_plan_request(request@, now),
{
    let now = now_ms_u64();
    plan_request_at(request, now)
}

/// The reply line for the outcome of a request: `OK`, `OK <message>` or
/// `ERR <error>`, ending in a newline.
pub open spec fn spec_response_line(outcome: Result<Seq<char>, Seq<char>>) -> Seq<char> {
    match outcome {
        Ok(m) => if m.len() == 0 {
            "OK\n"@
        } else {
            "OK "@ + m + "\n"@
        },
        Err(e) => "ERR "@ + e + "\n"@,
    }
}

/// An outcome by the characters of its message.
pub open spec fn outcome_view(r: Result<String, String>) -> Result<Seq<char>, Seq<char>> {
    match r {
        Ok(m) => Ok(m@),
        Err(e) => Err(e@),
    }
}

/// The reply line that the daemon writes for the outcome of a request.
pub fn response_line(outcome: &Result<String, String>) -> (line: String)
    ensures
        line@ == spec_response_line(outcome_view(*outcome)),
{
    match outcome {
        Ok(m) => {
            if m.as_str().is_empty() {
                owned("OK\n")
            } else {
                let mut line = owned("OK ");
                line.append(m.as_str());
                line.append("\n");
                line
            }
        },
        Err(e) => {
            let mut line = owned("ERR ");
            line.append(e.as_str());
            line.append("\n");
            line
        },
    }
}

/// The preferred text type that a clipboard offer advertises: UTF-8 text
/// first, then plain text.
pub open spec fn spec_choose_mime(mimes: Seq<Seq<char>>) -> Option<Seq<char>> {
    if mimes.contains("text/plain;charset=utf-8"@) {
        Some("text/plain;charset=utf-8"@)
    } else if mimes.contains("text/plain"@) {
        Some("text/plain"@)
    } else {
        None
    }
}

/// The characters of each string.
pub open spec fn views(ss: Seq<String>) -> Seq<Seq<char>> {
    ss.map_values(|s: String| s@)
}

/// Whether one of `mimes` is exactly `t`.
fn has_mime(mimes: &[String], t: &str) -> (b: bool)
    ensures
        b == views(mimes@).contains(t@),
{
    let mut i: usize = 0;
    while i < mimes.len()
        invariant
            i <= mimes@.len(),
            forall|k: int| 0 <= k < i ==> views(mimes@)[k] != t@,
        decreases mimes@.len() - i,
    {
        let v = chars_of(mimes[i].as_str());
        if chars_are(&v, t) {
            assert(views(mimes@)[i as int] == t@);
            return true;
        }
        i = i + 1;
    }
    false
}

/// The text type to ask a clipboard offer for, among the ones it advertises.
pub fn choose_mime(mimes: &[String]) -> (m: Option<&'static str>)
    ensures
        match m {
            Some(t) => spec_choose_mime(views(mimes@)) == Some(t@),
            None => spec_choose_mime(views(mimes@)) == None::<Seq<char>>,
        },
{
    if has_mime(mimes, "text/plain;charset=utf-8") {
        Some("text/plain;charset=utf-8")
    } else if has_mime(mimes, "text/plain") {
        Some("text/plain")
    } else {
        None
    }
}

} // verus!
