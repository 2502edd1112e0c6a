//! The daemon's view of the clipboard, kept up to date from the events that
//! the compositor sends, and the decisions it takes on it.
use std::collections::HashMap;

use vstd::prelude::*;

use crate::decimal::{decimal, is_digit, lemma_decimal_digits, push_decimal};
use crate::protocol::{choose_mime, spec_choose_mime, views};
use crate::protocol_laws::law_choose_mime_preference;
use crate::wire::{string_read_error, text_at, word_at, ByteOrder, Reader};

verus! {

broadcast use vstd::std_specs::hash::group_hash_axioms;

/// The object id of the display, which reports protocol errors.
pub const WL_DISPLAY_ID: u32 = 1;

/// A message from the compositor: its sender, opcode, argument bytes, and
/// the file descriptors that came with it.
pub struct Message {
    pub sender: u32,
    pub opcode: u16,
    pub data: Vec<u8>,
    pub fds: Vec<i32>,
}

/// What the daemon knows of the clipboard.
pub struct ClipboardState {
    /// The data device, whose events announce offers and the selection.
    pub data_device: u32,
    /// The offer that holds the selection, if any.
    pub selection: Option<u32>,
    /// The offer that the daemon's own source became, if any.
    pub owned_selection: Option<u32>,
    /// The text the daemon last put on the clipboard, while it owns it.
    pub owned_selection_text: Option<String>,
    /// Whether the daemon waits for the selection event of its own source.
    pub awaiting_owned_selection: bool,
    /// The offers by id, with the types each advertises.
    pub offers: HashMap<u32, Vec<String>>,
    /// The daemon's data sources by id, with the text each serves.
    pub sources: HashMap<u32, String>,
}

/// The clipboard state in mathematical terms.
pub struct ClipboardModel {
    pub data_device: u32,
    pub selection: Option<u32>,
    pub owned_selection: Option<u32>,
    pub owned_text: Option<Seq<char>>,
    pub awaiting_owned: bool,
    pub offers: Map<u32, Seq<Seq<char>>>,
    pub sources: Map<u32, Seq<char>>,
}

/// The characters of a string that may be absent.
pub open spec fn opt_view(s: Option<String>) -> Option<Seq<char>> {
    match s {
        Some(t) => Some(t@),
        None => None,
    }
}

impl View for ClipboardState {
    type V = ClipboardModel;

    open spec fn view(&self) -> ClipboardModel {
        ClipboardModel {
            data_device: self.data_device,
            selection: self.selection,
            owned_selection: self.owned_selection,
            owned_text: opt_view(self.owned_selection_text),
            awaiting_owned: self.awaiting_owned_selection,
            offers: self.offers@.map_values(|m: Vec<String>| views(m@)),
            sources: self.sources@.map_values(|s: String| s@),
        }
    }
}

/// The state after a selection event for offer `id` (0 for none): the
/// daemon's own source is recognised when it waits for it; any other offer
/// ends the daemon's ownership.
pub open spec fn after_selection(m: ClipboardModel, id: u32) -> ClipboardModel {
    let m1 = ClipboardModel { selection: if id != 0 { Some(id) } else { None }, ..m };
    if m.awaiting_owned && id != 0 {
        ClipboardModel { owned_selection: Some(id), awaiting_owned: false, ..m1 }
    } else if Some(id) != m.owned_selection {
        ClipboardModel { owned_selection: None, owned_text: None, awaiting_owned: false, ..m1 }
    } else {
        m1
    }
}

/// The state after the source `id` is cancelled: without any source left,
/// the daemon owns the clipboard no more.
pub open spec fn after_cancel(m: ClipboardModel, id: u32) -> ClipboardModel {
    let sources = m.sources.remove(id);
    if sources.is_empty() {
        ClipboardModel { sources, owned_selection: None, owned_text: None, ..m }
    } else {
        ClipboardModel { sources, ..m }
    }
}

/// `e` is the error that a display error event with the arguments `data`
/// reports: the object, the code and the message, or why they could not be
/// read.
pub open spec fn display_error(order: ByteOrder, data: Seq<u8>, e: Seq<char>) -> bool {
    match (word_at(order, data, 0), word_at(order, data, 4)) {
        (Some(object), Some(code)) => match text_at(order, data, 8) {
            Some(t) => e == "wayland error on object "@ + decimal(object as nat) + ", code "@ + decimal(
                code as nat,
            ) + ": "@ + t,
            None => string_read_error(order, data, 8, e),
        },
        _ => e == "short wayland event"@,
    }
}

/// What an event asks the daemon to do besides updating its state.
pub enum EventEffect {
    Nothing,
    /// Write the text to the file descriptor, then close it.
    ServeSource { fd: i32, content: String },
}

impl ClipboardState {
    /// No selection, no offers, no sources, for the data device `data_device`.
    pub fn new(data_device: u32) -> (s: Self)
        ensures
            s@.data_device == data_device,
            s@.selection is None,
            s@.owned_selection is None,
            s@.owned_text is None,
            !s@.awaiting_owned,
            s@.offers == Map::<u32, Seq<Seq<char>>>::empty(),
            s@.sources == Map::<u32, Seq<char>>::empty(),
    {
        let s = ClipboardState {
            data_device,
            selection: None,
            owned_selection: None,
            owned_selection_text: None,
            awaiting_owned_selection: false,
            offers: HashMap::new(),
            sources: HashMap::new(),
        };
        assert(s@.offers =~= Map::<u32, Seq<Seq<char>>>::empty());
        assert(s@.sources =~= Map::<u32, Seq<char>>::empty());
        s
    }
}

/// An effect by the text it carries.
pub enum EffectView {
    Nothing,
    ServeSource(i32, Seq<char>),
}

/// An event's outcome by its effect's view and its error's characters.
pub open spec fn effect_view(r: Result<EventEffect, String>) -> Result<EffectView, Seq<char>> {
    match r {
        Ok(EventEffect::Nothing) => Ok(EffectView::Nothing),
        Ok(EventEffect::ServeSource { fd, content }) => Ok(EffectView::ServeSource(fd, content@)),
        Err(e) => Err(e@),
    }
}

/// What an event from `sender` with `opcode`, the arguments `data` and the
/// descriptors `fds` does to the state `m`: `r` is its outcome and `m2` the
/// state after it. A display error event fails with the reported error; the
/// data device announces offers and the selection; an offer lists the types
/// it advertises; a source is asked to send its text, or is cancelled. An
/// event that cannot be read fails and changes nothing; other events change
/// nothing.
pub open spec fn event_step(
    m: ClipboardModel,
    sender: u32,
    opcode: u16,
    data: Seq<u8>,
    fds: Seq<i32>,
    order: ByteOrder,
    r: Result<EffectView, Seq<char>>,
    m2: ClipboardModel,
) -> bool {
    if sender == WL_DISPLAY_ID && opcode == 0 {
        &&& r matches Err(e) && display_error(order, data, e)
        &&& m2 == m
    } else if sender == m.data_device {
        if opcode == 0 || opcode == 1 {
            match word_at(order, data, 0) {
                None => r == Err::<EffectView, Seq<char>>("short wayland event"@) && m2 == m,
                Some(id) => {
                    &&& r == Ok::<EffectView, Seq<char>>(EffectView::Nothing)
                    &&& m2 == if opcode == 0 {
                        ClipboardModel { offers: m.offers.insert(id, Seq::empty()), ..m }
                    } else {
                        after_selection(m, id)
                    }
                },
            }
        } else {
            r == Ok::<EffectView, Seq<char>>(EffectView::Nothing) && m2 == m
        }
    } else if m.offers.contains_key(sender) {
        if opcode == 0 {
            match text_at(order, data, 0) {
                Some(t) => {
                    &&& r == Ok::<EffectView, Seq<char>>(EffectView::Nothing)
                    &&& m2 == ClipboardModel {
                        offers: m.offers.insert(sender, m.offers[sender].push(t)),
                        ..m
                    }
                },
                None => r matches Err(e) && string_read_error(order, data, 0, e) && m2 == m,
            }
        } else {
            r == Ok::<EffectView, Seq<char>>(EffectView::Nothing) && m2 == m
        }
    } else if m.sources.contains_key(sender) {
        if opcode == 0 {
            &&& m2 == m
            &&& match text_at(order, data, 0) {
                None => r matches Err(e) && string_read_error(order, data, 0, e),
                Some(_) => if fds.len() == 0 {
                    r == Err::<EffectView, Seq<char>>("source send event did not include an fd"@)
                } else {
                    r == Ok::<EffectView, Seq<char>>(
                        EffectView::ServeSource(fds[0], m.sources[sender]),
                    )
                },
            }
        } else if opcode == 1 {
            r == Ok::<EffectView, Seq<char>>(EffectView::Nothing) && m2 == after_cancel(m, sender)
        } else {
            r == Ok::<EffectView, Seq<char>>(EffectView::Nothing) && m2 == m
        }
    } else {
        r == Ok::<EffectView, Seq<char>>(EffectView::Nothing) && m2 == m
    }
}

/// The error that a display error event with the arguments `data` reports.
fn read_display_error(data: &[u8], order: ByteOrder) -> (e: String)
    requires
        data@.len() <= isize::MAX,
    ensures
        display_error(order, data@, e@),
{
    let mut r = Reader::new(data, order);
    let object = match r.u32() {
        Ok(x) => x,
        Err(e) => {
            return e;
        },
    };
    let code = match r.u32() {
        Ok(x) => x,
        Err(e) => {
            return e;
        },
    };
    let text = match r.string() {
        Ok(t) => t,
        Err(e) => {
            return e;
        },
    };
    let mut e = String::from_str("wayland error on object ");
    push_decimal(&mut e, object as u64);
    e.append(", code ");
    push_decimal(&mut e, code as u64);
    e.append(": ");
    e.append(text.as_str());
    e
}

/// The text of the string argument at the start of `data`.
fn read_text(data: &[u8], order: ByteOrder) -> (r: Result<String, String>)
    requires
        data@.len() <= isize::MAX,
    ensures
        match r {
            Ok(t) => text_at(order, data@, 0) == Some(t@),
            Err(e) => text_at(order, data@, 0) is None && string_read_error(order, data@, 0, e@),
        },
{
    let mut reader = Reader::new(data, order);
    reader.string()
}

/// The word at the start of `data`.
fn read_word(data: &[u8], order: ByteOrder) -> (r: Result<u32, String>)
    requires
        data@.len() <= isize::MAX,
    ensures
        match r {
            Ok(x) => word_at(order, data@, 0) == Some(x),
            Err(e) => word_at(order, data@, 0) is None && e@ == "short wayland event"@,
        },
{
    let mut reader = Reader::new(data, order);
    reader.u32()
}

impl ClipboardState {
    /// Takes in one event from the compositor.
    pub fn handle_event(&mut self, message: &Message, order: ByteOrder) -> (r: Result<EventEffect, String>)
        requires
            message.data@.len() <= isize::MAX,
        ensures
            event_step(
                old(self)@,
                message.sender,
                message.opcode,
                message.data@,
                message.fds@,
                order,
                effect_view(r),
                final(self)@,
            ),
    {
        let data = message.data.as_slice();
        if message.sender == WL_DISPLAY_ID && message.opcode == 0 {
            return Err(read_display_error(data, order));
        }
        if message.sender == self.data_device {
            if message.opcode == 0 {
                let id = match read_word(data, order) {
                    Ok(x) => x,
                    Err(e) => {
                        return Err(e);
                    },
                };
                let fresh: Vec<String> = Vec::new();
                assert(views(fresh@) =~= Seq::<Seq<char>>::empty());
                self.offers.insert(id, fresh);
                proof {
                    assert(self@.offers =~= old(self)@.offers.insert(id, Seq::empty()));
                }
            } else if message.opcode == 1 {
                let id = match read_word(data, order) {
                    Ok(x) => x,
                    Err(e) => {
                        return Err(e);
                    },
                };
                self.selection = if id != 0 {
                    Some(id)
                } else {
                    None
                };
                if self.awaiting_owned_selection && id != 0 {
                    self.owned_selection = Some(id);
                    self.awaiting_owned_selection = false;
                } else if Some(id) != self.owned_selection {
                    self.owned_selection = None;
                    self.owned_selection_text = None;
                    self.awaiting_owned_selection = false;
                }
            }
            return Ok(EventEffect::Nothing);
        }
        if self.offers.contains_key(&message.sender) {
            if message.opcode == 0 {
                let mime = match read_text(data, order) {
                    Ok(t) => t,
                    Err(e) => {
                        return Err(e);
                    },
                };
                let mut mimes = match self.offers.remove(&message.sender) {
                    Some(ms) => ms,
                    None => Vec::new(),
                };
                let ghost before = mimes@;
                mimes.push(mime);
                self.offers.insert(message.sender, mimes);
                proof {
                    assert(views(mimes@) =~= views(before).push(mime@));
                    assert(self@.offers =~= old(self)@.offers.insert(
                        message.sender,
                        old(self)@.offers[message.sender].push(mime@),
                    ));
                }
            }
            return Ok(EventEffect::Nothing);
        }
        if self.sources.contains_key(&message.sender) {
            if message.opcode == 0 {
                match read_text(data, order) {
                    Ok(_) => {},
                    Err(e) => {
                        return Err(e);
                    },
                }
                if message.fds.len() == 0 {
                    return Err(String::from_str("source send event did not include an fd"));
                }
                let fd = message.fds[0];
                let content = match self.sources.get(&message.sender) {
                    Some(c) => c.clone(),
                    None => String::new(),
                };
                return Ok(EventEffect::ServeSource { fd, content });
            } else if message.opcode == 1 {
                self.sources.remove(&message.sender);
                proof {
                    assert(self@.sources =~= old(self)@.sources.remove(message.sender));
                }
                assert(self@.sources.dom() =~= self.sources@.dom());
                if self.sources.is_empty() {
                    self.owned_selection = None;
                    self.owned_selection_text = None;
                }
            }
        }
        Ok(EventEffect::Nothing)
    }
}

/// The state after the daemon offers `content` from its new source `source`:
/// it serves the text, caches it as its own, and waits for its selection.
pub open spec fn after_set(m: ClipboardModel, source: u32, content: Seq<char>) -> ClipboardModel {
    ClipboardModel {
        sources: m.sources.insert(source, content),
        owned_text: Some(content),
        awaiting_owned: true,
        ..m
    }
}

/// Where the daemon gets the clipboard text from.
pub enum ClipboardRead {
    /// Its own text, still on the clipboard.
    Owned(String),
    /// A transfer of the given type from the offer that holds the selection.
    Transfer { offer: u32, mime: &'static str },
}

/// A clipboard read by the characters it involves.
pub enum ClipboardReadView {
    Owned(Seq<char>),
    Transfer(u32, Seq<char>),
}

/// A planned read by its view and its error's characters.
pub open spec fn read_view(r: Result<ClipboardRead, String>) -> Result<ClipboardReadView, Seq<char>> {
    match r {
        Ok(ClipboardRead::Owned(t)) => Ok(ClipboardReadView::Owned(t@)),
        Ok(ClipboardRead::Transfer { offer, mime }) => Ok(ClipboardReadView::Transfer(offer, mime@)),
        Err(e) => Err(e@),
    }
}

/// Where the clipboard text comes from in state `m`: the daemon's own text
/// while it owns the clipboard, else the selection's offer in the preferred
/// text type it advertises.
pub open spec fn spec_read_plan(m: ClipboardModel) -> Result<ClipboardReadView, Seq<char>> {
    match m.owned_text {
        Some(t) => Ok(ClipboardReadView::Owned(t)),
        None => match m.selection {
            None => Err("clipboard is empty"@),
            Some(id) => if m.offers.contains_key(id) {
                match spec_choose_mime(m.offers[id]) {
                    Some(mime) => Ok(ClipboardReadView::Transfer(id, mime)),
                    None => Err("clipboard does not advertise text data"@),
                }
            } else {
                Err("clipboard does not advertise text data"@)
            },
        },
    }
}

/// The words for a flag in the status line.
pub open spec fn flag_text(b: bool, yes: Seq<char>, no: Seq<char>) -> Seq<char> {
    if b {
        yes
    } else {
        no
    }
}

/// The status line for state `m`.
pub open spec fn spec_status(m: ClipboardModel) -> Seq<char> {
    "wrapd ready; selection="@ + flag_text(m.selection is Some, "present"@, "empty"@) + "; owned="@
        + flag_text(m.owned_text is Some, "yes"@, "no"@) + "; awaiting_owned="@ + flag_text(
        m.awaiting_owned,
        "true"@,
        "false"@,
    ) + "; offers="@ + decimal(m.offers.len()) + "; sources="@ + decimal(m.sources.len())
}

impl ClipboardState {
    /// Records that the daemon offers `content` from its new source `source`.
    pub fn begin_set(&mut self, source: u32, content: String)
        ensures
            final(self)@ == after_set(old(self)@, source, content@),
    {
        self.sources.insert(source, content.clone());
        self.owned_selection_text = Some(content);
        self.awaiting_owned_selection = true;
        assert(self@.sources =~= old(self)@.sources.insert(source, content@));
    }

    /// Where to get the clipboard text from.
    pub fn read_plan(&self) -> (r: Result<ClipboardRead, String>)
        ensures
            read_view(r) == spec_read_plan(self@),
    {
        if let Some(text) = &self.owned_selection_text {
            return Ok(ClipboardRead::Owned(text.clone()));
        }
        let offer = match self.selection {
            Some(id) => id,
            None => {
                return Err(String::from_str("clipboard is empty"));
            },
        };
        let mime = match self.offers.get(&offer) {
            Some(mimes) => choose_mime(mimes.as_slice()),
            None => None,
        };
        match mime {
            Some(m) => Ok(ClipboardRead::Transfer { offer, mime: m }),
            None => Err(String::from_str("clipboard does not advertise text data")),
        }
    }

    /// A line that describes the state.
    pub fn status(&self) -> (line: String)
        ensures
            line@ == spec_status(self@),
    {
        let mut line = String::from_str("wrapd ready; selection=");
        line.append(if self.selection.is_some() { "present" } else { "empty" });
        line.append("; owned=");
        line.append(if self.owned_selection_text.is_some() { "yes" } else { "no" });
        line.append("; awaiting_owned=");
        line.append(if self.awaiting_owned_selection { "true" } else { "false" });
        line.append("; offers=");
        assert(self@.offers.dom() =~= self.offers@.dom());
        assert(self@.sources.dom() =~= self.sources@.dom());
        push_decimal(&mut line, self.offers.len() as u64);
        line.append("; sources=");
        push_decimal(&mut line, self.sources.len() as u64);
        line
    }
}

/// Reading the clipboard right after setting it gives back the text set.
pub proof fn law_read_after_set(m: ClipboardModel, source: u32, content: Seq<char>)
    ensures
        spec_read_plan(after_set(m, source, content)) == Ok::<ClipboardReadView, Seq<char>>(
            ClipboardReadView::Owned(content),
        ),
{
}

/// The selection event for the daemon's own source keeps the text it set:
/// reading then still gives it back. (An event for no offer, id 0, ends the
/// ownership unless the daemon took offer 0 for its own.)
pub proof fn law_read_after_own_selection(m: ClipboardModel, source: u32, content: Seq<char>, id: u32)
    requires
        id != 0 || m.owned_selection == Some(0u32),
    ensures
        after_selection(after_set(m, source, content), id).owned_selection == Some(id),
        spec_read_plan(after_selection(after_set(m, source, content), id)) == Ok::<
            ClipboardReadView,
            Seq<char>,
        >(ClipboardReadView::Owned(content)),
{
}

/// Once another client takes the clipboard, the daemon's own text is gone
/// and a read goes to that client's offer.
pub proof fn law_foreign_selection_drops_own_text(m: ClipboardModel, id: u32)
    requires
        !(m.awaiting_owned && id != 0),
        m.owned_selection != Some(id),
    ensures
        after_selection(m, id).owned_text is None,
        after_selection(m, id).selection == if id != 0 { Some(id) } else { None::<u32> },
        spec_read_plan(after_selection(m, id)) matches Ok(v) ==> v is Transfer,
{
}

/// Cancelling the daemon's last source ends its ownership of the clipboard.
pub proof fn law_cancel_last_source(m: ClipboardModel, source: u32)
    requires
        forall|k: u32| m.sources.contains_key(k) ==> k == source,
    ensures
        after_cancel(m, source).owned_text is None,
        after_cancel(m, source).owned_selection is None,
        after_cancel(m, source).sources.is_empty(),
{
    assert(m.sources.remove(source).dom() =~= Set::<u32>::empty());
    assert(m.sources.remove(source) =~= Map::<u32, Seq<char>>::empty());
}

/// Whether `t` occurs in `s`.
pub open spec fn contains_text(s: Seq<char>, t: Seq<char>) -> bool {
    exists|i: int| 0 <= i && i + t.len() <= s.len() && #[trigger] s.subrange(i, i + t.len()) == t
}

/// `s` holds no `c`.
spec fn free_of(s: Seq<char>, c: char) -> bool {
    forall|j: int| 0 <= j < s.len() ==> s[j] != c
}

/// Two texts free of `c` make a text free of `c`.
proof fn lemma_free_of_concat(a: Seq<char>, b: Seq<char>, c: char)
    requires
        free_of(a, c),
        free_of(b, c),
    ensures
        free_of(a + b, c),
{
    assert forall|j: int| 0 <= j < (a + b).len() implies (a + b)[j] != c by {
        if j < a.len() {
            assert((a + b)[j] == a[j]);
        } else {
            assert((a + b)[j] == b[j - a.len()]);
        }
    }
}

/// A number in decimal holds no `y`.
proof fn lemma_decimal_free_of_y(n: nat)
    ensures
        free_of(decimal(n), 'y'),
{
    lemma_decimal_digits(n);
    assert forall|j: int| 0 <= j < decimal(n).len() implies decimal(n)[j] != 'y' by {
        assert(is_digit(decimal(n)[j]));
    }
}

/// The status line says `owned=yes` exactly when a read of the clipboard
/// gives the daemon's own text, that is, while the daemon owns the
/// clipboard.
pub proof fn law_status_reports_owned(m: ClipboardModel)
    ensures
        contains_text(spec_status(m), "owned=yes"@) <==> (spec_read_plan(m) matches Ok(
            ClipboardReadView::Owned(_),
        )),
        contains_text(spec_status(m), "owned=yes"@) <==> m.owned_text is Some,
{
    reveal_strlit("owned=yes");
    reveal_strlit("wrapd ready; selection=");
    reveal_strlit("present");
    reveal_strlit("empty");
    reveal_strlit("; owned=");
    reveal_strlit("yes");
    reveal_strlit("no");
    reveal_strlit("; awaiting_owned=");
    reveal_strlit("true");
    reveal_strlit("false");
    reveal_strlit("; offers=");
    reveal_strlit("; sources=");
    let head = "wrapd ready; selection="@;
    let sel = flag_text(m.selection is Some, "present"@, "empty"@);
    let own = flag_text(m.owned_text is Some, "yes"@, "no"@);
    let tail = "; awaiting_owned="@ + flag_text(m.awaiting_owned, "true"@, "false"@) + "; offers="@
        + decimal(m.offers.len()) + "; sources="@ + decimal(m.sources.len());
    let s = spec_status(m);
    assert(s =~= head + sel + "; owned="@ + own + tail);
    if m.owned_text is Some {
        let i: int = head.len() + sel.len() + 2int;
        assert(s.subrange(i, i + 9) =~= "owned=yes"@);
    } else {
        lemma_decimal_free_of_y(m.offers.len());
        lemma_decimal_free_of_y(m.sources.len());
        assert(free_of("present"@, 'y'));
        assert(free_of("; owned="@, 'y'));
        assert(free_of("no"@, 'y'));
        assert(free_of("; awaiting_owned="@, 'y'));
        let aw = flag_text(m.awaiting_owned, "true"@, "false"@);
        assert(free_of(aw, 'y'));
        assert(free_of("; offers="@, 'y'));
        assert(free_of("; sources="@, 'y'));
        lemma_free_of_concat("; owned="@, "no"@, 'y');
        lemma_free_of_concat("; owned="@ + "no"@, "; awaiting_owned="@, 'y');
        let t1 = "; owned="@ + "no"@ + "; awaiting_owned="@;
        lemma_free_of_concat(t1, aw, 'y');
        lemma_free_of_concat(t1 + aw, "; offers="@, 'y');
        lemma_free_of_concat(t1 + aw + "; offers="@, decimal(m.offers.len()), 'y');
        let t2 = t1 + aw + "; offers="@ + decimal(m.offers.len());
        lemma_free_of_concat(t2, "; sources="@, 'y');
        lemma_free_of_concat(t2 + "; sources="@, decimal(m.sources.len()), 'y');
        let rest = t2 + "; sources="@ + decimal(m.sources.len());
        assert(s =~= head + sel + rest);
        let k = head.len() + sel.len();
        assert forall|i: int| 0 <= i && i + 9 <= s.len() implies #[trigger] s.subrange(i, i + 9)
            != "owned=yes"@ by {
            if s.subrange(i, i + 9) == "owned=yes"@ {
                assert(s.subrange(i, i + 9)[6] == 'y');
                assert(s.subrange(i, i + 9)[0] == 'o');
                assert(s[i + 6] == 'y');
                assert(s[i] == 'o');
                if i + 6 >= k {
                    assert(s[i + 6] == rest[i + 6 - k]);
                } else if i + 6 >= head.len() {
                    assert(s[i + 6] == sel[i + 6 - head.len()]);
                    if m.selection is Some {
                        assert(sel[i + 6 - head.len()] != 'y');
                    } else {
                        assert(i + 6 - head.len() == 4);
                        assert(s[i] == head[21]);
                    }
                } else {
                    assert(s[i + 6] == head[i + 6]);
                    assert(i + 6 == 10);
                    assert(s[i] == head[4]);
                }
            }
        }
    }
}

/// After the daemon sets the clipboard and the compositor announces the
/// daemon's own source as the selection, the status line says
/// `owned=yes`.
pub proof fn law_status_after_own_selection(m: ClipboardModel, source: u32, content: Seq<char>, id: u32)
    requires
        id != 0,
    ensures
        contains_text(spec_status(after_selection(after_set(m, source, content), id)), "owned=yes"@),
{
    law_read_after_own_selection(m, source, content, id);
    law_status_reports_owned(after_selection(after_set(m, source, content), id));
}

/// A selection whose offer advertises UTF-8 text is read as UTF-8 text,
/// and one whose offer advertises plain text only is read as plain text,
/// while the daemon does not own the clipboard.
pub proof fn law_read_prefers_utf8(m: ClipboardModel, id: u32)
    requires
        m.owned_text is None,
        m.selection == Some(id),
        m.offers.contains_key(id),
    ensures
        m.offers[id].contains("text/plain;charset=utf-8"@) ==> spec_read_plan(m) == Ok::<
            ClipboardReadView,
            Seq<char>,
        >(ClipboardReadView::Transfer(id, "text/plain;charset=utf-8"@)),
        !m.offers[id].contains("text/plain;charset=utf-8"@) && m.offers[id].contains("text/plain"@)
            ==> spec_read_plan(m) == Ok::<ClipboardReadView, Seq<char>>(
            ClipboardReadView::Transfer(id, "text/plain"@),
        ),
        !m.offers[id].contains("text/plain;charset=utf-8"@) && !m.offers[id].contains("text/plain"@)
            ==> spec_read_plan(m) == Err::<ClipboardReadView, Seq<char>>(
            "clipboard does not advertise text data"@,
        ),
{
    law_choose_mime_preference(m.offers[id]);
}

} // verus!
