use wrap::clipboard::{ClipboardRead, ClipboardState, EventEffect, Message};
use wrap::wire::{push_string, push_u32, ByteOrder};

const O: ByteOrder = ByteOrder::Little;

fn word(x: u32) -> Vec<u8> {
    let mut d = Vec::new();
    push_u32(&mut d, x, O);
    d
}

fn text(s: &str) -> Vec<u8> {
    let mut d = Vec::new();
    push_string(&mut d, s, O);
    d
}

fn msg(sender: u32, opcode: u16, data: Vec<u8>, fds: Vec<i32>) -> Message {
    Message { sender, opcode, data, fds }
}

fn is_nothing(r: Result<EventEffect, String>) -> bool {
    matches!(r, Ok(EventEffect::Nothing))
}

#[test]
fn offers_and_selection_are_tracked() {
    let mut s = ClipboardState::new(10);
    assert_eq!(s.status(), "wrapd ready; selection=empty; owned=no; awaiting_owned=false; offers=0; sources=0");
    assert!(matches!(s.read_plan(), Err(e) if e == "clipboard is empty"));
    assert!(is_nothing(s.handle_event(&msg(10, 0, word(20), vec![]), O)));
    assert!(is_nothing(s.handle_event(&msg(20, 0, text("image/png"), vec![]), O)));
    assert!(is_nothing(s.handle_event(&msg(10, 1, word(20), vec![]), O)));
    assert!(matches!(s.read_plan(), Err(e) if e == "clipboard does not advertise text data"));
    assert!(is_nothing(s.handle_event(&msg(20, 0, text("text/plain"), vec![]), O)));
    match s.read_plan() {
        Ok(ClipboardRead::Transfer { offer, mime }) => {
            assert_eq!(offer, 20);
            assert_eq!(mime, "text/plain");
        }
        _ => panic!("a transfer from the selection"),
    }
    assert_eq!(s.status(), "wrapd ready; selection=present; owned=no; awaiting_owned=false; offers=1; sources=0");
    assert!(is_nothing(s.handle_event(&msg(10, 1, word(0), vec![]), O)));
    assert!(s.selection.is_none());
}

#[test]
fn own_text_is_read_back_until_another_client_takes_over() {
    let mut s = ClipboardState::new(10);
    s.begin_set(30, "hello".to_string());
    assert!(matches!(s.read_plan(), Ok(ClipboardRead::Owned(t)) if t == "hello"));
    assert!(is_nothing(s.handle_event(&msg(10, 0, word(31), vec![]), O)));
    assert!(is_nothing(s.handle_event(&msg(10, 1, word(31), vec![]), O)));
    assert_eq!(s.owned_selection, Some(31));
    assert!(matches!(s.read_plan(), Ok(ClipboardRead::Owned(t)) if t == "hello"));
    match s.handle_event(&msg(30, 0, text("text/plain"), vec![7]), O) {
        Ok(EventEffect::ServeSource { fd, content }) => {
            assert_eq!(fd, 7);
            assert_eq!(content, "hello");
        }
        _ => panic!("the source serves its text"),
    }
    assert!(matches!(
        s.handle_event(&msg(30, 0, text("text/plain"), vec![]), O),
        Err(e) if e == "source send event did not include an fd"
    ));
    assert!(is_nothing(s.handle_event(&msg(10, 1, word(40), vec![]), O)));
    assert!(s.owned_selection_text.is_none());
    assert_eq!(s.selection, Some(40));
}

#[test]
fn cancelling_the_last_source_drops_the_cache() {
    let mut s = ClipboardState::new(10);
    s.begin_set(30, "a".to_string());
    s.begin_set(31, "b".to_string());
    assert!(is_nothing(s.handle_event(&msg(30, 1, vec![], vec![]), O)));
    assert_eq!(s.owned_selection_text, Some("b".to_string()));
    assert!(is_nothing(s.handle_event(&msg(31, 1, vec![], vec![]), O)));
    assert!(s.owned_selection_text.is_none());
    assert!(s.sources.is_empty());
}

#[test]
fn display_errors_and_short_events_fail() {
    let mut s = ClipboardState::new(10);
    let mut data = word(3);
    data.extend(word(1));
    data.extend(text("invalid object"));
    assert!(matches!(
        s.handle_event(&msg(1, 0, data, vec![]), O),
        Err(e) if e == "wayland error on object 3, code 1: invalid object"
    ));
    assert!(matches!(
        s.handle_event(&msg(10, 1, vec![1, 2], vec![]), O),
        Err(e) if e == "short wayland event"
    ));
    assert!(is_nothing(s.handle_event(&msg(99, 0, vec![], vec![]), O)));
}
