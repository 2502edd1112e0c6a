//! The globals that the compositor advertises, and the keys that the daemon
//! presses to paste.
use vstd::prelude::*;

use crate::text::{chars_are, chars_of};
use crate::wire::{
    after_string, string_read_error, text_at, word_at, ByteOrder, Reader,
};

verus! {

/// A global that the compositor advertises: its name, its interface and
/// the highest version it supports.
pub struct Global {
    pub name: u32,
    pub interface: String,
    pub version: u32,
}

/// What a registry global event with the arguments `data` announces, if
/// its arguments can be read: a word, a string and a word.
pub open spec fn spec_global(order: ByteOrder, data: Seq<u8>) -> Option<(u32, Seq<char>, u32)> {
    match (word_at(order, data, 0), text_at(order, data, 4)) {
        (Some(name), Some(interface)) => match word_at(order, data, after_string(order, data, 4)) {
            Some(version) => Some((name, interface, version)),
            None => None,
        },
        _ => None,
    }
}

/// The global that a registry global event with the arguments `data`
/// announces; an event that cannot be read gives the reader's error.
pub fn read_global(data: &[u8], order: ByteOrder) -> (r: Result<Global, String>)
    requires
        data@.len() <= isize::MAX,
    ensures
        match r {
            Ok(g) => spec_global(order, data@) == Some((g.name, g.interface@, g.version)),
            Err(e) => spec_global(order, data@) is None && match word_at(order, data@, 0) {
                None => e@ == "short wayland event"@,
                Some(_) => match text_at(order, data@, 4) {
                    None => string_read_error(order, data@, 4, e@),
                    Some(_) => e@ == "short wayland event"@,
                },
            },
        },
{
    let mut reader = Reader::new(data, order);
    let name = match reader.u32() {
        Ok(x) => x,
        Err(e) => {
            return Err(e);
        },
    };
    let interface = match reader.string() {
        Ok(s) => s,
        Err(e) => {
            return Err(e);
        },
    };
    let version = match reader.u32() {
        Ok(x) => x,
        Err(e) => {
            return Err(e);
        },
    };
    Ok(Global { name, interface, version })
}

/// The interfaces of the globals, in order.
pub open spec fn interfaces(globals: Seq<Global>) -> Seq<Seq<char>> {
    globals.map_values(|g: Global| g.interface@)
}

/// The first global with the given interface, or the error that names it.
pub fn find_global<'a>(globals: &'a [Global], interface: &str) -> (r: Result<&'a Global, String>)
    ensures
        match r {
            Ok(g) => exists|i: int|
                0 <= i < globals@.len() && globals@[i] == *g && interfaces(globals@)[i] == interface@
                    && forall|j: int| 0 <= j < i ==> interfaces(globals@)[j] != interface@,
            Err(e) => !interfaces(globals@).contains(interface@) && e@
                == "compositor did not advertise "@ + interface@,
        },
{
    let mut i: usize = 0;
    while i < globals.len()
        invariant
            i <= globals@.len(),
            forall|j: int| 0 <= j < i ==> interfaces(globals@)[j] != interface@,
        decreases globals@.len() - i,
    {
        let v = chars_of(globals[i].interface.as_str());
        if chars_are(&v, interface) {
            assert(interfaces(globals@)[i as int] == interface@);
            return Ok(&globals[i]);
        }
        i = i + 1;
    }
    let mut e = String::from_str("compositor did not advertise ");
    e.append(interface);
    Err(e)
}

/// The version to bind a global at: the lower of what it supports and what
/// the daemon speaks.
pub fn bind_version(supported: u32, spoken: u32) -> (v: u32)
    ensures
        v == if supported <= spoken { supported } else { spoken },
{
    if supported <= spoken {
        supported
    } else {
        spoken
    }
}

/// The evdev code of the left control key.
pub const KEY_LEFTCTRL: u32 = 29;

/// The evdev code of the left shift key.
pub const KEY_LEFTSHIFT: u32 = 42;

/// The evdev code of the V key.
pub const KEY_V: u32 = 47;

/// A key that is let go.
pub const KEY_RELEASED: u32 = 0;

/// A key that is pressed.
pub const KEY_PRESSED: u32 = 1;

/// The modifier mask of shift and control held together.
pub const MOD_SHIFT_CONTROL: u32 = 5;

/// One step of a keystroke on the virtual keyboard.
#[derive(Clone, Copy, Debug, PartialEq, Eq, Structural)]
pub enum KeyStep {
    /// A key, by its code, changes to the state.
    Key(u32, u32),
    /// The held modifiers become the mask.
    Modifiers(u32),
}

/// The keystroke for pasting: control and shift go down, V is pressed and
/// let go, then shift and control are let go.
pub open spec fn spec_paste_keystrokes() -> Seq<KeyStep> {
    seq![
        KeyStep::Key(KEY_LEFTCTRL, KEY_PRESSED),
        KeyStep::Key(KEY_LEFTSHIFT, KEY_PRESSED),
        KeyStep::Modifiers(MOD_SHIFT_CONTROL),
        KeyStep::Key(KEY_V, KEY_PRESSED),
        KeyStep::Key(KEY_V, KEY_RELEASED),
        KeyStep::Key(KEY_LEFTSHIFT, KEY_RELEASED),
        KeyStep::Key(KEY_LEFTCTRL, KEY_RELEASED),
        KeyStep::Modifiers(0),
    ]
}

/// The steps of the paste keystroke, `Ctrl+Shift+V`.
pub fn paste_keystrokes() -> (steps: Vec<KeyStep>)
    ensures
        steps@ == spec_paste_keystrokes(),
{
    let mut steps: Vec<KeyStep> = Vec::new();
    steps.push(KeyStep::Key(KEY_LEFTCTRL, KEY_PRESSED));
    steps.push(KeyStep::Key(KEY_LEFTSHIFT, KEY_PRESSED));
    steps.push(KeyStep::Modifiers(MOD_SHIFT_CONTROL));
    steps.push(KeyStep::Key(KEY_V, KEY_PRESSED));
    steps.push(KeyStep::Key(KEY_V, KEY_RELEASED));
    steps.push(KeyStep::Key(KEY_LEFTSHIFT, KEY_RELEASED));
    steps.push(KeyStep::Key(KEY_LEFTCTRL, KEY_RELEASED));
    steps.push(KeyStep::Modifiers(0));
    assert(steps@ =~= spec_paste_keystrokes());
    steps
}

/// The XKB keymap of the virtual keyboard: control, shift and V.
pub open spec fn spec_keymap() -> Seq<char> {
    "xkb_keymap {\nxkb_keycodes \"(unnamed)\" {\n    minimum = 8;\n    maximum = 255;\n    <LCTL> = 37;\n    <LFSH> = 50;\n    <K047> = 55;\n};\nxkb_types \"(unnamed)\" {\n    include \"complete\"\n};\nxkb_compatibility \"(unnamed)\" {\n    include \"complete\"\n};\nxkb_symbols \"(unnamed)\" {\n    key <LCTL> { [ Control_L ] };\n    key <LFSH> { [ Shift_L ] };\n    key <K047> { [ v, V ] };\n    modifier_map Control { <LCTL> };\n    modifier_map Shift { <LFSH> };\n};\n};\n"@
}

/// The XKB keymap of the virtual keyboard.
pub fn keymap() -> (k: &'static str)
    ensures
        k@ == spec_keymap(),
{
    "xkb_keymap {\nxkb_keycodes \"(unnamed)\" {\n    minimum = 8;\n    maximum = 255;\n    <LCTL> = 37;\n    <LFSH> = 50;\n    <K047> = 55;\n};\nxkb_types \"(unnamed)\" {\n    include \"complete\"\n};\nxkb_compatibility \"(unnamed)\" {\n    include \"complete\"\n};\nxkb_symbols \"(unnamed)\" {\n    key <LCTL> { [ Control_L ] };\n    key <LFSH> { [ Shift_L ] };\n    key <K047> { [ v, V ] };\n    modifier_map Control { <LCTL> };\n    modifier_map Shift { <LFSH> };\n};\n};\n"
}

} // verus!
