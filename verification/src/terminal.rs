//! What the events of the terminal mean.
use vstd::prelude::*;

use crate::app::actions::{Key, KeyCode};
use crate::app::InputMode;
use crate::text::chars_of;

verus! {

/// The number of lines by which the mouse wheel moves.
pub const WHEEL_LINES: isize = 3;

/// What was done to a key.
#[derive(Clone, Copy, Debug, PartialEq, Eq, Structural)]
pub enum KeyEventKind {
    Press,
    Repeat,
    Release,
}

/// Whether a key that was pressed, held or let go is taken.
pub fn accepts_key_kind(kind: KeyEventKind) -> (accepted: bool)
    ensures
        accepted == (kind != KeyEventKind::Release),
{
    match kind {
        KeyEventKind::Press | KeyEventKind::Repeat => true,
        KeyEventKind::Release => false,
    }
}

/// An event of the terminal.
#[derive(Debug)]
pub enum TerminalEvent {
    Key { kind: KeyEventKind, key: Key },
    WheelDown,
    WheelUp,
    Paste(String),
    Other,
}

/// What an event asks for.
#[derive(Debug)]
pub enum Request {
    Keys(Vec<Key>),
    Scroll(isize),
    Nothing,
}

/// A character that was typed.
pub open spec fn typed_key(c: char) -> Key {
    Key { code: KeyCode::Char(c), control: false, alt: false }
}

pub open spec fn typed_keys(s: Seq<char>) -> Seq<Key> {
    Seq::new(s.len(), |i: int| typed_key(s[i]))
}

/// What an event asks for: keys that are pressed or held, the wheel where the mouse is used,
/// and the characters of a text that is pasted where something is typed.
pub open spec fn requested(
    event: TerminalEvent,
    capture_mouse: bool,
    mode: InputMode,
    request: Request,
) -> bool {
    match event {
        TerminalEvent::Key { kind, key } => if kind != KeyEventKind::Release {
            request matches Request::Keys(keys) && keys@ == seq![key]
        } else {
            request is Nothing
        },
        TerminalEvent::WheelDown => if capture_mouse {
            request == Request::Scroll(WHEEL_LINES)
        } else {
            request is Nothing
        },
        TerminalEvent::WheelUp => if capture_mouse {
            request matches Request::Scroll(lines) && lines == -WHEEL_LINES
        } else {
            request is Nothing
        },
        TerminalEvent::Paste(text) => if mode != InputMode::Normal {
            request matches Request::Keys(keys) && keys@ == typed_keys(text@)
        } else {
            request is Nothing
        },
        TerminalEvent::Other => request is Nothing,
    }
}

fn keys_of(text: &str) -> (keys: Vec<Key>)
    ensures
        keys@ == typed_keys(text@),
{
    let characters = chars_of(text);
    let mut keys: Vec<Key> = Vec::new();
    let mut i: usize = 0;
    while i < characters.len()
        invariant
            i <= characters@.len(),
            keys@.len() == i,
            forall|j: int| 0 <= j < i ==> #[trigger] keys@[j] == typed_key(characters@[j]),
        decreases characters.len() - i,
    {
        let c: char = characters[i];
        let key = Key { code: KeyCode::Char(c), control: false, alt: false };
        assert(key == typed_key(characters@[i as int]));
        keys.push(key);
        i += 1;
    }
    assert(keys@ =~= typed_keys(text@));
    keys
}

/// What an event asks for.
pub fn request_of(event: TerminalEvent, capture_mouse: bool, mode: InputMode) -> (request: Request)
    ensures
        requested(event, capture_mouse, mode, request),
{
    match event {
        TerminalEvent::Key { kind, key } => {
            if accepts_key_kind(kind) {
                let mut keys: Vec<Key> = Vec::new();
                keys.push(key);
                assert(keys@ =~= seq![key]);
                Request::Keys(keys)
            } else {
                Request::Nothing
            }
        },
        TerminalEvent::WheelDown => if capture_mouse {
            Request::Scroll(WHEEL_LINES)
        } else {
            Request::Nothing
        },
        TerminalEvent::WheelUp => if capture_mouse {
            Request::Scroll(-WHEEL_LINES)
        } else {
            Request::Nothing
        },
        TerminalEvent::Paste(text) => {
            if mode == InputMode::Normal {
                return Request::Nothing;
            }
            Request::Keys(keys_of(text.as_str()))
        },
        TerminalEvent::Other => Request::Nothing,
    }
}

/// The wheel moves down where it is turned down, and up as far where it is turned up, if the mouse
/// is used at all. A key that is let go asks for nothing, and any other for itself. A text that is
/// pasted is typed, character by character, where something is typed.
pub proof fn law_events(
    mode: InputMode,
    down: Request,
    up: Request,
    pressed: Request,
    key: Key,
    kind: KeyEventKind,
    pasted: Request,
    text: String,
    i: int,
)
    requires
        requested(TerminalEvent::WheelDown, true, mode, down),
        requested(TerminalEvent::WheelUp, true, mode, up),
        requested(TerminalEvent::Key { kind, key }, true, mode, pressed),
        requested(TerminalEvent::Paste(text), true, mode, pasted),
    ensures
        down matches Request::Scroll(lines) && lines > 0 && (up matches Request::Scroll(back)
            && back + lines == 0),
        kind == KeyEventKind::Release ==> pressed is Nothing,
        kind != KeyEventKind::Release ==> (pressed matches Request::Keys(keys) && keys@.len() == 1
            && keys@[0] == key),
        mode == InputMode::Normal ==> pasted is Nothing,
        mode != InputMode::Normal ==> (pasted matches Request::Keys(keys) && keys@.len()
            == text@.len() && (0 <= i < text@.len() ==> keys@[i].code == KeyCode::Char(text@[i])
            && !keys@[i].control && !keys@[i].alt)),
{
}

} // verus!
