//! Keys as a native terminal library reports them, and what they mean here.
//!
//! On native targets the input is decoded by the terminal library rather
//! than by [`crate::decode`], because on Windows it is console records, not
//! an escape stream. [`HostKey`] holds, as plain values, what such a key
//! event carries; the host converts each event into one, and the mapping
//! to a [`KeyPress`] is decided here.

use vstd::prelude::*;
use crate::key::{KeyCode, KeyPress, Mods, mods_of, normal_form};
use crate::term::{Event, EventView, Size};

verus! {

/// The key of a host key event.
#[derive(Clone, Copy, PartialEq, Eq, Debug, Structural)]
pub enum HostCode {
    Backspace,
    Enter,
    Left,
    Right,
    Up,
    Down,
    Home,
    End,
    PageUp,
    PageDown,
    Tab,
    /// Shift+Tab, reported as a key of its own.
    BackTab,
    Delete,
    Insert,
    F(u8),
    Char(char),
    /// NUL: Ctrl+Space or Ctrl+@.
    Null,
    Esc,
    /// Lock keys, media keys, bare modifiers: nothing to edit with.
    Other,
}

/// Whether a key event is a press, a repeat while held, or the release.
#[derive(Clone, Copy, PartialEq, Eq, Debug, Structural)]
pub enum KeyKind {
    Press,
    Repeat,
    Release,
}

/// A host key event: the key, the modifiers held, and its kind.
#[derive(Clone, Copy, PartialEq, Eq, Debug, Structural)]
pub struct HostKey {
    pub code: HostCode,
    pub ctrl: bool,
    pub alt: bool,
    pub shift: bool,
    pub kind: KeyKind,
}

/// A host terminal event.
#[derive(Clone, Copy, PartialEq, Eq, Debug, Structural)]
pub enum HostEvent {
    Key(HostKey),
    Resize(u16, u16),
    /// Focus, mouse and paste events: not this crate's.
    Other,
}

/// The key press a host key means, or `None` for one that is not input.
pub open spec fn host_key_spec(k: HostKey) -> Option<KeyPress> {
    let mods = mods_of(k.shift, k.alt, k.ctrl);
    let code = match k.code {
        HostCode::Char(c) => Some(KeyCode::Char(c)),
        HostCode::Enter => Some(KeyCode::Enter),
        HostCode::Tab => Some(KeyCode::Tab),
        HostCode::Backspace => Some(KeyCode::Backspace),
        HostCode::Delete => Some(KeyCode::Delete),
        HostCode::Insert => Some(KeyCode::Insert),
        HostCode::Esc => Some(KeyCode::Escape),
        HostCode::Left => Some(KeyCode::Left),
        HostCode::Right => Some(KeyCode::Right),
        HostCode::Up => Some(KeyCode::Up),
        HostCode::Down => Some(KeyCode::Down),
        HostCode::Home => Some(KeyCode::Home),
        HostCode::End => Some(KeyCode::End),
        HostCode::PageUp => Some(KeyCode::PageUp),
        HostCode::PageDown => Some(KeyCode::PageDown),
        HostCode::F(n) => Some(KeyCode::F(n)),
        _ => None,
    };
    match k.code {
        HostCode::BackTab => Some(KeyPress { code: KeyCode::Tab, mods: mods_of(true, k.alt, k.ctrl) }),
        HostCode::Null => Some(KeyPress { code: KeyCode::Char(' '), mods: mods_of(k.shift, k.alt, true) }),
        _ => match code {
            Some(c) => Some(normal_form(KeyPress { code: c, mods })),
            None => None,
        },
    }
}

/// The event a host event means, or `None` for one that is not input: a
/// key release, or anything but a key or a resize.
pub open spec fn host_event_spec(e: HostEvent) -> Option<EventView> {
    match e {
        HostEvent::Key(k) => if k.kind == KeyKind::Release {
            None
        } else {
            match host_key_spec(k) {
                Some(key) => Some(EventView::Key(key)),
                None => None,
            }
        },
        HostEvent::Resize(cols, rows) => Some(EventView::Resize(Size { cols, rows })),
        HostEvent::Other => None,
    }
}

/// The key press a host key means.
pub fn from_host_key(k: HostKey) -> (r: Option<KeyPress>)
    ensures
        r == host_key_spec(k),
{
    let mods = Mods::from_flags(k.shift, k.alt, k.ctrl);
    let code = match k.code {
        HostCode::Char(c) => KeyCode::Char(c),
        HostCode::Enter => KeyCode::Enter,
        HostCode::Tab => KeyCode::Tab,
        HostCode::BackTab => {
            return Some(KeyPress::new(KeyCode::Tab, mods | Mods::SHIFT));
        },
        HostCode::Backspace => KeyCode::Backspace,
        HostCode::Delete => KeyCode::Delete,
        HostCode::Insert => KeyCode::Insert,
        HostCode::Esc => KeyCode::Escape,
        HostCode::Left => KeyCode::Left,
        HostCode::Right => KeyCode::Right,
        HostCode::Up => KeyCode::Up,
        HostCode::Down => KeyCode::Down,
        HostCode::Home => KeyCode::Home,
        HostCode::End => KeyCode::End,
        HostCode::PageUp => KeyCode::PageUp,
        HostCode::PageDown => KeyCode::PageDown,
        HostCode::F(n) => KeyCode::F(n),
        // Ctrl+Space and Ctrl+@ both arrive as NUL.
        HostCode::Null => {
            return Some(KeyPress::new(KeyCode::Char(' '), mods | Mods::CTRL));
        },
        HostCode::Other => {
            return None;
        },
    };
    Some(KeyPress::new(code, mods).normalized())
}

/// The event a host event means.
pub fn from_host_event(e: HostEvent) -> (r: Option<Event>)
    ensures
        match r {
            Some(ev) => host_event_spec(e) == Some(ev@),
            None => host_event_spec(e) is None,
        },
{
    match e {
        // A terminal with the kitty protocol on reports releases and
        // repeats too; only a press is input.
        HostEvent::Key(k) => {
            if k.kind == KeyKind::Release {
                return None;
            }
            match from_host_key(k) {
                Some(key) => Some(Event::Key(key)),
                None => None,
            }
        },
        HostEvent::Resize(cols, rows) => Some(Event::Resize(Size::new(cols, rows))),
        HostEvent::Other => None,
    }
}

/// A host key event becomes the key of the same name with the same
/// modifiers held; a function key keeps its number; Shift+Tab is Tab with
/// Shift, and NUL is Ctrl+Space.
pub proof fn law_host_keys_keep_their_names(k: HostKey)
    ensures
        k.code == HostCode::Enter ==> host_key_spec(k) == Some(KeyPress { code: KeyCode::Enter, mods: mods_of(k.shift, k.alt, k.ctrl) }),
        k.code == HostCode::Tab ==> host_key_spec(k) == Some(KeyPress { code: KeyCode::Tab, mods: mods_of(k.shift, k.alt, k.ctrl) }),
        k.code == HostCode::Backspace ==> host_key_spec(k) == Some(KeyPress { code: KeyCode::Backspace, mods: mods_of(k.shift, k.alt, k.ctrl) }),
        k.code == HostCode::Delete ==> host_key_spec(k) == Some(KeyPress { code: KeyCode::Delete, mods: mods_of(k.shift, k.alt, k.ctrl) }),
        k.code == HostCode::Insert ==> host_key_spec(k) == Some(KeyPress { code: KeyCode::Insert, mods: mods_of(k.shift, k.alt, k.ctrl) }),
        k.code == HostCode::Esc ==> host_key_spec(k) == Some(KeyPress { code: KeyCode::Escape, mods: mods_of(k.shift, k.alt, k.ctrl) }),
        k.code == HostCode::Left ==> host_key_spec(k) == Some(KeyPress { code: KeyCode::Left, mods: mods_of(k.shift, k.alt, k.ctrl) }),
        k.code == HostCode::Right ==> host_key_spec(k) == Some(KeyPress { code: KeyCode::Right, mods: mods_of(k.shift, k.alt, k.ctrl) }),
        k.code == HostCode::Up ==> host_key_spec(k) == Some(KeyPress { code: KeyCode::Up, mods: mods_of(k.shift, k.alt, k.ctrl) }),
        k.code == HostCode::Down ==> host_key_spec(k) == Some(KeyPress { code: KeyCode::Down, mods: mods_of(k.shift, k.alt, k.ctrl) }),
        k.code == HostCode::Home ==> host_key_spec(k) == Some(KeyPress { code: KeyCode::Home, mods: mods_of(k.shift, k.alt, k.ctrl) }),
        k.code == HostCode::End ==> host_key_spec(k) == Some(KeyPress { code: KeyCode::End, mods: mods_of(k.shift, k.alt, k.ctrl) }),
        k.code == HostCode::PageUp ==> host_key_spec(k) == Some(KeyPress { code: KeyCode::PageUp, mods: mods_of(k.shift, k.alt, k.ctrl) }),
        k.code == HostCode::PageDown ==> host_key_spec(k) == Some(KeyPress { code: KeyCode::PageDown, mods: mods_of(k.shift, k.alt, k.ctrl) }),
        k.code matches HostCode::F(n) ==> host_key_spec(k) == Some(KeyPress { code: KeyCode::F(n), mods: mods_of(k.shift, k.alt, k.ctrl) }),
        k.code == HostCode::BackTab ==> host_key_spec(k) == Some(KeyPress { code: KeyCode::Tab, mods: mods_of(true, k.alt, k.ctrl) }),
        k.code == HostCode::Null ==> host_key_spec(k) == Some(KeyPress { code: KeyCode::Char(' '), mods: mods_of(k.shift, k.alt, true) }),
{
}

} // verus!
