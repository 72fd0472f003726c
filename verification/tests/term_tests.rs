//! The in-memory terminal and the mapping of host key events.

use ego_cli::key::{KeyCode, KeyPress, Mods};
use ego_cli::term::keys::{from_host_event, from_host_key, HostCode, HostEvent, HostKey, KeyKind};
use ego_cli::term::mem::MemTerminal;
use ego_cli::term::xterm::XtermInput;
use ego_cli::{Event, Size, Terminal};

fn host(code: HostCode, ctrl: bool, alt: bool, shift: bool) -> HostKey {
    HostKey { code, ctrl, alt, shift, kind: KeyKind::Press }
}

#[test]
fn host_keys_map_with_their_modifiers() {
    assert_eq!(from_host_key(host(HostCode::Char('a'), false, false, false)), Some(KeyPress::char('a')));
    assert_eq!(from_host_key(host(HostCode::Char('W'), true, false, true)), Some(KeyPress::ctrl('w')));
    assert_eq!(
        from_host_key(host(HostCode::Left, true, false, false)),
        Some(KeyPress::new(KeyCode::Left, Mods::CTRL))
    );
    assert_eq!(
        from_host_key(host(HostCode::BackTab, false, false, false)),
        Some(KeyPress::new(KeyCode::Tab, Mods::SHIFT))
    );
    assert_eq!(
        from_host_key(host(HostCode::Null, false, false, false)),
        Some(KeyPress::new(KeyCode::Char(' '), Mods::CTRL))
    );
    assert_eq!(from_host_key(host(HostCode::Esc, false, false, false)), Some(KeyPress::plain(KeyCode::Escape)));
    assert_eq!(from_host_key(host(HostCode::Other, false, false, false)), None);
}

#[test]
fn releases_and_foreign_events_are_not_input() {
    let mut released = host(HostCode::Char('a'), false, false, false);
    released.kind = KeyKind::Release;
    assert_eq!(from_host_event(HostEvent::Key(released)), None);
    let mut repeated = released;
    repeated.kind = KeyKind::Repeat;
    assert_eq!(from_host_event(HostEvent::Key(repeated)), Some(Event::Key(KeyPress::char('a'))));
    assert_eq!(from_host_event(HostEvent::Resize(100, 30)), Some(Event::Resize(Size::new(100, 30))));
    assert_eq!(from_host_event(HostEvent::Other), None);
}

#[test]
fn a_scripted_terminal_plays_back_its_events() {
    let mut term = MemTerminal::raw(Size::new(80, 24));
    term.push_input("a\x1b[D");
    term.push_line("whole");
    term.push_resize(Size::new(40, 10));
    term.push_eof();
    assert_eq!(term.size(), Size::new(40, 10));
    assert_eq!(term.next_event(), Event::Key(KeyPress::char('a')));
    assert_eq!(term.next_event(), Event::Key(KeyPress::plain(KeyCode::Left)));
    assert_eq!(term.next_event(), Event::Line("whole".into()));
    assert_eq!(term.next_event(), Event::Resize(Size::new(40, 10)));
    assert_eq!(term.next_event(), Event::Eof);
    assert_eq!(term.next_event(), Event::Eof, "an empty script is end of input");
}

#[test]
fn a_scripted_terminal_records_what_is_written() {
    let mut term = MemTerminal::cooked(Size::default());
    term.write("one ");
    term.write("two");
    assert_eq!(term.output(), "one two");
    assert_eq!(term.take_output(), "one two");
    assert_eq!(term.output(), "");
    assert!(term.set_raw(true).is_ok());
    assert!(term.set_raw(false).is_ok());
    assert_eq!(term.raw_calls(), [true, false]);
    assert!(!term.is_raw());
    assert!(!term.capabilities().raw_mode);
}

#[test]
fn a_browser_terminal_reports_a_resize_before_any_key() {
    let mut input = XtermInput::new(Size::new(80, 24));
    assert_eq!(input.poll(Size::new(80, 24)), None);
    input.feed("a\x1b[");
    input.feed("D");
    assert_eq!(input.poll(Size::new(100, 30)), Some(Event::Resize(Size::new(100, 30))));
    assert_eq!(input.size(), Size::new(100, 30));
    assert_eq!(input.poll(Size::new(100, 30)), Some(Event::Key(KeyPress::char('a'))));
    assert_eq!(input.poll(Size::new(100, 30)), Some(Event::Key(KeyPress::plain(KeyCode::Left))));
    assert_eq!(input.poll(Size::new(100, 30)), None);
}
