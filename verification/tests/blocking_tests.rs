//! The runtime-free native backend, and sessions that run to completion
//! with nothing to wait on.

use ego_cli::term::blocking::{reported_size, BlockingNative};
use ego_cli::term::mem::MemTerminal;
use ego_cli::{ReadOutcome, Session, Size, Terminal};

#[test]
fn a_session_completes_under_a_plain_executor() {
    let mut term = MemTerminal::raw(Size::new(80, 24));
    term.push_input("hello\r");
    let mut session = Session::new(term);

    let outcome = session.read_line().unwrap();
    assert_eq!(outcome, ReadOutcome::Line("hello".into()));
}

#[test]
fn several_lines_in_a_row_under_a_plain_executor() {
    let mut term = MemTerminal::raw(Size::new(80, 24));
    term.push_input("one\rtwo\r");
    let mut session = Session::new(term);

    assert_eq!(session.read_line().unwrap(), ReadOutcome::Line("one".into()));
    assert_eq!(session.read_line().unwrap(), ReadOutcome::Line("two".into()));
    assert_eq!(session.read_line().unwrap(), ReadOutcome::Eof);
}

#[test]
fn the_blocking_backend_reports_consistent_capabilities() {
    let term = BlockingNative::new().expect("open terminal");
    let capabilities = term.capabilities();
    // Raw mode and ANSI both follow from having a tty, so they agree.
    assert_eq!(capabilities.raw_mode, term.is_raw_capable());
    assert_eq!(capabilities.ansi, term.is_raw_capable());
    assert!(capabilities.line_discipline);
    assert!(term.size().cols > 0);
}

#[test]
fn a_terminal_that_declines_to_give_its_size_gets_the_default() {
    assert_eq!(reported_size(Some((120, 40))), Size::new(120, 40));
    assert_eq!(reported_size(Some((0, 40))), Size::new(80, 24));
    assert_eq!(reported_size(Some((120, 0))), Size::new(80, 24));
    assert_eq!(reported_size(None), Size::new(80, 24));
}

#[test]
fn a_backend_without_a_tty_never_goes_raw() {
    let mut term = BlockingNative::with_tty(false);
    assert!(term.set_raw(true).is_ok());
    assert!(!term.is_raw());
    let capabilities = term.capabilities();
    assert!(!capabilities.raw_mode);
    assert!(!capabilities.ansi);
    assert!(!capabilities.resize_events);
}
