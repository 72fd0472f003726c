//! Concrete instances of what the library promises of all inputs.

use ego_cli::session::{columnize, printed_text, to_crlf};
use ego_cli::term::mem::MemTerminal;
use ego_cli::decode::AnsiDecoder;
use ego_cli::style::{self, Color};
use ego_cli::{Action, Completer, EditOutcome, KeyPress, LineEditor, Session, Size, Terminal, WordCompleter};

#[test]
fn printing_converts_lone_newlines_once() {
    assert_eq!(to_crlf("a\nb\r\nc\r\r\n"), "a\r\nb\r\nc\r\r\n");
    let once = printed_text("x\ny\n", false);
    assert_eq!(printed_text(&once, false), once);
    assert_eq!(printed_text("x\ny\n", true), "x\ny\n");
}

#[test]
fn print_on_a_terminal_without_line_discipline() {
    let mut session = Session::new(MemTerminal::raw(Size::new(80, 24)));
    session.print("hello\nworld\n").unwrap();
    assert_eq!(session.terminal().output(), "hello\r\nworld\r\n");
}

#[test]
fn print_on_a_terminal_with_line_discipline() {
    let mut session = Session::new(MemTerminal::cooked(Size::new(80, 24)));
    session.print("hello\n").unwrap();
    assert_eq!(session.terminal().output(), "hello\n");
}

#[test]
fn a_listing_fills_rows_then_wraps() {
    let items: Vec<String> = ["a", "bb", "ccc"].iter().map(|s| s.to_string()).collect();
    // Widest is 3, so columns are 5 wide and 12 columns fit 2 per row.
    assert_eq!(columnize(&items, 12, 200), "a    bb\r\nccc\r\n");
    assert_eq!(columnize(&items, 80, 200), "a    bb   ccc\r\n");
}

#[test]
fn a_long_listing_is_summarised() {
    let items: Vec<String> = ["a", "b", "c", "d"].iter().map(|s| s.to_string()).collect();
    assert_eq!(columnize(&items, 80, 2), "a  b\r\n... and 2 more\r\n");
    assert_eq!(columnize(&items, 80, 0), "a\r\n... and 3 more\r\n");
    assert_eq!(columnize(&[], 80, 5), "");
}

#[test]
fn plain_text_is_typed_char_by_char() {
    for text in ["hi!", "h\u{e9}llo\u{2192}"] {
        let keys = AnsiDecoder::new().push(text);
        let expected: Vec<KeyPress> = text.chars().map(KeyPress::char).collect();
        assert_eq!(keys, expected);
    }
}

#[test]
fn stripping_twice_is_stripping_once() {
    let painted = style::paint("ok", Color::Green);
    let once = style::strip(&painted);
    assert_eq!(once, "ok");
    assert_eq!(style::strip(&once), once);
    assert_eq!(style::strip(style::fg(Color::Red)), "");
}

#[test]
fn replace_range_works_in_bytes() {
    let mut e = LineEditor::new();
    for c in "ech".chars() {
        e.apply(Action::Insert(c));
    }
    e.replace_range(0..3, "echo");
    assert_eq!(e.buffer(), "echo");
    assert_eq!(e.cursor(), 4);
    e.replace_range(2..900, "!");
    assert_eq!(e.buffer(), "ec!");
    assert_eq!(e.cursor(), 3);
}

#[test]
fn the_completion_range_is_in_bytes() {
    let c = WordCompleter::new(&["echo"]);
    let r = c.complete("echo ec", 7);
    assert_eq!((r.start, r.end), (5, 7));
    assert_eq!(r.candidates, vec!["echo".to_string()]);
}

#[test]
fn a_zero_undo_limit_disables_undo() {
    let mut e = LineEditor::new();
    e.set_undo_limit(0);
    e.apply(Action::Insert('a'));
    assert_eq!(e.apply(Action::Undo), EditOutcome::Ignored);
    assert_eq!(e.buffer(), "a");
}

#[test]
fn undo_reaches_back_no_further_than_the_limit() {
    let mut e = LineEditor::new();
    e.set_undo_limit(2);
    for c in "a b c d".chars() {
        e.apply(Action::Insert(c));
    }
    let mut undone = 0;
    while e.apply(Action::Undo) == EditOutcome::Continue {
        undone += 1;
    }
    assert!(undone <= 2, "{undone}");
}

#[test]
fn motion_is_by_grapheme_cluster() {
    let mut e = LineEditor::new();
    for c in "e\u{301}x".chars() {
        e.apply(Action::Insert(c));
    }
    e.apply(Action::MoveLeft);
    assert_eq!(&e.buffer()[e.cursor()..], "x");
    e.apply(Action::MoveLeft);
    assert_eq!(e.cursor(), 0);
    assert!(e.buffer().is_char_boundary(e.cursor()));
}

#[test]
fn every_set_raw_call_is_recorded_in_order() {
    let mut t = MemTerminal::cooked(Size::new(80, 24));
    t.set_raw(true).unwrap();
    t.set_raw(false).unwrap();
    t.set_raw(true).unwrap();
    assert_eq!(t.raw_calls(), &[true, false, true]);
    assert!(t.is_raw());
}

#[test]
fn set_line_is_one_undo_step() {
    let mut e = LineEditor::new();
    for c in "ab".chars() {
        e.apply(Action::Insert(c));
    }
    e.apply(Action::MoveLeft);
    e.set_line("echo hi");
    assert_eq!(e.buffer(), "echo hi");
    assert_eq!(e.cursor(), 7);
    assert_eq!(e.apply(Action::Undo), EditOutcome::Continue);
    assert_eq!(e.buffer(), "ab");
    assert_eq!(e.cursor(), 1);
}

#[test]
fn a_walk_visits_matches_newest_first_then_nothing() {
    let mut h = ego_cli::History::new();
    for line in ["git status", "cargo test", "git commit"] {
        h.push(line);
    }
    assert_eq!(h.older("git ", 4), Some("git commit".to_string()));
    assert_eq!(h.older("git ", 4), Some("git status".to_string()));
    assert_eq!(h.older("git ", 4), None);
    assert_eq!(h.older("git ", 4), None);
}

#[test]
fn print_text_follows_the_line_discipline() {
    let raw = Session::new(MemTerminal::raw(Size::new(80, 24)));
    assert_eq!(raw.print_text("a\nb"), "a\r\nb");
    let cooked = Session::new(MemTerminal::cooked(Size::new(80, 24)));
    assert_eq!(cooked.print_text("a\nb"), "a\nb");
}
