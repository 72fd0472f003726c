//! Whole sessions, driven through the in-memory terminal: decoder, keymap,
//! editor, renderer and completion together.
//!
//! Input is written the way a terminal actually sends it, so these are also
//! the end-to-end test of the escape decoding.

use ego_cli::extend::{Highlighter, WordCompleter};
use ego_cli::key::KeyPress;
use ego_cli::keymap::Action;
use ego_cli::style::{self, Color};
use ego_cli::term::mem::MemTerminal;
use ego_cli::{ReadOutcome, Session, Size};

use std::borrow::Cow;

fn session(input: &str) -> Session<MemTerminal> {
    let mut term = MemTerminal::raw(Size::new(80, 24));
    term.push_input(input);
    Session::new(term)
}

fn read(input: &str) -> ReadOutcome {
    session(input).read_line().unwrap()
}

#[test]
fn a_typed_line_comes_back() {
    assert_eq!(read("hello\r"), ReadOutcome::Line("hello".into()));
}

#[test]
fn the_prompt_and_the_line_are_drawn() {
    let mut session = session("hi\r");
    session.set_prompt("$ ");
    session.read_line().unwrap();
    let output = session.terminal().output();
    assert!(output.contains("$ "), "{output:?}");
    assert!(output.contains("hi"), "{output:?}");
}

#[test]
fn arrows_edit_the_line_before_it_is_accepted() {
    // "ac", Left, "b" -> "abc"
    assert_eq!(read("ac\x1b[Db\r"), ReadOutcome::Line("abc".into()));
}

#[test]
fn ctrl_arrows_move_by_word() {
    // "one two", Ctrl+Left, "X" -> "one Xtwo"
    assert_eq!(
        read("one two\x1b[1;5DX\r"),
        ReadOutcome::Line("one Xtwo".into())
    );
}

#[test]
fn home_and_end_reach_the_ends() {
    assert_eq!(
        read("bc\x1b[Ha\x1b[Fd\r"),
        ReadOutcome::Line("abcd".into())
    );
}

#[test]
fn ctrl_w_takes_the_previous_word() {
    assert_eq!(
        read("hello world\x17\r"),
        ReadOutcome::Line("hello ".into())
    );
}

#[test]
fn ctrl_u_and_ctrl_k_kill_to_the_ends() {
    assert_eq!(
        read("junk\x15kept\r"),
        ReadOutcome::Line("kept".into())
    );
    // "keep this", Home, Ctrl+K
    assert_eq!(
        read("keep this\x1b[H\x0b\r"),
        ReadOutcome::Line("".into())
    );
}

#[test]
fn ctrl_z_undoes_and_ctrl_y_redoes() {
    assert_eq!(
        read("keep drop\x1a\r"),
        ReadOutcome::Line("keep ".into())
    );
    assert_eq!(
        read("keep drop\x1a\x19\r"),
        ReadOutcome::Line("keep drop".into())
    );
}

/// A terminal sends a bare Escape as its own write; `ESC` immediately
/// followed by a character is Alt+that-character, and the decoder is right
/// to read it that way. So this scripts two chunks, as a terminal would.
#[test]
fn escape_clears_the_line() {
    let mut term = MemTerminal::raw(Size::new(80, 24));
    term.push_input("wrong");
    term.push_input("\x1b");
    term.push_input("right\r");
    let mut session = Session::new(term);
    assert_eq!(
        session.read_line().unwrap(),
        ReadOutcome::Line("right".into())
    );
}

#[test]
fn alt_b_and_alt_f_move_by_word() {
    // "one two", Alt+b, "X" -> "one Xtwo"
    assert_eq!(
        read("one two\x1bbX\r"),
        ReadOutcome::Line("one Xtwo".into())
    );
}

#[test]
fn history_is_recalled_across_reads() {
    let mut session = session("first\rsecond\r\x1b[A\x1b[A\r");
    assert_eq!(
        session.read_line().unwrap(),
        ReadOutcome::Line("first".into())
    );
    assert_eq!(
        session.read_line().unwrap(),
        ReadOutcome::Line("second".into())
    );
    assert_eq!(
        session.read_line().unwrap(),
        ReadOutcome::Line("first".into()),
        "two Ups reach the older entry"
    );
}

#[test]
fn ctrl_c_abandons_the_line_but_not_the_session() {
    let mut session = session("throw away\x03next\r");
    assert_eq!(session.read_line().unwrap(), ReadOutcome::Interrupted);
    assert!(session.terminal().output().contains("^C"));
    assert_eq!(
        session.read_line().unwrap(),
        ReadOutcome::Line("next".into())
    );
    assert!(
        session.history().entries() == ["next"],
        "an interrupted line is not remembered"
    );
}

#[test]
fn ctrl_d_ends_input_only_on_an_empty_line() {
    assert_eq!(read("\x04"), ReadOutcome::Eof);
    // Mid-line it is a forward delete: "abc", Home, Ctrl+D
    assert_eq!(
        read("abc\x1b[H\x04\r"),
        ReadOutcome::Line("bc".into())
    );
}

#[test]
fn a_closed_terminal_is_end_of_input() {
    assert_eq!(read("half typed"), ReadOutcome::Eof);
}

// --- raw mode ---

#[test]
fn raw_mode_is_entered_and_always_restored() {
    let mut session = session("hi\r");
    session.read_line().unwrap();
    assert_eq!(session.terminal().raw_calls(), [true, false]);
    assert!(!session.terminal().is_raw());
}

// --- completion ---

#[test]
fn tab_completes_a_single_candidate() {
    let mut session = session("ec\t\r");
    session.set_completer(WordCompleter::new(&["echo", "exit", "status"]));
    assert_eq!(
        session.read_line().unwrap(),
        ReadOutcome::Line("echo".into())
    );
}

#[test]
fn tab_inserts_as_much_as_the_candidates_agree_on() {
    let mut session = session("e\t\r");
    session.set_completer(WordCompleter::new(&["echoes", "echo"]));
    assert_eq!(
        session.read_line().unwrap(),
        ReadOutcome::Line("echo".into())
    );
}

#[test]
fn an_ambiguous_tab_lists_the_choices() {
    let mut session = session("e\t\r");
    session.set_completer(WordCompleter::new(&["echo", "exit"]));
    session.read_line().unwrap();

    let output = session.terminal().output();
    assert!(output.contains("echo"), "{output:?}");
    assert!(output.contains("exit"), "{output:?}");
}

#[test]
fn tab_with_nothing_to_offer_leaves_the_line_alone() {
    let mut session = session("zz\t\r");
    session.set_completer(WordCompleter::new(&["echo"]));
    assert_eq!(
        session.read_line().unwrap(),
        ReadOutcome::Line("zz".into())
    );
}

#[test]
fn completion_applies_to_the_token_under_the_cursor() {
    let mut session = session("echo ec\t\r");
    session.set_completer(WordCompleter::new(&["echo"]));
    assert_eq!(
        session.read_line().unwrap(),
        ReadOutcome::Line("echo echo".into())
    );
}

// --- highlighting ---

struct Green;

impl Highlighter for Green {
    fn highlight<'l>(&self, line: &'l str) -> Cow<'l, str> {
        Cow::Owned(style::paint(line, Color::Green))
    }
}

#[test]
fn a_highlighter_colours_the_line_without_changing_it() {
    let mut session = session("hi\r");
    session.set_highlighter(Green);
    assert_eq!(
        session.read_line().unwrap(),
        ReadOutcome::Line("hi".into()),
        "the line the host gets is the plain one"
    );
    assert!(
        session
            .terminal()
            .output()
            .contains(style::fg(Color::Green))
    );
}

// --- resize ---

#[test]
fn a_resize_is_taken_up_mid_line() {
    let mut term = MemTerminal::raw(Size::new(80, 24));
    term.push_input("hi");
    term.push_resize(Size::new(40, 10));
    term.push_input("\r");
    let mut session = Session::new(term);

    assert_eq!(
        session.read_line().unwrap(),
        ReadOutcome::Line("hi".into())
    );
}

// --- the line-at-a-time platform ---

fn cooked_session(lines: &[&str]) -> Session<MemTerminal> {
    let mut term = MemTerminal::cooked(Size::default());
    for line in lines {
        term.push_line(line);
    }
    Session::new(term)
}

#[test]
fn a_line_at_a_time_terminal_still_reads_lines() {
    let mut session = cooked_session(&["one", "two"]);
    assert_eq!(
        session.read_line().unwrap(),
        ReadOutcome::Line("one".into())
    );
    assert_eq!(
        session.read_line().unwrap(),
        ReadOutcome::Line("two".into())
    );
    assert_eq!(session.read_line().unwrap(), ReadOutcome::Eof);
}

#[test]
fn a_line_at_a_time_terminal_still_records_history() {
    let mut session = cooked_session(&["one", "two"]);
    session.read_line().unwrap();
    session.read_line().unwrap();
    assert_eq!(
        session.history().entries(),
        ["one", "two"]
    );
}

#[test]
fn a_line_at_a_time_terminal_writes_a_plain_prompt() {
    let mut session = cooked_session(&["one"]);
    session.set_prompt(&style::paint("$ ", Color::Green));
    session.read_line().unwrap();

    let output = session.terminal().output();
    assert_eq!(output, "$ ", "no escapes where none are understood");
}

#[test]
fn a_line_at_a_time_terminal_never_goes_raw() {
    let mut session = cooked_session(&["one"]);
    session.read_line().unwrap();
    assert!(!session.terminal().is_raw());
}

// --- settings a read obeys ---

#[test]
fn the_completion_list_is_cut_at_the_limit() {
    let mut session = session("e\t\r");
    session.set_completer(WordCompleter::new(&["echo", "exit"]));
    session.set_completion_list_limit(1);
    assert_eq!(session.read_line().unwrap(), ReadOutcome::Line("e".into()));
    let output = session.terminal().output();
    assert!(output.contains("echo\r\n... and 1 more\r\n"), "{output:?}");
    assert!(!output.contains("exit"), "{output:?}");
}

#[test]
fn a_rebinding_changes_the_line_read() {
    let mut session = session("bc\x14a\r");
    session.keymap_mut().bind(KeyPress::ctrl('t'), Action::MoveStart);
    assert_eq!(session.read_line().unwrap(), ReadOutcome::Line("abc".into()));
}

#[test]
fn an_unbound_ctrl_key_is_ignored() {
    assert_eq!(read("bc\x14a\r"), ReadOutcome::Line("bca".into()));
}

#[test]
fn a_highlighter_leaves_outcome_and_history_alone() {
    let mut plain = session("hi\r");
    let mut green = session("hi\r");
    green.set_highlighter(Green);
    assert_eq!(plain.read_line().unwrap(), green.read_line().unwrap());
    assert_eq!(plain.history().entries(), green.history().entries());
}
