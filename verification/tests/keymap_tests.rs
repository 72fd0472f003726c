//! Keymap lookups: the default table, rebinding, and normalisation.

use ego_cli::extend::{Completer, Completion, WordCompleter};
use ego_cli::key::{KeyCode, KeyPress, Mods};
use ego_cli::keymap::{Action, Keymap};

#[test]
fn the_default_table_follows_readline() {
    let keymap = Keymap::new();
    assert_eq!(keymap.lookup(KeyPress::plain(KeyCode::Enter)), Action::Accept);
    assert_eq!(keymap.lookup(KeyPress::ctrl('w')), Action::DeleteWordBack);
    assert_eq!(keymap.lookup(KeyPress::alt('b')), Action::MoveWordLeft);
    assert_eq!(keymap.lookup(KeyPress::ctrl('d')), Action::Eof);
    assert_eq!(keymap.lookup(KeyPress::char('x')), Action::Insert('x'));
    assert_eq!(keymap.lookup(KeyPress::alt('x')), Action::Ignore);
    assert_eq!(keymap.lookup(KeyPress::plain(KeyCode::F(5))), Action::Ignore);
}

#[test]
fn a_binding_is_found_however_it_was_spelled() {
    let mut keymap = Keymap::empty();
    keymap.bind(KeyPress::new(KeyCode::Char('X'), Mods::CTRL | Mods::SHIFT), Action::Undo);
    assert_eq!(keymap.lookup(KeyPress::ctrl('x')), Action::Undo);
    assert_eq!(keymap.lookup(KeyPress::new(KeyCode::Char('X'), Mods::CTRL)), Action::Undo);
    assert_eq!(keymap.bindings().len(), 1);
}

#[test]
fn rebinding_replaces_and_unbinding_falls_back() {
    let mut keymap = Keymap::new();
    keymap.bind(KeyPress::plain(KeyCode::Enter), Action::Complete);
    assert_eq!(keymap.lookup(KeyPress::plain(KeyCode::Enter)), Action::Complete);
    keymap.unbind(KeyPress::ctrl('a'));
    assert_eq!(keymap.lookup(KeyPress::ctrl('a')), Action::Ignore);
    keymap.bind(KeyPress::char('q'), Action::Accept);
    keymap.unbind(KeyPress::char('q'));
    assert_eq!(keymap.lookup(KeyPress::char('q')), Action::Insert('q'));
}

#[test]
fn candidates_all_begin_with_the_token() {
    let completer = WordCompleter::new(&["echo", "exit", "status", "ex"]);
    let completion = completer.complete("sudo ex", 7);
    assert_eq!((completion.start, completion.end), (5, 7));
    assert_eq!(completion.candidates, vec!["exit".to_string(), "ex".to_string()]);
    assert_eq!(completion.common_prefix(), "ex");
}

#[test]
fn the_token_ends_at_the_cursor() {
    let completer = WordCompleter::new(&["echo"]);
    let completion = completer.complete("ec zz", 2);
    assert_eq!((completion.start, completion.end), (0, 2));
    assert_eq!(completion.candidates, vec!["echo".to_string()]);
    let past = completer.complete("ec", 99);
    assert_eq!((past.start, past.end), (0, 2));
}

#[test]
fn the_common_prefix_stops_at_the_first_difference() {
    let completion = Completion::new(0..1, vec!["héllo".into(), "hélp".into(), "hé".into()]);
    assert_eq!(completion.common_prefix(), "hé");
    assert_eq!(Completion::none().common_prefix(), "");
    assert!(Completion::none().is_empty());
    assert_eq!(Completion::new(3..5, vec![]).range(), 3..5);
}

#[test]
fn an_unbound_control_character_is_ignored() {
    let map = Keymap::empty();
    assert_eq!(map.lookup(KeyPress::new(KeyCode::Char('\u{7}'), Mods::NONE)), Action::Ignore);
    assert_eq!(map.lookup(KeyPress::new(KeyCode::Char('\u{9b}'), Mods::NONE)), Action::Ignore);
    assert_eq!(map.lookup(KeyPress::new(KeyCode::Char('é'), Mods::NONE)), Action::Insert('é'));
}
