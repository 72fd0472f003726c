//! The demo prompt: its commands and its highlighter.

use ego_cli::demo::{commands, dispatch, CommandHighlighter};
use ego_cli::extend::Highlighter;
use ego_cli::style::{self, Color};
use ego_cli::{Capabilities, Size};

fn caps() -> Capabilities {
    Capabilities { raw_mode: true, ansi: true, resize_events: false, line_discipline: true }
}

fn run(line: &str, history: &[&str]) -> (Option<String>, bool) {
    let history: Vec<String> = history.iter().map(|s| s.to_string()).collect();
    let outcome = dispatch(line, &history, caps(), Size::new(80, 24));
    (outcome.output, outcome.quit)
}

#[test]
fn the_demo_knows_five_commands() {
    assert_eq!(commands(), vec!["caps", "echo", "exit", "help", "history"]);
}

#[test]
fn echo_prints_the_rest_of_the_line() {
    assert_eq!(run("  echo   hi there  ", &[]), (Some("hi there\n".to_string()), false));
    assert_eq!(run("echo", &[]), (Some("\n".to_string()), false));
}

#[test]
fn exit_and_blank_lines() {
    assert_eq!(run("exit", &[]), (None, true));
    assert_eq!(run("   ", &[]), (None, false));
}

#[test]
fn help_lists_the_commands() {
    assert_eq!(run("help", &[]), (Some("commands: caps, echo, exit, help, history\n".to_string()), false));
}

#[test]
fn history_numbers_the_entries() {
    assert_eq!(
        run("history", &["ls", "cd /"]),
        (Some("   1  ls\n   2  cd /\n".to_string()), false)
    );
}

#[test]
fn caps_reports_the_terminal() {
    assert_eq!(
        run("caps", &[]),
        (Some("raw mode: true\nansi: true\nresize events: false\nsize: 80x24\n".to_string()), false)
    );
}

#[test]
fn an_unknown_command_is_named() {
    assert_eq!(run("frob x", &[]), (Some("unknown command: frob\n".to_string()), false));
}

#[test]
fn the_command_word_is_painted() {
    let h = CommandHighlighter;
    let known = format!("  {}echo{} hi", style::fg(Color::Green), style::fg(Color::Default));
    assert_eq!(h.highlight("  echo hi"), known);
    let unknown = format!("{}frob{}", style::fg(Color::Red), style::fg(Color::Default));
    assert_eq!(h.highlight("frob"), unknown);
    assert_eq!(h.highlight("   "), "   ");
    assert_eq!(style::strip(&h.highlight("  echo hi")), "  echo hi");
}
