//! The shell's pieces: key normalisation, command parsing, the processor,
//! the full-screen state and the choice of front end.

use ego_cli::shell::command::{parse_command, parse_screen_command, Command, Response, StatusInfo};
use ego_cli::shell::editor::{EditorAction, LineEditor};
use ego_cli::shell::mode::{parse_mode, ShellMode};
use ego_cli::shell::normalize::{BrowserNormalizer, CrosstermNormalizer, InputNormalizer, NormalizedKey};
use ego_cli::shell::processor::Processor;
use ego_cli::shell::tui::{scroll_offset, TuiState};
use ego_cli::term::keys::{HostCode, HostKey, KeyKind};

fn browser(chunks: &[&str]) -> Vec<NormalizedKey> {
    let mut normalizer = BrowserNormalizer::new();
    for chunk in chunks {
        normalizer.feed(chunk.to_string());
    }
    normalizer.normalize()
}

fn key(code: HostCode, ctrl: bool, alt: bool) -> HostKey {
    HostKey { code, ctrl, alt, shift: false, kind: KeyKind::Press }
}

#[test]
fn browser_characters_and_enter() {
    assert_eq!(
        browser(&["hi"]),
        vec![NormalizedKey::Char('h'), NormalizedKey::Char('i')]
    );
    assert_eq!(browser(&["\r"]), vec![NormalizedKey::Enter]);
    assert_eq!(browser(&["\n"]), vec![NormalizedKey::Enter]);
}

#[test]
fn browser_arrows_in_both_modes() {
    assert_eq!(browser(&["\x1b[D"]), vec![NormalizedKey::Left]);
    assert_eq!(browser(&["\x1bOC"]), vec![NormalizedKey::Right]);
    assert_eq!(browser(&["\x1b[A"]), vec![NormalizedKey::Up]);
    assert_eq!(browser(&["\x1bOB"]), vec![NormalizedKey::Down]);
}

#[test]
fn browser_home_end_and_deletes() {
    assert_eq!(browser(&["\x1b[1~"]), vec![NormalizedKey::Home]);
    assert_eq!(browser(&["\x1bOF"]), vec![NormalizedKey::End]);
    assert_eq!(browser(&["\x1b[3~"]), vec![NormalizedKey::Delete]);
    assert_eq!(browser(&["\x7f"]), vec![NormalizedKey::Backspace]);
    assert_eq!(browser(&["\x1b[3;5~"]), vec![NormalizedKey::CtrlDelete]);
    assert_eq!(browser(&["\x1b[3^"]), vec![NormalizedKey::CtrlDelete]);
}

#[test]
fn browser_word_keys_and_signals() {
    assert_eq!(browser(&["\x1b[1;5D"]), vec![NormalizedKey::CtrlLeft]);
    assert_eq!(browser(&["\x1b[5C"]), vec![NormalizedKey::CtrlRight]);
    assert_eq!(browser(&["\x17"]), vec![NormalizedKey::CtrlBackspace]);
    assert_eq!(browser(&["\x1b\x7f"]), vec![NormalizedKey::CtrlBackspace]);
    assert_eq!(browser(&["\x08"]), vec![NormalizedKey::CtrlBackspace]);
    assert_eq!(browser(&["\x1a"]), vec![NormalizedKey::Undo]);
    assert_eq!(browser(&["\x19"]), vec![NormalizedKey::Redo]);
    assert_eq!(browser(&["\x03"]), vec![NormalizedKey::CtrlC]);
}

#[test]
fn browser_input_split_over_chunks_is_joined() {
    assert_eq!(
        browser(&["ls", "\x1b[D", "a"]),
        vec![
            NormalizedKey::Char('l'),
            NormalizedKey::Char('s'),
            NormalizedKey::Left,
            NormalizedKey::Char('a')
        ]
    );
    assert_eq!(browser(&[]), vec![]);
}

#[test]
fn browser_control_characters_without_a_key_are_dropped() {
    let keys = browser(&["\x01\x02hello\x04"]);
    assert_eq!(keys.len(), 5);
    assert_eq!(keys[0], NormalizedKey::Char('h'));
    assert_eq!(keys[4], NormalizedKey::Char('o'));
}

#[test]
fn browser_sequences_are_rewritten_in_order() {
    let normalizer = BrowserNormalizer::new();
    assert_eq!(normalizer.parse_sequences("a\x1b[Db"), "a\u{E000}b");
    assert_eq!(normalizer.map_char('\u{E041}'), Some(NormalizedKey::Down));
    assert_eq!(normalizer.map_char('\u{85}'), None);
    assert_eq!(normalizer.map_char('é'), Some(NormalizedKey::Char('é')));
}

#[test]
fn native_keys_map_control_first() {
    let mut normalizer = CrosstermNormalizer::new();
    normalizer.feed(key(HostCode::Char('c'), true, false));
    normalizer.feed(key(HostCode::Left, true, false));
    normalizer.feed(key(HostCode::Left, false, false));
    normalizer.feed(key(HostCode::Char('w'), true, false));
    normalizer.feed(key(HostCode::Char('d'), false, true));
    normalizer.feed(key(HostCode::Backspace, false, true));
    normalizer.feed(key(HostCode::Char('\r'), false, false));
    normalizer.feed(key(HostCode::Char('x'), false, false));
    normalizer.feed(key(HostCode::F(3), false, false));
    assert_eq!(
        normalizer.normalize(),
        vec![
            NormalizedKey::CtrlC,
            NormalizedKey::CtrlLeft,
            NormalizedKey::Left,
            NormalizedKey::CtrlBackspace,
            NormalizedKey::CtrlDelete,
            NormalizedKey::CtrlBackspace,
            NormalizedKey::Enter,
            NormalizedKey::Char('x'),
        ]
    );
    assert_eq!(normalizer.normalize(), vec![]);
}

fn echo_text(c: Option<Command>) -> Option<String> {
    match c {
        Some(Command::Echo { text }) => Some(text),
        _ => None,
    }
}

#[test]
fn echo_joins_its_words_with_single_spaces() {
    assert_eq!(echo_text(parse_command("  echo   hello    world ")), Some("hello world".to_string()));
    assert_eq!(echo_text(parse_command("echo")), Some(String::new()));
}

#[test]
fn decho_takes_its_delay_last() {
    match parse_command("decho wait for it 3") {
        Some(Command::DelayedEcho { text, delay_secs }) => {
            assert_eq!(text, "wait for it");
            assert_eq!(delay_secs, 3);
        }
        other => panic!("unexpected {other:?}"),
    }
    assert!(parse_command("decho soon").is_none());
    assert!(parse_command("decho").is_none());
    assert!(parse_command("decho x 99999999999999999999").is_none());
    match parse_command("decho +7") {
        Some(Command::DelayedEcho { text, delay_secs }) => {
            assert_eq!(text, "");
            assert_eq!(delay_secs, 7);
        }
        other => panic!("unexpected {other:?}"),
    }
}

#[test]
fn the_line_shell_reports_what_it_does_not_know() {
    assert!(matches!(parse_command("status"), Some(Command::Status)));
    assert!(matches!(parse_command("exit"), Some(Command::Exit)));
    assert!(parse_command("   ").is_none());
    match parse_command(" frobnicate now") {
        Some(Command::Unknown(line)) => assert_eq!(line, " frobnicate now"),
        other => panic!("unexpected {other:?}"),
    }
    assert!(parse_screen_command("frobnicate").is_none());
    assert!(matches!(parse_screen_command("exit"), Some(Command::Exit)));
}

#[test]
fn the_processor_counts_and_answers() {
    let mut processor = Processor::new(100, "test-os");
    let reply = processor.handle(Command::Echo { text: "hi".into() }, 105);
    assert!(matches!(reply.response, Response::Output(ref s) if s == "hi"));
    assert_eq!(reply.delay_secs, None);
    assert!(!reply.exit);

    let reply = processor.handle(Command::DelayedEcho { text: "later".into(), delay_secs: 2 }, 106);
    assert_eq!(reply.delay_secs, Some(2));

    let reply = processor.handle(Command::Status, 130);
    match reply.response {
        Response::Status(info) => {
            assert_eq!(info.uptime_secs, 30);
            assert_eq!(info.commands_processed, 3);
            assert_eq!(info.platform, "test-os");
            assert_eq!(info.timestamp, 130);
        }
        other => panic!("unexpected {other:?}"),
    }

    let reply = processor.handle(Command::Unknown("xyz".into()), 131);
    assert!(matches!(reply.response, Response::Output(ref s) if s == "Unknown command: xyz"));

    let reply = processor.handle(Command::Exit, 132);
    assert!(matches!(reply.response, Response::Exit(ref s) if s == "Goodbye"));
    assert!(reply.exit);
    assert_eq!(processor.commands_processed(), 5);
}

#[test]
fn a_clock_that_went_back_reports_no_uptime() {
    let mut processor = Processor::new(100, "p");
    match processor.handle(Command::Status, 50).response {
        Response::Status(info) => assert_eq!(info.uptime_secs, 0),
        other => panic!("unexpected {other:?}"),
    }
}

fn press(code: HostCode) -> HostKey {
    HostKey { code, ctrl: false, alt: false, shift: false, kind: KeyKind::Press }
}

#[test]
fn the_full_screen_input_line() {
    let mut state = TuiState::new();
    assert_eq!(state.output_history, vec!["EgoShell TUI v0.1.0".to_string()]);
    for c in "echo hi".chars() {
        state.on_key(press(HostCode::Char(c)));
    }
    state.on_key(press(HostCode::Backspace));
    assert_eq!(state.input, "echo h");
    let mut released = press(HostCode::Char('z'));
    released.kind = KeyKind::Release;
    state.on_key(released);
    assert_eq!(state.input, "echo h");

    let step = state.on_key(press(HostCode::Enter));
    assert!(matches!(step.send, Some(Command::Echo { ref text }) if text == "h"));
    assert!(!step.quit);
    assert_eq!(state.input, "");
    assert_eq!(state.output_history.last().unwrap(), "> echo h");

    for c in "nope".chars() {
        state.on_key(press(HostCode::Char(c)));
    }
    let step = state.on_key(press(HostCode::Enter));
    assert!(step.send.is_none());
    assert_eq!(state.output_history.last().unwrap(), "> nope (unknown)");

    assert!(state.on_key(press(HostCode::Esc)).quit);
}

#[test]
fn the_full_screen_output_keeps_the_newest_hundred_lines() {
    let mut state = TuiState::new();
    for i in 0..150 {
        state.on_response(Response::Output(format!("line {i}")));
    }
    assert_eq!(state.output_history.len(), 100);
    assert_eq!(state.output_history[0], "line 50");
    assert!(!state.on_response(Response::Error("bad".into())));
    assert_eq!(state.output_history.last().unwrap(), "ERROR: bad");
    assert!(state.on_response(Response::Exit("bye".into())));
    assert_eq!(state.output_history.len(), 101);
}

#[test]
fn the_status_panel() {
    let mut state = TuiState::new();
    assert_eq!(state.status_text(), "No status available");
    state.on_response(Response::Status(StatusInfo {
        uptime_secs: 12,
        commands_processed: 3,
        platform: "x86_64-linux".into(),
        timestamp: 99,
    }));
    assert_eq!(state.status_text(), "Uptime: 12s | Commands: 3 | Platform: x86_64-linux");
    assert_eq!(scroll_offset(10, 5), 7);
    assert_eq!(scroll_offset(2, 5), 0);
}

#[test]
fn the_last_shell_argument_decides_the_front_end() {
    let args = |a: &[&str]| a.iter().map(|s| s.to_string()).collect::<Vec<_>>();
    assert_eq!(parse_mode(&args(&["egoshell"])), ShellMode::Tui);
    assert_eq!(parse_mode(&args(&["egoshell", "--shell", "lite"])), ShellMode::Lite);
    assert_eq!(parse_mode(&args(&["egoshell", "--shell", "none"])), ShellMode::Headless);
    assert_eq!(parse_mode(&args(&["egoshell", "--shell", "odd"])), ShellMode::Tui);
    assert_eq!(parse_mode(&args(&["e", "--shell", "lite", "--shell", "none"])), ShellMode::Headless);
    assert_eq!(parse_mode(&args(&["e", "--shell", "lite", "--shell"])), ShellMode::Lite);
}

#[test]
fn shell_undo_then_redo_restores_the_line() {
    let mut editor = LineEditor::new();
    for c in "ab".chars() {
        editor.handle_input(NormalizedKey::Char(c));
    }
    editor.handle_input(NormalizedKey::Undo);
    editor.handle_input(NormalizedKey::Redo);
    assert_eq!(editor.input_buffer, "ab");
    assert_eq!(editor.cursor_pos, 2);
}

#[test]
fn shell_walk_back_and_forward_keeps_the_draft() {
    let mut editor = LineEditor::new();
    for c in "ls".chars() {
        editor.handle_input(NormalizedKey::Char(c));
    }
    editor.handle_input(NormalizedKey::Enter);
    for c in "dr".chars() {
        editor.handle_input(NormalizedKey::Char(c));
    }
    editor.handle_input(NormalizedKey::Up);
    assert_eq!(editor.input_buffer, "ls");
    editor.handle_input(NormalizedKey::Down);
    assert_eq!(editor.input_buffer, "dr");
}

#[test]
fn shell_editor_moves_by_char_over_multibyte_text() {
    let mut editor = LineEditor::new();
    for c in "日本".chars() {
        editor.handle_input(NormalizedKey::Char(c));
    }
    assert_eq!(editor.cursor_pos, 6);
    editor.handle_input(NormalizedKey::Left);
    assert_eq!(editor.cursor_pos, 3);
    editor.handle_input(NormalizedKey::Char('x'));
    assert_eq!(editor.input_buffer, "日x本");
    editor.handle_input(NormalizedKey::CtrlLeft);
    assert_eq!(editor.cursor_pos, 0);
    editor.handle_input(NormalizedKey::CtrlDelete);
    assert_eq!(editor.input_buffer, "");
    assert!(matches!(editor.handle_input(NormalizedKey::CtrlC), EditorAction::Nothing));
}
