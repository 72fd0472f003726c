//! The full-screen shell's state: the line being typed, the output shown,
//! and the last status report, with what each key press and each answer
//! does to them. Drawing them is the host's.

use vstd::prelude::*;
use crate::shell::command::{Command, CommandView, Response, ResponseView, StatusInfo, StatusView, parse_screen_command, parse_screen_spec};
use crate::term::keys::{HostCode, HostKey, KeyKind};
use crate::text::{chars_of, decimal, push_decimal_u64, string_of};

verus! {

/// How many output lines are kept.
pub const OUTPUT_LIMIT: usize = 100;

/// The first output line.
pub const BANNER: &'static str = "EgoShell TUI v0.1.0";

/// The full-screen shell's state.
pub struct TuiState {
    pub input: String,
    pub output_history: Vec<String>,
    pub status: Option<StatusInfo>,
}

/// A full-screen shell state as a value.
pub struct TuiView {
    pub input: Seq<char>,
    pub output: Seq<Seq<char>>,
    pub status: Option<StatusView>,
}

impl View for TuiState {
    type V = TuiView;

    open spec fn view(&self) -> TuiView {
        TuiView {
            input: self.input@,
            output: self.output_history@.map_values(|s: String| s@),
            status: match self.status {
                Some(info) => Some(info@),
                None => None,
            },
        }
    }
}

/// What a key press asks of the host.
#[derive(Debug)]
pub struct TuiStep {
    /// A command to send to the processor.
    pub send: Option<Command>,
    /// Leave the full-screen shell.
    pub quit: bool,
}

/// The output with its oldest line dropped once there are more than
/// `OUTPUT_LIMIT`.
pub open spec fn capped(out: Seq<Seq<char>>) -> Seq<Seq<char>> {
    if out.len() > OUTPUT_LIMIT { out.drop_first() } else { out }
}

/// What a key press does: the state after, the command to send, and
/// whether to leave.
pub open spec fn key_spec(v: TuiView, key: HostKey) -> (TuiView, Option<CommandView>, bool) {
    if key.kind != KeyKind::Press {
        (v, None, false)
    } else {
        match key.code {
            HostCode::Char(c) => (TuiView { input: v.input.push(c), ..v }, None, false),
            HostCode::Backspace => (TuiView { input: if v.input.len() > 0 { v.input.drop_last() } else { v.input }, ..v }, None, false),
            HostCode::Enter => {
                let line = v.input;
                match parse_screen_spec(line) {
                    Some(cmd) => {
                        let out = v.output.push("> "@ + line);
                        let exit = cmd is Exit;
                        (TuiView { input: Seq::empty(), output: if exit { out } else { capped(out) }, ..v }, Some(cmd), exit)
                    },
                    None => (TuiView { input: Seq::empty(), output: capped(v.output.push("> "@ + line + " (unknown)"@)), ..v }, None, false),
                }
            },
            HostCode::Esc => (v, None, true),
            _ => (v, None, false),
        }
    }
}

/// What an answer does: the state after, and whether to leave.
pub open spec fn response_spec(v: TuiView, r: ResponseView) -> (TuiView, bool) {
    match r {
        ResponseView::Output(text) => (TuiView { output: capped(v.output.push(text)), ..v }, false),
        ResponseView::Status(info) => (TuiView { status: Some(info), output: capped(v.output), ..v }, false),
        ResponseView::Error(err) => (TuiView { output: capped(v.output.push("ERROR: "@ + err)), ..v }, false),
        ResponseView::Exit(msg) => (TuiView { output: v.output.push(msg), ..v }, true),
    }
}

/// The status panel's text.
pub open spec fn status_text_spec(status: Option<StatusView>) -> Seq<char> {
    match status {
        Some(info) => "Uptime: "@ + decimal(info.uptime_secs as nat) + "s | Commands: "@ + decimal(info.commands_processed as nat)
            + " | Platform: "@ + info.platform,
        None => "No status available"@,
    }
}

/// The output never grows past its limit while the shell keeps running:
/// only the answer or key that ends it may add the line over.
pub proof fn law_output_stays_capped(v: TuiView, key: HostKey, r: ResponseView)
    requires
        v.output.len() <= OUTPUT_LIMIT,
    ensures
        !key_spec(v, key).2 ==> key_spec(v, key).0.output.len() <= OUTPUT_LIMIT,
        !response_spec(v, r).1 ==> response_spec(v, r).0.output.len() <= OUTPUT_LIMIT,
{
}

/// How far to scroll `lines` lines of output in a bordered panel `height`
/// rows tall so the newest line shows, as the panel's row offset.
pub open spec fn scroll_spec(lines: nat, height: nat) -> nat {
    let inside = (height - 2) as nat;
    (if lines > inside { (lines - inside) as nat } else { 0 }) % 0x10000
}

/// How far to scroll the output panel.
pub fn scroll_offset(lines: usize, height: u16) -> (r: u16)
    requires
        height >= 2,
    ensures
        r == scroll_spec(lines as nat, height as nat),
{
    let inside = (height - 2) as usize;
    let hidden = lines.saturating_sub(inside);
    (hidden % 0x10000) as u16
}

impl TuiState {
    pub fn new() -> (r: Self)
        ensures
            r@.input.len() == 0,
            r@.output == seq![BANNER@],
            r@.status is None,
    {
        let mut output_history: Vec<String> = Vec::new();
        output_history.push(String::from_str(BANNER));
        let r = Self { input: String::new(), output_history, status: None };
        assert(r@.output =~= seq![BANNER@]);
        r
    }

    /// Drop the oldest output line once there are more than the limit.
    fn cap_output(&mut self)
        ensures
            final(self)@ == (TuiView { output: capped(old(self)@.output), ..old(self)@ }),
    {
        if self.output_history.len() > OUTPUT_LIMIT {
            let ghost before = self.output_history@;
            self.output_history.remove(0);
            proof {
                assert(self@.output =~= before.map_values(|s: String| s@).drop_first());
            }
        }
    }

    /// Add a line to the output.
    fn show(&mut self, line: String)
        ensures
            final(self)@ == (TuiView { output: old(self)@.output.push(line@), ..old(self)@ }),
    {
        let ghost before = self.output_history@;
        self.output_history.push(line);
        proof {
            assert(self@.output =~= before.map_values(|s: String| s@).push(line@));
        }
    }

    /// Handle a key press.
    pub fn on_key(&mut self, key: HostKey) -> (r: TuiStep)
        ensures
            ({
                let (v, send, quit) = key_spec(old(self)@, key);
                &&& final(self)@ == v
                &&& r.quit == quit
                &&& match r.send {
                    Some(c) => send == Some(c@),
                    None => send is None,
                }
            }),
    {
        if key.kind != KeyKind::Press {
            return TuiStep { send: None, quit: false };
        }
        match key.code {
            HostCode::Char(c) => {
                self.input.push(c);
                TuiStep { send: None, quit: false }
            },
            HostCode::Backspace => {
                let chars = chars_of(self.input.as_str());
                if chars.len() > 0 {
                    let kept = crate::segment::take_chars(&chars, chars.len() - 1);
                    self.input = string_of(kept.as_slice());
                }
                TuiStep { send: None, quit: false }
            },
            HostCode::Enter => {
                let mut input = String::new();
                std::mem::swap(&mut input, &mut self.input);
                proof {
                    reveal_strlit("> ");
                    reveal_strlit(" (unknown)");
                }
                match parse_screen_command(input.as_str()) {
                    Some(cmd) => {
                        let is_exit = match cmd {
                            Command::Exit => true,
                            _ => false,
                        };
                        let mut echoed = String::from_str("> ");
                        echoed.append(input.as_str());
                        self.show(echoed);
                        if !is_exit {
                            self.cap_output();
                        }
                        TuiStep { send: Some(cmd), quit: is_exit }
                    },
                    None => {
                        let mut echoed = String::from_str("> ");
                        echoed.append(input.as_str());
                        echoed.append(" (unknown)");
                        self.show(echoed);
                        self.cap_output();
                        TuiStep { send: None, quit: false }
                    },
                }
            },
            HostCode::Esc => TuiStep { send: None, quit: true },
            _ => TuiStep { send: None, quit: false },
        }
    }

    /// Handle an answer from the processor; says whether to leave.
    pub fn on_response(&mut self, response: Response) -> (quit: bool)
        ensures
            (final(self)@, quit) == response_spec(old(self)@, response@),
    {
        match response {
            Response::Output(text) => {
                self.show(text);
                self.cap_output();
                false
            },
            Response::Status(info) => {
                self.status = Some(info);
                self.cap_output();
                false
            },
            Response::Error(err) => {
                let mut line = String::from_str("ERROR: ");
                line.append(err.as_str());
                self.show(line);
                self.cap_output();
                false
            },
            Response::Exit(msg) => {
                self.show(msg);
                true
            },
        }
    }

    /// The status panel's text.
    pub fn status_text(&self) -> (r: String)
        ensures
            r@ == status_text_spec(self@.status),
    {
        match &self.status {
            Some(info) => {
                let mut out = String::from_str("Uptime: ");
                push_decimal_u64(&mut out, info.uptime_secs);
                out.append("s | Commands: ");
                push_decimal_u64(&mut out, info.commands_processed);
                out.append(" | Platform: ");
                out.append(info.platform.as_str());
                out
            },
            None => String::from_str("No status available"),
        }
    }
}

/// What a key does to the full-screen shell: a released or repeated key
/// does nothing; a typed char is added to the input and Backspace takes
/// the last one off; Escape quits, changing nothing; Enter sends the
/// input's command (if it is one), always empties the input, and quits
/// only on `exit`.
pub proof fn law_tui_keys(v: TuiView, key: HostKey)
    ensures
        key.kind != KeyKind::Press ==> key_spec(v, key) == (v, None::<CommandView>, false),
        key.kind == KeyKind::Press ==> {
            let (v1, cmd, quit) = key_spec(v, key);
            &&& key.code matches HostCode::Char(c) ==> v1.input == v.input.push(c) && v1.output == v.output && cmd is None && !quit
            &&& key.code == HostCode::Backspace ==> v1.output == v.output && cmd is None && !quit
                && (v.input.len() > 0 ==> v1.input == v.input.drop_last())
                && (v.input.len() == 0 ==> v1.input.len() == 0)
            &&& key.code == HostCode::Esc ==> v1 == v && cmd is None && quit
            &&& key.code == HostCode::Enter ==> v1.input.len() == 0 && cmd == parse_screen_spec(v.input)
                && quit == (cmd matches Some(c) && c is Exit)
        },
{
}

} // verus!
