//! The command processor: what it answers to each command, and what it
//! counts. Receiving commands, waiting out a delay and sending the answer
//! are the host's.

use vstd::prelude::*;
use crate::shell::command::{Command, CommandView, Response, ResponseView, StatusInfo, StatusView};

verus! {

/// What `Exit` is answered with.
pub const GOODBYE: &'static str = "Goodbye";

/// What an unknown command's answer begins with.
pub const UNKNOWN_PREFIX: &'static str = "Unknown command: ";

/// The processor's state: when it started, how many commands it has seen,
/// and the platform it reports.
pub struct Processor {
    start_time: u64,
    commands_processed: u64,
    platform: String,
}

/// A processor as a value.
pub struct ProcessorView {
    pub start_time: u64,
    pub commands_processed: u64,
    pub platform: Seq<char>,
}

impl View for Processor {
    type V = ProcessorView;

    closed spec fn view(&self) -> ProcessorView {
        ProcessorView { start_time: self.start_time, commands_processed: self.commands_processed, platform: self.platform@ }
    }
}

/// What the processor does with one command.
#[derive(Debug)]
pub struct Reply {
    /// Seconds to wait before answering.
    pub delay_secs: Option<u64>,
    pub response: Response,
    /// The processor stops after this answer.
    pub exit: bool,
}

/// The answer to `cmd` from processor `p` (already counting `cmd`) at
/// `now` seconds since the epoch, with the delay to wait first.
pub open spec fn reply_spec(p: ProcessorView, cmd: CommandView, now: u64) -> (Option<u64>, ResponseView) {
    match cmd {
        CommandView::Echo(text) => (None, ResponseView::Output(text)),
        CommandView::DelayedEcho(text, secs) => (Some(secs), ResponseView::Output(text)),
        CommandView::Status => (None, ResponseView::Status(StatusView {
            uptime_secs: if now >= p.start_time { (now - p.start_time) as u64 } else { 0 },
            commands_processed: p.commands_processed,
            platform: p.platform,
            timestamp: now,
        })),
        CommandView::Exit => (None, ResponseView::Exit(GOODBYE@)),
        CommandView::Unknown(line) => (None, ResponseView::Output(UNKNOWN_PREFIX@ + line)),
    }
}

impl Processor {
    /// A processor started at `start_time` seconds since the epoch, on
    /// `platform`.
    pub fn new(start_time: u64, platform: &str) -> (r: Self)
        ensures
            r@ == (ProcessorView { start_time, commands_processed: 0, platform: platform@ }),
    {
        Self { start_time, commands_processed: 0, platform: String::from_str(platform) }
    }

    pub fn commands_processed(&self) -> (r: u64)
        ensures
            r == self@.commands_processed,
    {
        self.commands_processed
    }

    /// Count `cmd` and decide its answer, `now` being the time in seconds
    /// since the epoch. The counter must have room for one more.
    pub fn handle(&mut self, cmd: Command, now: u64) -> (r: Reply)
        requires
            old(self)@.commands_processed < u64::MAX,
        ensures
            final(self)@ == (ProcessorView { commands_processed: (old(self)@.commands_processed + 1) as u64, ..old(self)@ }),
            (r.delay_secs, r.response@) == reply_spec(final(self)@, cmd@, now),
            r.exit == (cmd@ is Exit),
    {
        let exit = match cmd {
            Command::Exit => true,
            _ => false,
        };
        self.commands_processed = self.commands_processed + 1;
        match cmd {
            Command::Echo { text } => Reply { delay_secs: None, response: Response::Output(text), exit },
            Command::DelayedEcho { text, delay_secs } => Reply { delay_secs: Some(delay_secs), response: Response::Output(text), exit },
            Command::Status => {
                let uptime = now.saturating_sub(self.start_time);
                let info = StatusInfo {
                    uptime_secs: uptime,
                    commands_processed: self.commands_processed,
                    platform: String::from_str(self.platform.as_str()),
                    timestamp: now,
                };
                Reply { delay_secs: None, response: Response::Status(info), exit }
            },
            Command::Exit => Reply { delay_secs: None, response: Response::Exit(String::from_str(GOODBYE)), exit },
            Command::Unknown(line) => {
                let mut text = String::from_str(UNKNOWN_PREFIX);
                text.append(line.as_str());
                Reply { delay_secs: None, response: Response::Output(text), exit }
            },
        }
    }
}

/// What a command is answered: an echo with its text, at once; a delayed
/// echo with its text after its seconds; a status report with the time
/// since the start (none if the clock stands before it), the commands
/// handled before this one, the platform, and the time now.
pub proof fn law_replies(p: ProcessorView, text: Seq<char>, secs: u64, now: u64)
    ensures
        reply_spec(p, CommandView::Echo(text), now) == (None::<u64>, ResponseView::Output(text)),
        reply_spec(p, CommandView::DelayedEcho(text, secs), now) == (Some(secs), ResponseView::Output(text)),
        reply_spec(p, CommandView::Status, now).0 is None,
        reply_spec(p, CommandView::Status, now).1 matches ResponseView::Status(st) && {
            &&& (now >= p.start_time ==> st.uptime_secs + p.start_time == now)
            &&& (now < p.start_time ==> st.uptime_secs == 0)
            &&& st.commands_processed == p.commands_processed
            &&& st.platform == p.platform
            &&& st.timestamp == now
        },
        reply_spec(p, CommandView::Exit, now).1 is Exit,
{
}

} // verus!
