//! A native terminal that needs no async runtime.
//!
//! Reads block on crossterm and writes go straight to `std::io`, so a
//! session over this backend runs to completion under any executor. This
//! module holds what the backend knows and decides: whether it got a tty,
//! whether raw mode is on, and what it reports. Reading and writing are the
//! host's.

use vstd::prelude::*;
use std::io::IsTerminal;
use crate::term::{Capabilities, Error, Result, Size, Terminal, DEFAULT_COLS, DEFAULT_ROWS};

verus! {

/// A native terminal read with blocking crossterm calls and written with
/// `std::io`.
#[derive(Debug)]
pub struct BlockingNative {
    raw: bool,
    tty: bool,
}

/// The backend's state as a value.
pub struct BlockingView {
    pub raw: bool,
    pub tty: bool,
}

impl View for BlockingNative {
    type V = BlockingView;

    closed spec fn view(&self) -> BlockingView {
        BlockingView { raw: self.raw, tty: self.tty }
    }
}

/// Asks `std::io::IsTerminal::is_terminal` whether this process's stdin is
/// a terminal. The answer depends on how the process was started, so
/// nothing is claimed of it.
#[verifier::external_body]
fn stdin_is_terminal() -> (r: bool) {
    std::io::stdin().is_terminal()
}

/// Calls `crossterm::terminal::size`, which answers with the terminal's
/// `(columns, rows)` or the platform's error. Which, and what size, depends
/// on the terminal this process has, so nothing is claimed of it.
#[verifier::external_body]
fn terminal_size() -> (r: std::result::Result<(u16, u16), std::io::Error>) {
    crossterm::terminal::size()
}

/// Calls `crossterm::terminal::enable_raw_mode`. Whether the tty accepts
/// the change depends on the tty, so nothing is claimed of the result.
#[verifier::external_body]
fn enable_raw_mode() -> (r: std::result::Result<(), std::io::Error>) {
    crossterm::terminal::enable_raw_mode()
}

/// Calls `crossterm::terminal::disable_raw_mode`. Whether the tty accepts
/// the change depends on the tty, so nothing is claimed of the result.
#[verifier::external_body]
fn disable_raw_mode() -> (r: std::result::Result<(), std::io::Error>) {
    crossterm::terminal::disable_raw_mode()
}

/// The size to use for what a terminal reported: a report of zero columns
/// or rows is declining to answer, not a terminal one cell wide, and so is
/// no report at all.
pub open spec fn reported_size_spec(reported: Option<(u16, u16)>) -> Size {
    match reported {
        Some((cols, rows)) if cols > 0 && rows > 0 => Size { cols, rows },
        _ => Size { cols: DEFAULT_COLS, rows: DEFAULT_ROWS },
    }
}

/// The size to use for what a terminal reported.
pub fn reported_size(reported: Option<(u16, u16)>) -> (r: Size)
    ensures
        r == reported_size_spec(reported),
{
    match reported {
        Some((cols, rows)) => {
            if cols > 0 && rows > 0 {
                Size::new(cols, rows)
            } else {
                Size::default()
            }
        },
        None => Size::default(),
    }
}

impl BlockingNative {
    /// A backend for a process whose stdin is (`tty`) or is not a terminal.
    pub fn with_tty(tty: bool) -> (r: Self)
        ensures
            r@ == (BlockingView { raw: false, tty }),
    {
        Self { raw: false, tty }
    }

    /// Open stdin and stdout.
    ///
    /// Succeeds whether or not stdin is a terminal. When it is not,
    /// `capabilities` reports no raw mode and the host reads whole lines.
    pub fn new() -> (r: Result<Self>)
        ensures
            r matches Ok(t) && t@.raw == false,
    {
        Ok(Self::with_tty(stdin_is_terminal()))
    }

    /// Whether this process got a tty.
    pub fn is_raw_capable(&self) -> (r: bool)
        ensures
            r == self@.tty,
    {
        self.tty
    }

    /// Whether raw mode is on.
    pub fn is_raw(&self) -> (r: bool)
        ensures
            r == self@.raw,
    {
        self.raw
    }
}

impl Terminal for BlockingNative {
    open spec fn reported_capabilities(&self) -> Capabilities {
        Capabilities { raw_mode: self@.tty, ansi: self@.tty, resize_events: self@.tty, line_discipline: true }
    }

    /// Raw mode, escapes and resizes all follow from having a tty; the
    /// native line discipline is always there outside raw mode.
    fn capabilities(&self) -> (r: Capabilities)
        ensures
            r == (Capabilities { raw_mode: self@.tty, ansi: self@.tty, resize_events: self@.tty, line_discipline: true }),
    {
        Capabilities { raw_mode: self.tty, ansi: self.tty, resize_events: self.tty, line_discipline: true }
    }

    /// What the terminal reports, or the default where it declines.
    fn size(&self) -> (r: Size)
        ensures
            exists|reported: Option<(u16, u16)>| r == reported_size_spec(reported),
    {
        let reported = match terminal_size() {
            Ok(pair) => Some(pair),
            Err(_) => None,
        };
        reported_size(reported)
    }

    /// Switch raw mode, asking the tty only when there is a tty and the mode
    /// actually changes. The mode is recorded only once the tty accepted.
    fn set_raw(&mut self, enabled: bool) -> (r: Result<()>)
        ensures
            final(self)@.tty == old(self)@.tty,
            old(self)@.raw == enabled || !old(self)@.tty ==> r is Ok && final(self)@ == old(self)@,
            r is Ok ==> final(self)@.raw == (if old(self)@.tty { enabled } else { old(self)@.raw }),
            r is Err ==> (r matches Err(Error::Io(_))) && final(self)@ == old(self)@,
    {
        if self.raw == enabled || !self.tty {
            return Ok(());
        }
        let changed = if enabled { enable_raw_mode() } else { disable_raw_mode() };
        match changed {
            Ok(()) => {
                self.raw = enabled;
                Ok(())
            },
            Err(e) => Err(Error::Io(e)),
        }
    }
}

} // verus!
