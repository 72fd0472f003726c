//! Terminals: what the session reads from and writes to.
//!
//! A backend reports what it can do through [`Capabilities`] and delivers
//! either [`Event::Key`] or [`Event::Line`]. Raw mode is the axis: where
//! keys arrive as they are pressed the session edits the line, and where
//! input arrives a finished line at a time it reads lines.
//!
//! [`Terminal`] is the synchronous half of a backend: what it can do, how
//! big it is, and switching raw mode. Reading events and writing text are
//! the host's side of the loop; [`mem::MemTerminal`] does both in memory.

use vstd::prelude::*;
use crate::key::KeyPress;

pub mod blocking;
pub mod keys;
pub mod mem;
pub mod xterm;

verus! {

/// Declares `std::io::Error` so the library's own [`Error`] can carry it.
#[verifier::external_type_specification]
#[verifier::external_body]
pub struct ExIoError(std::io::Error);

/// Anything that can go wrong reading a line.
///
/// End of input and Ctrl+C are not errors: they are
/// [`crate::session::ReadOutcome`] variants.
#[derive(Debug)]
pub enum Error {
    /// The terminal's underlying reads or writes failed.
    Io(std::io::Error),
    /// The terminal itself refused: no raw mode, a lost handle.
    Terminal(String),
}

pub type Result<T> = std::result::Result<T, Error>;

/// A failed read or write of the terminal.
impl From<std::io::Error> for Error {
    fn from(error: std::io::Error) -> (r: Self) {
        Error::Io(error)
    }
}

impl vstd::std_specs::convert::FromSpecImpl<std::io::Error> for Error {
    open spec fn obeys_from_spec() -> bool {
        true
    }

    open spec fn from_spec(v: std::io::Error) -> Error {
        Error::Io(v)
    }
}

/// Columns assumed when the platform will not say.
pub const DEFAULT_COLS: u16 = 80;

/// Rows assumed when the platform will not say.
pub const DEFAULT_ROWS: u16 = 24;

/// A terminal's dimensions, in cells.
#[derive(Clone, Copy, PartialEq, Eq, Debug, Structural)]
pub struct Size {
    pub cols: u16,
    pub rows: u16,
}

impl Size {
    pub fn new(cols: u16, rows: u16) -> (r: Self)
        ensures
            r == (Size { cols, rows }),
    {
        Self { cols, rows }
    }
}

/// The VT100 default, still the convention for a terminal of unknown size.
impl Default for Size {
    fn default() -> (r: Self)
        ensures
            r == (Size { cols: DEFAULT_COLS, rows: DEFAULT_ROWS }),
    {
        Size { cols: DEFAULT_COLS, rows: DEFAULT_ROWS }
    }
}

/// What a backend can do.
#[derive(Clone, Copy, PartialEq, Eq, Debug, Structural)]
pub struct Capabilities {
    /// Keys arrive as they are pressed, so the session can edit the line.
    /// False means input arrives a finished line at a time.
    pub raw_mode: bool,
    /// Escape sequences written to this terminal are interpreted rather
    /// than printed. False means draw nothing but the text.
    pub ansi: bool,
    /// [`Event::Resize`] will be delivered when the terminal changes size.
    pub resize_events: bool,
    /// Outside raw mode this terminal returns the carriage for a lone `\n`
    /// on its own. False means every line break has to say `\r\n`.
    pub line_discipline: bool,
}

/// Something that happened at the terminal.
#[derive(Clone, PartialEq, Eq, Debug)]
pub enum Event {
    /// A key press. Only from a terminal with `raw_mode`.
    Key(KeyPress),
    /// A finished line, newline already stripped. Only from a terminal
    /// without `raw_mode`.
    Line(String),
    /// The terminal changed size.
    Resize(Size),
    /// No more input will arrive.
    Eof,
}

/// An [`Event`] as a value.
pub enum EventView {
    Key(KeyPress),
    Line(Seq<char>),
    Resize(Size),
    Eof,
}

impl View for Event {
    type V = EventView;

    open spec fn view(&self) -> EventView {
        match self {
            Event::Key(k) => EventView::Key(*k),
            Event::Line(s) => EventView::Line(s@),
            Event::Resize(size) => EventView::Resize(*size),
            Event::Eof => EventView::Eof,
        }
    }
}

/// The part of a terminal a session consults without waiting: what it can
/// do, how big it is, and whether it is in raw mode.
///
/// A backend that has no raw mode, or is always in one, succeeds at
/// `set_raw` without doing anything: the session asks unconditionally and
/// reads [`Capabilities::raw_mode`] to know what it got.
pub trait Terminal {
    /// What this terminal can do. A terminal's capabilities are a fact
    /// about it, fixed for as long as it is held by reference.
    spec fn reported_capabilities(&self) -> Capabilities;

    fn capabilities(&self) -> (r: Capabilities)
        ensures
            r == self.reported_capabilities(),
    ;

    fn size(&self) -> Size;

    fn set_raw(&mut self, enabled: bool) -> Result<()>;
}

/// Open the terminal this process has, with the backend that needs no
/// async runtime.
pub fn platform() -> (r: Result<blocking::BlockingNative>)
    ensures
        r is Ok,
{
    blocking::BlockingNative::new()
}

} // verus!
