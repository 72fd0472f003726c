//! Line editing for command-line applications: a key decoder, a keymap, a
//! line editor with undo and history, a renderer, and the session logic
//! that ties them to a terminal.

pub mod decode;
pub mod demo;
pub mod editor;
pub mod extend;
pub mod history;
pub mod key;
pub mod keymap;
pub mod render;
pub mod segment;
pub mod session;
pub mod shell;
pub mod style;
pub mod term;
pub mod text;

pub use editor::{EditOutcome, LineEditor};
pub use extend::{Completer, Completion, Highlighter, NoCompleter, NoHighlighter, WordCompleter};
pub use history::History;
pub use key::{KeyCode, KeyPress, Mods};
pub use keymap::{Action, Keymap};
pub use session::{ReadOutcome, Session};
pub use term::{Capabilities, Error, Event, Result, Size, Terminal};
