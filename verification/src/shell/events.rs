//! The full-screen shell's event source where there is no terminal to read
//! one from.

use vstd::prelude::*;

verus! {

/// An event stream with nothing behind it: WASI Preview 2 has no terminal
/// events to offer, so the shell there never reads from it and falls back
/// to the line prompt.
#[derive(Debug)]
pub struct EventStream {}

impl EventStream {
    pub fn default() -> (r: Self) {
        Self {}
    }
}

} // verus!
