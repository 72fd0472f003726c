//! A small command shell over the line editing pieces: its own line editor,
//! key normalisation for each platform's input, the commands it
//! understands, the processor that answers them, and the state of its
//! full-screen view.

pub mod command;
pub mod editor;
pub mod events;
pub mod mode;
pub mod normalize;
pub mod processor;
pub mod tui;
