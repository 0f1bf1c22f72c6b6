//! OmniConsole: a terminal emulator core with right-to-left (Arabic, Hebrew)
//! support.
//!
//! - `terminal`: the screen buffer, the escape-sequence parser and the screen
//!   state that ties them to a cursor.
//! - `bidi`: detection of right-to-left text, letter shaping and the visual
//!   ordering of a line for display.
//! - `config`: shell profiles and the settings values that need no floats.
//! - `pty`: the events that a pseudo-terminal session reports.
//! - `ui`: the decisions of the user interface (keys, tabs, colours).
pub mod terminal;
pub mod bidi;
pub mod config;
pub mod pty;
pub mod ui;
