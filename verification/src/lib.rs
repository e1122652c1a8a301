//! An interactive shell front-end for a remote code-review service.
//!
//! The heart of the crate is the prompt subsystem: a key-event state machine
//! that owns an input buffer, matches partial input against a hierarchical
//! command vocabulary, keeps a command history, and plans scroll-safe terminal
//! rendering. All of that logic is verified; the terminal and network edges
//! live outside the library and only execute what the library decides.

pub mod text;
pub mod util;
pub mod matcher;
pub mod history;
pub mod render;
pub mod tree;
pub mod editor;
pub mod change;
pub mod commands;
