//! Verified core of a terminal chat client: command parsing, conversation
//! history, and the text layout rules of its terminal UI.

pub mod text;
pub mod ui;
pub mod state;
pub mod repl;
