//! A small library behind a sequence of interactive prompts: it parses the
//! numeric fields read from the terminal, trims the raw input lines, builds
//! the captured record, and picks the platform's terminal-clear command.
//! All I/O stays with the caller; this crate holds the decisions and proves
//! them.

pub mod parse;
pub mod person;
pub mod screen;
