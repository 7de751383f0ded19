//! Formatter core for a terminal-multiplexer session listing.
//!
//! The library has two components: a line parser that turns one line of the
//! multiplexer's textual listing into a structured session record, and a
//! table renderer that turns a sequence of records into fixed-width,
//! ANSI-styled text lines. Both are pure; all process handling and terminal
//! output live outside the library.

pub mod digits;
pub mod render;
pub mod session;
