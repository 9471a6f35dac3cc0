//! Alternating-case text: `hello world` becomes `hElLo WoRlD`.
//!
//! The letters of a text take lower and upper case in turn; everything else
//! is left alone. Around that stand the joining of command-line words into
//! one text, and a line protocol with a few escape sequences for a
//! read-eval-print loop.

pub mod args;
pub mod chars;
pub mod escape;
pub mod littify;
pub mod repl;

pub use args::{process_args, ProcessArgsExt};
pub use escape::{
    escape_bytes, escape_process, scan_escapes, CycleOutcome, EscapeScan, ESCAPE, EXIT, LINE_FEED,
    NEWLINE,
};
pub use littify::{littify_string, LittifyStringExt};
pub use repl::{repl, repl_cycle};
