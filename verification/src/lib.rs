//! A small interactive command shell library.
//!
//! The shell reads logical lines (raw lines joined by trailing-backslash
//! continuations), splits each logical line on `;` into whitespace-tokenized
//! commands, resolves a command name against a colon-separated search path,
//! and describes the action to take (run a built-in, spawn an executable, or
//! report that nothing was found). All I/O is left to the caller; this crate
//! holds the decisions, each with a verified contract.

pub mod executor;
pub mod shell;
pub mod text;
