//! Watch configured filesystem locations and run a command on change.
//!
//! The crate holds the verified core of the tool: the shell-like command
//! tokenizer, the splitter that turns a glob-qualified path into a concrete
//! watch root plus a match pattern, the per-entry event filter, and the
//! error model of a watch session.

pub mod chars;
pub mod command;
pub mod error;
pub mod pattern;
pub mod watch;
