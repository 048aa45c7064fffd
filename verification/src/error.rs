//! All possible ways how caretaking may fail.
//!
//! A value of [`Error`] is fatal: it ends the whole watch session.  A
//! non-zero exit code of a watched command is deliberately not an error
//! here — only a failure to spawn the command at all is.

use vstd::prelude::*;
use vstd::string::StringExecFns;

verus! {

/// A fatal error of a watch session.
#[derive(Debug)]
pub enum Error {
    /// Error of the underlying watch mechanism.
    Notify { msg: String },
    /// Error of the underlying watch mechanism while registering a path.
    PathWatch { path: String, msg: String },
    /// The provided glob path was not valid.
    Pattern { pattern: String, msg: String },
    /// Input / output error, such as a prefix that cannot be resolved.
    Io { path: String, msg: String },
    /// The error channel closed without delivering an error.
    Receive,
}

/// The rendered text of an error.
pub open spec fn spec_message(e: Error) -> Seq<char> {
    match e {
        Error::Notify { msg } => "Notify error: "@ + msg@,
        Error::PathWatch { path, msg } => "Notify error watching "@ + path@ + ": "@ + msg@,
        Error::Pattern { pattern, msg } => "Invalid glob "@ + pattern@ + ": "@ + msg@,
        Error::Io { path, msg } => "Input / output error on "@ + path@ + ": "@ + msg@,
        Error::Receive => "Channel receive error"@,
    }
}

impl Error {
    /// Render the error as one line of text.
    pub fn message(&self) -> (r: String)
        ensures
            r@ == spec_message(*self),
    {
        match self {
            Error::Notify { msg } => {
                let mut s = String::from_str("Notify error: ");
                s.append(msg.as_str());
                s
            },
            Error::PathWatch { path, msg } => {
                let mut s = String::from_str("Notify error watching ");
                s.append(path.as_str());
                s.append(": ");
                s.append(msg.as_str());
                s
            },
            Error::Pattern { pattern, msg } => {
                let mut s = String::from_str("Invalid glob ");
                s.append(pattern.as_str());
                s.append(": ");
                s.append(msg.as_str());
                s
            },
            Error::Io { path, msg } => {
                let mut s = String::from_str("Input / output error on ");
                s.append(path.as_str());
                s.append(": ");
                s.append(msg.as_str());
                s
            },
            Error::Receive => String::from_str("Channel receive error"),
        }
    }
}

} // verus!
