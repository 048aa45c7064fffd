//! Glob pattern matching, through the `glob` crate.
//!
//! Compilation and matching are done by `glob::Pattern`; both are pure
//! functions of their text arguments, so this module names their results
//! ([`glob_accepts`], [`glob_matches`]) and states the wrappers' contracts
//! over those names.  A [`GlobPattern`] pairs the compiled pattern with
//! the source text it was compiled from.

use crate::error::Error;
use vstd::prelude::*;

verus! {

/// Declares `glob::Pattern`, the compiled Unix-shell-style pattern of the
/// `glob` crate, as an opaque outside type.
#[verifier::external_type_specification]
#[verifier::external_body]
pub struct ExPattern(glob::Pattern);

/// Whether `glob::Pattern::new` accepts this pattern text: it depends on
/// the text alone.
pub uninterp spec fn glob_accepts(pattern: Seq<char>) -> bool;

/// Whether the glob pattern compiled from `pattern` matches the path text
/// `path` (`glob::Pattern::matches_with`, with separators required to be
/// matched literally, so that only an explicit `**` crosses directories):
/// a function of the two texts alone.
pub uninterp spec fn glob_matches(pattern: Seq<char>, path: Seq<char>) -> bool;

/// A compiled glob pattern, kept together with its source text.
pub struct GlobPattern {
    pattern: glob::Pattern,
    source: String,
}

impl GlobPattern {
    /// The text the pattern was compiled from.
    pub closed spec fn src(&self) -> Seq<char> {
        self.source@
    }

    /// Relies on `glob::Pattern::new`: whether the text compiles depends
    /// on the text alone (here named [`glob_accepts`]), and the compiled
    /// pattern is a function of that text, stored beside it.  On failure
    /// the crate reports the offending text and its own message.
    #[verifier::external_body]
    pub fn new(text: &str) -> (r: Result<GlobPattern, Error>)
        ensures
            r is Ok <==> glob_accepts(text@),
            r matches Ok(p) ==> p.src() == text@,
            r matches Err(e) ==> (e matches Error::Pattern { pattern, msg } && pattern@ == text@),
    {
        match glob::Pattern::new(text) {
            Ok(pattern) => Ok(GlobPattern { pattern, source: text.to_string() }),
            Err(e) => Err(Error::Pattern { pattern: text.to_string(), msg: e.msg.to_string() }),
        }
    }

    /// Relies on `glob::Pattern::matches_with`: the result is a function
    /// of the pattern's source text, the path text and the fixed options
    /// alone (here named [`glob_matches`]).  Separators must be matched
    /// literally: a plain `*` stays within one directory, only an
    /// explicit `**` crosses into subdirectories.
    #[verifier::external_body]
    pub fn matches(&self, path: &str) -> (r: bool)
        ensures
            r == glob_matches(self.src(), path@),
    {
        let options = glob::MatchOptions {
            case_sensitive: true,
            require_literal_separator: true,
            require_literal_leading_dot: false,
        };
        self.pattern.matches_with(path, options)
    }

    /// Match a path that may lack a text form: one that has none (a
    /// non-UTF-8 path) never matches.
    pub fn matches_path(&self, path: Option<&str>) -> (r: bool)
        ensures
            r == match path {
                Some(p) => glob_matches(self.src(), p@),
                None => false,
            },
    {
        match path {
            Some(p) => self.matches(p),
            None => false,
        }
    }
}

} // verus!
