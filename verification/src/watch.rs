//! Watch entries and event dispatch.
//!
//! A configured path may carry glob metacharacters.  The splitter finds
//! the longest metacharacter-free prefix, which becomes the watch root
//! handed to the event source; the remainder, joined onto the canonical
//! form of that prefix, becomes the match pattern.  Each inbound event is
//! then filtered by kind and, where a pattern exists, by matching any of
//! the event's paths against it.

use crate::chars::{chars_range_to_string, str_to_chars};
use crate::command::{arg_tokens, tokenize};
use crate::error::Error;
use crate::pattern::{glob_accepts, glob_matches, GlobPattern};
use vstd::prelude::*;
use vstd::string::{StrSliceExecFns, StringExecFns};

verus! {

/// One path to watch (a record of the configuration file).
pub struct Watch {
    /// A name of the action to do on the path change.
    pub name: String,
    /// The path to watch for change.
    pub path: String,
    /// The command to execute on path change.
    pub command: String,
}

/// The config file of the tool.
pub struct Config {
    /// A list of paths and commands to watch.
    pub watch: Vec<Watch>,
}

/// The glob metacharacters.
pub open spec fn is_glob_char(c: char) -> bool {
    c == '*' || c == '?' || c == '['
}

/// The path separator.
pub open spec fn is_sep(c: char) -> bool {
    c == '/'
}

/// Whether the path holds a glob metacharacter anywhere.
pub open spec fn has_glob(s: Seq<char>) -> bool {
    exists|i: int| 0 <= i < s.len() && is_glob_char(s[i])
}

/// Executable test for a glob metacharacter.
pub fn glob_char(c: char) -> (r: bool)
    ensures
        r == is_glob_char(c),
{
    c == '*' || c == '?' || c == '['
}

/// Walk the separators of `s` from index `i` on: `last` is the index just
/// after the last separator seen whose preceding text was clean so far;
/// the walk stops at the first metacharacter.
pub open spec fn split_scan(s: Seq<char>, last: int, i: int) -> int
    decreases s.len() - i,
{
    if i < 0 || i >= s.len() {
        last
    } else if is_glob_char(s[i]) {
        last
    } else if is_sep(s[i]) {
        split_scan(s, i + 1, i + 1)
    } else {
        split_scan(s, last, i + 1)
    }
}

/// The index just after the last separator whose whole preceding text is
/// free of glob metacharacters; 0 when already the first segment holds
/// one.
pub open spec fn split_point(s: Seq<char>) -> int {
    split_scan(s, 0, 0)
}

/// The static prefix of a glob-qualified path: the text before the
/// separator at the split point, kept exactly as written.
pub open spec fn glob_root(s: Seq<char>) -> Seq<char> {
    if split_point(s) == 0 {
        Seq::empty()
    } else {
        s.take(split_point(s) - 1)
    }
}

/// The remainder of a glob-qualified path from the split point on: the
/// part holding the wildcards.
pub open spec fn glob_rest(s: Seq<char>) -> Seq<char> {
    s.skip(split_point(s))
}

/// The scan keeps everything it has passed free of metacharacters: its
/// result points just after a separator (or at the start), and no
/// character before it is a metacharacter.
proof fn lemma_split_scan_clean(s: Seq<char>, last: int, i: int)
    requires
        0 <= last <= i <= s.len(),
        forall|j: int| 0 <= j < i ==> !is_glob_char(s[j]),
        last == 0 || is_sep(s[last - 1]),
    ensures
        last <= split_scan(s, last, i) <= s.len(),
        split_scan(s, last, i) == 0 || is_sep(s[split_scan(s, last, i) - 1]),
        forall|j: int| 0 <= j < split_scan(s, last, i) ==> !is_glob_char(s[j]),
    decreases s.len() - i,
{
    if i < s.len() && !is_glob_char(s[i]) {
        if is_sep(s[i]) {
            lemma_split_scan_clean(s, i + 1, i + 1);
        } else {
            lemma_split_scan_clean(s, last, i + 1);
        }
    }
}

/// The static prefix of a path is itself free of glob metacharacters,
/// and where a split happened the path is the prefix, the separator and
/// the remainder put back together; where none happened, the remainder
/// is the whole path.
pub proof fn lemma_split_properties(s: Seq<char>)
    ensures
        0 <= split_point(s) <= s.len(),
        !has_glob(glob_root(s)),
        split_point(s) > 0 ==> is_sep(s[split_point(s) - 1]) && s == glob_root(s) + seq![
            s[split_point(s) - 1],
        ] + glob_rest(s),
        split_point(s) == 0 ==> glob_rest(s) == s,
{
    lemma_split_scan_clean(s, 0, 0);
    let sp = split_point(s);
    if sp > 0 {
        assert forall|j: int| 0 <= j < glob_root(s).len() implies !is_glob_char(
            glob_root(s)[j],
        ) by {
            assert(glob_root(s)[j] == s[j]);
        }
        assert(s =~= glob_root(s) + seq![s[sp - 1]] + glob_rest(s));
    } else {
        assert(glob_rest(s) =~= s);
        assert(glob_root(s) =~= Seq::<char>::empty());
    }
}

/// Split a configured path at its glob metacharacters.
///
/// A path without metacharacters is left whole: the result is `None` and
/// the path itself is the watch root.  Otherwise the result carries the
/// static prefix (the watch root) and the wildcard remainder.
#[verifier::loop_isolation(false)]
pub fn split_watch_path(path: &str) -> (r: Option<(String, String)>)
    ensures
        r is Some <==> has_glob(path@),
        r matches Some(pr) ==> pr.0@ == glob_root(path@) && pr.1@ == glob_rest(path@),
{
    let cs = str_to_chars(path);
    let n = cs.len();
    let mut i: usize = 0;
    while i < n && !glob_char(cs[i])
        invariant
            i <= n,
            forall|j: int| 0 <= j < i ==> !is_glob_char(path@[j]),
        decreases n - i,
    {
        i = i + 1;
    }
    if i >= n {
        return None;
    }
    proof {
        assert(is_glob_char(path@[i as int]));
    }
    let mut last: usize = 0;
    let mut k: usize = 0;
    while k < n && !glob_char(cs[k])
        invariant
            k <= n,
            last <= k,
            split_point(path@) == split_scan(path@, last as int, k as int),
        decreases n - k,
    {
        if cs[k] == '/' {
            k = k + 1;
            last = k;
        } else {
            k = k + 1;
        }
    }
    let root = if last == 0 {
        String::new()
    } else {
        chars_range_to_string(&cs, 0, last - 1)
    };
    let rest = chars_range_to_string(&cs, last, n);
    proof {
        assert(split_point(path@) == last as int);
        if last > 0 {
            assert(cs@.subrange(0, last - 1) =~= path@.take(last - 1));
        } else {
            assert(Seq::<char>::empty() =~= glob_root(path@));
        }
        assert(cs@.subrange(last as int, n as int) =~= path@.skip(last as int));
    }
    Some((root, rest))
}

/// The pattern text for a glob entry: the canonical prefix joined with
/// the wildcard remainder by a single separator.
pub open spec fn joined_pattern(prefix: Seq<char>, rest: Seq<char>) -> Seq<char> {
    if prefix.len() > 0 && is_sep(prefix[prefix.len() - 1]) {
        prefix + rest
    } else {
        prefix + seq!['/'] + rest
    }
}

/// Join the canonical prefix and the wildcard remainder into one pattern
/// text.
pub fn join_pattern(prefix: &str, rest: &str) -> (r: String)
    ensures
        r@ == joined_pattern(prefix@, rest@),
{
    let n = prefix.unicode_len();
    let trailing = if n > 0 {
        prefix.get_char(n - 1) == '/'
    } else {
        false
    };
    let mut s = String::from_str(prefix);
    if !trailing {
        proof {
            reveal_strlit("/");
            assert("/"@ =~= seq!['/']);
        }
        s.append("/");
    }
    s.append(rest);
    proof {
        if !trailing {
            assert(prefix@ + "/"@ + rest@ =~= joined_pattern(prefix@, rest@));
        }
    }
    s
}

/// One parsed entry: the watch root handed to the event source, the
/// optional match pattern, and the tokenized command.
pub struct WatchEntry {
    /// Display label of the entry.
    pub name: String,
    /// The filesystem location registered with the event source.
    pub watch_root: String,
    /// Present exactly when the configured path held a metacharacter;
    /// matches against absolute changed-file paths.
    pub pattern: Option<GlobPattern>,
    /// The tokenized command: executable name, then arguments.
    pub argv: Vec<String>,
}

/// Build the entry for a path without glob metacharacters: the path
/// itself, exactly as written, is the watch root, and no pattern is
/// produced.
pub fn plain_entry(w: &Watch) -> (r: WatchEntry)
    requires
        !has_glob(w.path@),
    ensures
        r.name@ == w.name@,
        r.watch_root@ == w.path@,
        r.pattern is None,
        r.argv.deep_view() == arg_tokens(w.command@),
{
    WatchEntry {
        name: w.name.clone(),
        watch_root: w.path.clone(),
        pattern: None,
        argv: tokenize(w.command.as_str()),
    }
}

/// Build the entry for a glob-qualified path.
///
/// `canonical_prefix` must be the canonical (absolute, symlink-resolved)
/// form of the static prefix [`glob_root`]; resolving it against the
/// filesystem is the caller's part.  The watch root keeps the original,
/// uncanonicalized prefix, while the pattern is compiled from the
/// canonical prefix joined with the wildcard remainder, so match tests
/// compare against absolute canonical paths.
pub fn glob_entry(w: &Watch, canonical_prefix: &str) -> (r: Result<WatchEntry, Error>)
    requires
        has_glob(w.path@),
    ensures
        r is Ok <==> glob_accepts(joined_pattern(canonical_prefix@, glob_rest(w.path@))),
        r matches Ok(e) ==> {
            &&& e.name@ == w.name@
            &&& e.watch_root@ == glob_root(w.path@)
            &&& (e.pattern matches Some(p) && p.src() == joined_pattern(
                canonical_prefix@,
                glob_rest(w.path@),
            ))
            &&& e.argv.deep_view() == arg_tokens(w.command@)
        },
        r matches Err(e) ==> e is Pattern,
{
    let parts = split_watch_path(w.path.as_str());
    let (root, rest) = match parts {
        Some(pr) => pr,
        None => {
            // never taken: the path holds a metacharacter, so the split
            // yields its parts
            proof {
                assert(false);
            }
            (String::new(), String::new())
        },
    };
    let text = join_pattern(canonical_prefix, rest.as_str());
    match GlobPattern::new(text.as_str()) {
        Ok(p) => Ok(
            WatchEntry {
                name: w.name.clone(),
                watch_root: root,
                pattern: Some(p),
                argv: tokenize(w.command.as_str()),
            },
        ),
        Err(e) => Err(e),
    }
}

/// The category of a filesystem change reported by the event source.
#[derive(Clone, Copy, PartialEq, Eq, Structural, Debug)]
pub enum ChangeKind {
    /// A file finished being written (close after write).
    WriteClose,
    /// A path was created.
    Create,
    /// A rename where this path is the destination.
    RenameTo,
    /// A path was removed.
    Remove,
    /// Anything else: plain opens, metadata-only changes, rename sources.
    Other,
}

/// The kinds that trigger further processing: everything but `Other`.
pub open spec fn spec_relevant(k: ChangeKind) -> bool {
    !(k is Other)
}

/// Executable test for [`spec_relevant`].
pub fn relevant_kind(k: ChangeKind) -> (r: bool)
    ensures
        r == spec_relevant(k),
{
    match k {
        ChangeKind::Other => false,
        _ => true,
    }
}

/// Whether an event qualifies for an entry: its kind must be relevant,
/// and, where the entry has a pattern, some path carried by the event
/// must match it; an entry without a pattern takes every relevant event.
pub open spec fn spec_should_run(e: WatchEntry, kind: ChangeKind, paths: Seq<Seq<char>>) -> bool {
    &&& spec_relevant(kind)
    &&& match e.pattern {
        None => true,
        Some(p) => exists|i: int| 0 <= i < paths.len() && glob_matches(p.src(), paths[i]),
    }
}

/// The index of the first path matching the pattern text `psrc`, or the
/// length when none does.
pub open spec fn first_match(psrc: Seq<char>, paths: Seq<Seq<char>>) -> int
    decreases paths.len(),
{
    if paths.len() == 0 {
        0
    } else if glob_matches(psrc, paths[0]) {
        0
    } else {
        1 + first_match(psrc, paths.skip(1))
    }
}

/// When everything before `i` misses and `i` hits, `i` is the first match.
proof fn lemma_first_match_hit(psrc: Seq<char>, paths: Seq<Seq<char>>, i: int)
    requires
        0 <= i < paths.len(),
        forall|j: int| 0 <= j < i ==> !glob_matches(psrc, paths[j]),
        glob_matches(psrc, paths[i]),
    ensures
        first_match(psrc, paths) == i,
    decreases i,
{
    if i > 0 {
        assert forall|j: int| 0 <= j < i - 1 implies !glob_matches(psrc, paths.skip(1)[j]) by {
            assert(paths.skip(1)[j] == paths[j + 1]);
        }
        assert(paths.skip(1)[i - 1] == paths[i]);
        lemma_first_match_hit(psrc, paths.skip(1), i - 1);
    }
}

/// When every path misses, the first match is the length.
proof fn lemma_first_match_none(psrc: Seq<char>, paths: Seq<Seq<char>>)
    requires
        forall|j: int| 0 <= j < paths.len() ==> !glob_matches(psrc, paths[j]),
    ensures
        first_match(psrc, paths) == paths.len(),
    decreases paths.len(),
{
    if paths.len() > 0 {
        assert forall|j: int| 0 <= j < paths.skip(1).len() implies !glob_matches(
            psrc,
            paths.skip(1)[j],
        ) by {
            assert(paths.skip(1)[j] == paths[j + 1]);
        }
        lemma_first_match_none(psrc, paths.skip(1));
    }
}

/// The path handed to the command as the triggering path: the first
/// matching path where the entry has a pattern, the first path at all
/// where it has none, and nothing when the event carries none that
/// qualifies.
pub open spec fn spec_env_path(e: WatchEntry, paths: Seq<Seq<char>>) -> Option<Seq<char>> {
    match e.pattern {
        None => if paths.len() > 0 {
            Some(paths[0])
        } else {
            None
        },
        Some(p) => {
            let k = first_match(p.src(), paths);
            if k < paths.len() {
                Some(paths[k])
            } else {
                None
            }
        },
    }
}

/// What the engine does with one event delivered for one entry.
#[derive(Debug, PartialEq, Eq)]
pub enum Action {
    /// Run the command of the entry at this index, handing it the
    /// triggering path, if there is one.
    Run { entry: usize, env_path: Option<String> },
    /// Discard the event.
    Ignore,
}

/// Decide what to do with an event delivered for the entry at `idx`.
///
/// The decision concerns that entry alone: a `Run` action can only ever
/// name the entry the event was delivered for, never another one, however
/// the entries' roots overlap.
#[verifier::loop_isolation(false)]
pub fn dispatch(entries: &Vec<WatchEntry>, idx: usize, kind: ChangeKind, paths: &Vec<String>) -> (r:
    Action)
    requires
        idx < entries@.len(),
    ensures
        r is Run <==> spec_should_run(entries@[idx as int], kind, paths.deep_view()),
        r matches Action::Run { entry, env_path } ==> entry == idx && env_path.deep_view()
            == spec_env_path(entries@[idx as int], paths.deep_view()),
{
    let e = &entries[idx];
    if !relevant_kind(kind) {
        return Action::Ignore;
    }
    let ghost dv = paths.deep_view();
    match &e.pattern {
        None => {
            if paths.len() > 0 {
                let p = paths[0].clone();
                proof {
                    assert(dv[0] == paths@[0]@);
                }
                Action::Run { entry: idx, env_path: Some(p) }
            } else {
                Action::Run { entry: idx, env_path: None }
            }
        },
        Some(p) => {
            let mut i: usize = 0;
            while i < paths.len()
                invariant
                    i <= paths@.len(),
                    forall|j: int| 0 <= j < i ==> !glob_matches(p.src(), dv[j]),
                decreases paths@.len() - i,
            {
                proof {
                    assert(dv[i as int] == paths@[i as int]@);
                }
                if p.matches(paths[i].as_str()) {
                    proof {
                        lemma_first_match_hit(p.src(), dv, i as int);
                    }
                    let tp = paths[i].clone();
                    return Action::Run { entry: idx, env_path: Some(tp) };
                }
                i = i + 1;
            }
            proof {
                lemma_first_match_none(p.src(), dv);
            }
            Action::Ignore
        },
    }
}

/// The terminal result of a watch session, from what the error channel
/// delivered: the first fatal error itself, or, when the channel closed
/// without delivering one, a receive error.
pub fn session_outcome(received: Option<Error>) -> (r: Error)
    ensures
        match received {
            Some(e) => r == e,
            None => r is Receive,
        },
{
    match received {
        Some(e) => e,
        None => Error::Receive,
    }
}

} // verus!
