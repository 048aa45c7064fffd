//! Shell-like tokenization of a command string into an argument vector.
//!
//! A configured command is written as one free-form string; before it can
//! be spawned as a child process it has to be split into the executable
//! name and its arguments.  The rules mimic shell quoting without invoking
//! a shell:
//!
//! - unquoted whitespace separates tokens; runs of it collapse;
//! - a token that begins with `"` or `'` runs, embedded whitespace
//!   included, until the unescaped matching quote, which closes the token;
//!   both quotes are dropped; a missing closing quote ends the token at
//!   the end of the string;
//! - a backslash is dropped and the character after it is taken literally,
//!   even a quote or a separator;
//! - `""` and `''` yield an empty argument;
//! - a quote that appears in the middle of an unquoted token is kept, and
//!   until its partner arrives whitespace no longer separates.
//!
//! Whitespace here means the ASCII whitespace characters.

use crate::chars::{chars_to_string, str_to_chars};
use vstd::prelude::*;

verus! {

/// The characters treated as argument separators: ASCII whitespace.
pub open spec fn is_space(c: char) -> bool {
    c == ' ' || c == '\t' || c == '\n' || c == '\r' || c == '\x0b' || c == '\x0c'
}

/// Executable test for [`is_space`].
pub fn space_char(c: char) -> (r: bool)
    ensures
        r == is_space(c),
{
    c == ' ' || c == '\t' || c == '\n' || c == '\r' || c == '\x0b' || c == '\x0c'
}

/// The two quote characters.
pub open spec fn is_quote(c: char) -> bool {
    c == '"' || c == '\''
}

/// Scan the body of a quoted token: `s` is the text after the opening
/// quote `q`.  Returns the token text and the text after the closing
/// quote.  A backslash is dropped and the next character kept; an
/// unterminated quote runs to the end of the string.
pub open spec fn scan_quoted(s: Seq<char>, q: char) -> (Seq<char>, Seq<char>)
    decreases s.len(),
{
    if s.len() == 0 {
        (Seq::empty(), s)
    } else if s[0] == '\\' {
        if s.len() == 1 {
            (Seq::empty(), Seq::empty())
        } else {
            let r = scan_quoted(s.skip(2), q);
            (seq![s[1]] + r.0, r.1)
        }
    } else if s[0] == q {
        (Seq::empty(), s.skip(1))
    } else {
        let r = scan_quoted(s.skip(1), q);
        (seq![s[0]] + r.0, r.1)
    }
}

/// Scan an unquoted token with quote state `st` (the quote character whose
/// partner is still open, if any).  Returns the token text and the text
/// from the separator on.  Quote characters met here are kept in the
/// token; while one is open, whitespace does not separate.
pub open spec fn scan_plain(s: Seq<char>, st: Option<char>) -> (Seq<char>, Seq<char>)
    decreases s.len(),
{
    if s.len() == 0 {
        (Seq::empty(), s)
    } else if s[0] == '\\' {
        if s.len() == 1 {
            (Seq::empty(), Seq::empty())
        } else {
            let r = scan_plain(s.skip(2), st);
            (seq![s[1]] + r.0, r.1)
        }
    } else if is_quote(s[0]) {
        let st2 = if st is None {
            Some(s[0])
        } else if st == Some(s[0]) {
            None
        } else {
            st
        };
        let r = scan_plain(s.skip(1), st2);
        (seq![s[0]] + r.0, r.1)
    } else if st is None && is_space(s[0]) {
        (Seq::empty(), s)
    } else {
        let r = scan_plain(s.skip(1), st);
        (seq![s[0]] + r.0, r.1)
    }
}

/// Scan one token standing at the front of `s` (whose first character is
/// not whitespace): quoted if it begins with a quote, plain otherwise.
pub open spec fn scan_token(s: Seq<char>) -> (Seq<char>, Seq<char>) {
    if s.len() > 0 && is_quote(s[0]) {
        scan_quoted(s.skip(1), s[0])
    } else {
        scan_plain(s, None)
    }
}

/// The argument tokens of a command string, in order.
///
/// The inner length test only serves the termination checker;
/// [`lemma_scan_token_progress`] shows that it always holds.
pub open spec fn arg_tokens(s: Seq<char>) -> Seq<Seq<char>>
    decreases s.len(),
{
    if s.len() == 0 {
        Seq::empty()
    } else if is_space(s[0]) {
        arg_tokens(s.skip(1))
    } else {
        let r = scan_token(s);
        if r.1.len() < s.len() {
            seq![r.0] + arg_tokens(r.1)
        } else {
            seq![r.0]
        }
    }
}

/// The rest left over by a quoted scan is never longer than its input.
pub proof fn lemma_scan_quoted_len(s: Seq<char>, q: char)
    ensures
        scan_quoted(s, q).1.len() <= s.len(),
    decreases s.len(),
{
    if s.len() == 0 {
    } else if s[0] == '\\' {
        if s.len() > 1 {
            lemma_scan_quoted_len(s.skip(2), q);
        }
    } else if s[0] == q {
    } else {
        lemma_scan_quoted_len(s.skip(1), q);
    }
}

/// The rest left over by a plain scan is never longer than its input.
pub proof fn lemma_scan_plain_len(s: Seq<char>, st: Option<char>)
    ensures
        scan_plain(s, st).1.len() <= s.len(),
    decreases s.len(),
{
    if s.len() == 0 {
    } else if s[0] == '\\' {
        if s.len() > 1 {
            lemma_scan_plain_len(s.skip(2), st);
        }
    } else if is_quote(s[0]) {
        let st2 = if st is None {
            Some(s[0])
        } else if st == Some(s[0]) {
            None
        } else {
            st
        };
        lemma_scan_plain_len(s.skip(1), st2);
    } else if st is None && is_space(s[0]) {
    } else {
        lemma_scan_plain_len(s.skip(1), st);
    }
}

/// A token scan standing at a non-space character consumes at least that
/// character, so tokenization makes progress.
pub proof fn lemma_scan_token_progress(s: Seq<char>)
    requires
        s.len() > 0,
        !is_space(s[0]),
    ensures
        scan_token(s).1.len() < s.len(),
{
    if is_quote(s[0]) {
        lemma_scan_quoted_len(s.skip(1), s[0]);
    } else {
        if s[0] == '\\' {
            if s.len() > 1 {
                lemma_scan_plain_len(s.skip(2), None);
            }
        } else {
            lemma_scan_plain_len(s.skip(1), None);
        }
    }
}

/// How one character is written under the canonical quoting scheme:
/// `"` and `\` get a backslash in front, every other character stands
/// as it is.
pub open spec fn escaped_char(c: char) -> Seq<char> {
    if c == '"' || c == '\\' {
        seq!['\\', c]
    } else {
        seq![c]
    }
}

/// An argument's text written under the canonical quoting scheme,
/// without the surrounding quotes.
pub open spec fn escape_arg(a: Seq<char>) -> Seq<char>
    decreases a.len(),
{
    if a.len() == 0 {
        Seq::empty()
    } else {
        escaped_char(a[0]) + escape_arg(a.skip(1))
    }
}

/// An argument wrapped in double quotes, its text escaped.
pub open spec fn quote_arg(a: Seq<char>) -> Seq<char> {
    seq!['"'] + escape_arg(a) + seq!['"']
}

/// A whole argument vector written back as one command string: each
/// argument quoted, the arguments joined with single spaces.
pub open spec fn quote_argv(args: Seq<Seq<char>>) -> Seq<char>
    decreases args.len(),
{
    if args.len() == 0 {
        Seq::empty()
    } else if args.len() == 1 {
        quote_arg(args[0])
    } else {
        quote_arg(args[0]) + seq![' '] + quote_argv(args.skip(1))
    }
}

/// An empty or all-whitespace command string yields no tokens.
pub proof fn lemma_all_space_yields_no_tokens(s: Seq<char>)
    requires
        forall|i: int| 0 <= i < s.len() ==> is_space(s[i]),
    ensures
        arg_tokens(s) == Seq::<Seq<char>>::empty(),
    decreases s.len(),
{
    if s.len() > 0 {
        assert(is_space(s[0]));
        assert forall|i: int| 0 <= i < s.skip(1).len() implies is_space(s.skip(1)[i]) by {
            assert(s.skip(1)[i] == s[i + 1]);
        }
        lemma_all_space_yields_no_tokens(s.skip(1));
    }
}

/// A quoted scan undoes the canonical escaping: standing after the
/// opening quote of `"escape_arg(a)"` followed by anything, it yields
/// exactly `a` and leaves exactly the text after the closing quote.
pub proof fn lemma_scan_quoted_of_escape(a: Seq<char>, tail: Seq<char>)
    ensures
        scan_quoted(escape_arg(a) + seq!['"'] + tail, '"').0 == a,
        scan_quoted(escape_arg(a) + seq!['"'] + tail, '"').1 == tail,
    decreases a.len(),
{
    let s = escape_arg(a) + seq!['"'] + tail;
    if a.len() == 0 {
        assert(escape_arg(a) =~= Seq::<char>::empty());
        assert(s =~= seq!['"'] + tail);
        assert(s[0] == '"');
        assert(s.skip(1) =~= tail);
        assert(scan_quoted(s, '"').0 =~= a);
    } else {
        let c = a[0];
        let a2 = a.skip(1);
        lemma_scan_quoted_of_escape(a2, tail);
        let s2 = escape_arg(a2) + seq!['"'] + tail;
        if c == '"' || c == '\\' {
            assert(escape_arg(a) == seq!['\\', c] + escape_arg(a2));
            assert(s[0] == '\\');
            assert(s[1] == c);
            assert(s.len() > 1);
            assert(s.skip(2) =~= s2);
            assert(scan_quoted(s, '"').0 == seq![c] + a2);
            assert(seq![c] + a2 =~= a);
        } else {
            assert(escape_arg(a) == seq![c] + escape_arg(a2));
            assert(s[0] == c);
            assert(s.skip(1) =~= s2);
            assert(scan_quoted(s, '"').0 == seq![c] + a2);
            assert(seq![c] + a2 =~= a);
        }
    }
}

/// Quoting and tokenizing are inverse: writing any argument vector back
/// as a command string under the canonical quoting scheme and tokenizing
/// that string returns the same argument vector.
pub proof fn lemma_quote_round_trip(args: Seq<Seq<char>>)
    ensures
        arg_tokens(quote_argv(args)) == args,
    decreases args.len(),
{
    let s = quote_argv(args);
    if args.len() == 0 {
        assert(arg_tokens(s) =~= args);
    } else {
        let a = args[0];
        let tail: Seq<char> = if args.len() == 1 {
            Seq::empty()
        } else {
            seq![' '] + quote_argv(args.skip(1))
        };
        assert(s =~= seq!['"'] + (escape_arg(a) + seq!['"'] + tail));
        assert(s[0] == '"');
        assert(s.skip(1) =~= escape_arg(a) + seq!['"'] + tail);
        lemma_scan_quoted_of_escape(a, tail);
        assert(scan_token(s).0 == a);
        assert(scan_token(s).1 == tail);
        lemma_scan_token_progress(s);
        assert(arg_tokens(s) == seq![a] + arg_tokens(tail));
        if args.len() == 1 {
            assert(arg_tokens(tail) =~= Seq::<Seq<char>>::empty());
            assert(seq![a] + Seq::<Seq<char>>::empty() =~= args);
        } else {
            assert(tail[0] == ' ');
            assert(tail.skip(1) =~= quote_argv(args.skip(1)));
            lemma_quote_round_trip(args.skip(1));
            assert(seq![a] + args.skip(1) =~= args);
        }
    }
}

/// Write an argument vector back as one command string under the
/// canonical quoting scheme; [`tokenize`] recovers the arguments exactly
/// ([`lemma_quote_round_trip`]).
#[verifier::loop_isolation(false)]
pub fn quote_args(args: &Vec<String>) -> (r: String)
    ensures
        r@ == quote_argv(args.deep_view()),
{
    let ghost d = args.deep_view();
    let mut out: Vec<char> = Vec::new();
    proof {
        assert(d.skip(0) =~= d);
    }
    let mut k: usize = 0;
    while k < args.len()
        invariant
            k <= args.len(),
            quote_argv(d) == out@ + quote_argv(d.skip(k as int)),
        decreases args.len() - k,
    {
        let ghost chk = out@;
        proof {
            lemma_quote_argv_step(d, k as int);
        }
        out.push('"');
        let a: &String = &args[k];
        proof {
            assert(d[k as int] == a@);
            assert(a@.take(0) =~= Seq::<char>::empty());
            assert(out@ =~= chk + seq!['"'] + escape_arg(a@.take(0)));
        }
        let cs = str_to_chars(a.as_str());
        let mut j: usize = 0;
        while j < cs.len()
            invariant
                j <= cs.len(),
                cs@ == a@,
                out@ == chk + seq!['"'] + escape_arg(a@.take(j as int)),
            decreases cs.len() - j,
        {
            let c = cs[j];
            proof {
                lemma_escape_snoc(a@, j as int);
            }
            if c == '"' || c == '\\' {
                out.push('\\');
            }
            out.push(c);
            j = j + 1;
            proof {
                assert(out@ =~= chk + seq!['"'] + escape_arg(a@.take(j as int)));
            }
        }
        proof {
            assert(a@.take(cs@.len() as int) =~= a@);
        }
        out.push('"');
        if k + 1 < args.len() {
            out.push(' ');
        }
        k = k + 1;
        proof {
            assert(out@ =~= chk + quote_arg(a@) + if k < args.len() {
                seq![' ']
            } else {
                Seq::<char>::empty()
            });
            assert(quote_argv(d) =~= out@ + quote_argv(d.skip(k as int)));
        }
    }
    proof {
        assert(d.skip(args@.len() as int) =~= Seq::<Seq<char>>::empty());
        assert(out@ + Seq::<char>::empty() =~= out@);
    }
    chars_to_string(out)
}

/// Unfold one argument out of [`quote_argv`] of a suffix.
proof fn lemma_quote_argv_step(d: Seq<Seq<char>>, k: int)
    requires
        0 <= k < d.len(),
    ensures
        quote_argv(d.skip(k)) == quote_arg(d[k]) + if k + 1 < d.len() {
            seq![' '] + quote_argv(d.skip(k + 1))
        } else {
            Seq::<char>::empty()
        },
{
    let x = d.skip(k);
    assert(x[0] == d[k]);
    if k + 1 < d.len() {
        assert(x.skip(1) =~= d.skip(k + 1));
        assert(quote_arg(x[0]) + seq![' '] + quote_argv(x.skip(1)) =~= quote_arg(d[k]) + (seq![' ']
            + quote_argv(d.skip(k + 1))));
    } else {
        assert(x.len() == 1);
        assert(quote_arg(d[k]) + Seq::<char>::empty() =~= quote_arg(d[k]));
    }
}

/// Escaping one more character appends that character's escaped form.
proof fn lemma_escape_snoc(a: Seq<char>, j: int)
    requires
        0 <= j < a.len(),
    ensures
        escape_arg(a.take(j + 1)) == escape_arg(a.take(j)) + escaped_char(a[j]),
    decreases j,
{
    if j == 0 {
        assert(a.take(1) =~= seq![a[0]]);
        assert(a.take(0) =~= Seq::<char>::empty());
        assert(seq![a[0]].skip(1) =~= Seq::<char>::empty());
        assert(escape_arg(seq![a[0]]) == escaped_char(a[0]) + escape_arg(Seq::<char>::empty()));
        assert(escaped_char(a[0]) + Seq::<char>::empty() =~= escaped_char(a[0]));
        assert(Seq::<char>::empty() + escaped_char(a[0]) =~= escaped_char(a[0]));
    } else {
        let a2 = a.skip(1);
        lemma_escape_snoc(a2, j - 1);
        assert(a.take(j + 1).skip(1) =~= a2.take(j));
        assert(a.take(j).skip(1) =~= a2.take(j - 1));
        assert(a.take(j + 1)[0] == a[0]);
        assert(a.take(j)[0] == a[0]);
        assert(a2[j - 1] == a[j]);
        assert(escape_arg(a.take(j + 1)) == escaped_char(a[0]) + (escape_arg(a2.take(j - 1))
            + escaped_char(a[j])));
        assert(escaped_char(a[0]) + (escape_arg(a2.take(j - 1)) + escaped_char(a[j])) =~= (
        escaped_char(a[0]) + escape_arg(a2.take(j - 1))) + escaped_char(a[j]));
        assert(escape_arg(a.take(j)) == escaped_char(a[0]) + escape_arg(a2.take(j - 1)));
    }
}

/// Iterator over the arguments of a command string.
///
/// `split_whitespace` would not do: an argument may be quoted and hold
/// embedded whitespace.  Each call of [`ArgIter::next`] yields the next
/// token of [`arg_tokens`].
pub struct ArgIter {
    chars: Vec<char>,
    pos: usize,
}

impl ArgIter {
    /// The command text being scanned.
    pub closed spec fn src(&self) -> Seq<char> {
        self.chars@
    }

    /// The current scan position.
    pub closed spec fn position(&self) -> int {
        self.pos as int
    }

    /// The position never runs past the end of the text.
    pub open spec fn wf(&self) -> bool {
        0 <= self.position() <= self.src().len()
    }

    /// Start scanning at the front of `source`.
    pub fn new(source: &str) -> (r: ArgIter)
        ensures
            r.src() == source@,
            r.position() == 0,
            r.wf(),
    {
        ArgIter { chars: str_to_chars(source), pos: 0 }
    }

    /// Scan the body of a quoted token whose opening quote `q` was just
    /// consumed, leaving the position after the closing quote.
    #[verifier::loop_isolation(false)]
    fn take_quoted(&mut self, q: char) -> (tok: Vec<char>)
        requires
            old(self).wf(),
        ensures
            final(self).wf(),
            final(self).src() == old(self).src(),
            old(self).position() <= final(self).position(),
            scan_quoted(old(self).src().skip(old(self).position()), q).0 == tok@,
            scan_quoted(old(self).src().skip(old(self).position()), q).1 == final(self).src().skip(
                final(self).position(),
            ),
    {
        let ghost s = self.chars@;
        let ghost p0 = self.pos as int;
        let n = self.chars.len();
        let mut tok: Vec<char> = Vec::new();
        loop
            invariant
                self.chars@ == s,
                n == s.len(),
                p0 <= self.pos <= n,
                scan_quoted(s.skip(p0), q).0 == tok@ + scan_quoted(s.skip(self.pos as int), q).0,
                scan_quoted(s.skip(p0), q).1 == scan_quoted(s.skip(self.pos as int), q).1,
            decreases n - self.pos,
        {
            let ghost p = self.pos as int;
            if self.pos >= n {
                proof {
                    assert(s.skip(p) =~= Seq::<char>::empty());
                    assert(tok@ + Seq::<char>::empty() =~= tok@);
                }
                return tok;
            }
            let c = self.chars[self.pos];
            if c == '\\' {
                if self.pos + 1 < n {
                    tok.push(self.chars[self.pos + 1]);
                    self.pos = self.pos + 2;
                    proof {
                        assert(s.skip(p).skip(2) =~= s.skip(p + 2));
                        assert(tok@ + scan_quoted(s.skip(p + 2), q).0 =~= (tok@.drop_last()
                            + seq![s[p + 1]]) + scan_quoted(s.skip(p + 2), q).0);
                        assert(tok@.drop_last() + (seq![s[p + 1]] + scan_quoted(
                            s.skip(p + 2),
                            q,
                        ).0) =~= (tok@.drop_last() + seq![s[p + 1]]) + scan_quoted(
                            s.skip(p + 2),
                            q,
                        ).0);
                    }
                } else {
                    self.pos = n;
                    proof {
                        assert(scan_quoted(s.skip(p), q).1 =~= Seq::<char>::empty());
                        assert(s.skip(n as int) =~= Seq::<char>::empty());
                        assert(tok@ + Seq::<char>::empty() =~= tok@);
                    }
                    return tok;
                }
            } else if c == q {
                self.pos = self.pos + 1;
                proof {
                    assert(s.skip(p).skip(1) =~= s.skip(p + 1));
                    assert(tok@ + Seq::<char>::empty() =~= tok@);
                }
                return tok;
            } else {
                tok.push(c);
                self.pos = self.pos + 1;
                proof {
                    assert(s.skip(p).skip(1) =~= s.skip(p + 1));
                    assert(tok@.drop_last() + (seq![s[p]] + scan_quoted(s.skip(p + 1), q).0) =~= (
                    tok@.drop_last() + seq![s[p]]) + scan_quoted(s.skip(p + 1), q).0);
                    assert(tok@ =~= tok@.drop_last() + seq![s[p]]);
                }
            }
        }
    }

    /// Scan an unquoted token standing at the current position, leaving
    /// the position on the separator (or at the end of the text).
    #[verifier::loop_isolation(false)]
    fn take_plain(&mut self) -> (tok: Vec<char>)
        requires
            old(self).wf(),
        ensures
            final(self).wf(),
            final(self).src() == old(self).src(),
            old(self).position() <= final(self).position(),
            scan_plain(old(self).src().skip(old(self).position()), None).0 == tok@,
            scan_plain(old(self).src().skip(old(self).position()), None).1 == final(self).src().skip(
                final(self).position(),
            ),
    {
        let ghost s = self.chars@;
        let ghost p0 = self.pos as int;
        let n = self.chars.len();
        let mut tok: Vec<char> = Vec::new();
        let mut st: Option<char> = None;
        loop
            invariant
                self.chars@ == s,
                n == s.len(),
                p0 <= self.pos <= n,
                scan_plain(s.skip(p0), None).0 == tok@ + scan_plain(s.skip(self.pos as int), st).0,
                scan_plain(s.skip(p0), None).1 == scan_plain(s.skip(self.pos as int), st).1,
            decreases n - self.pos,
        {
            let ghost p = self.pos as int;
            let ghost st0 = st;
            if self.pos >= n {
                proof {
                    assert(s.skip(p) =~= Seq::<char>::empty());
                    assert(tok@ + Seq::<char>::empty() =~= tok@);
                }
                return tok;
            }
            let c = self.chars[self.pos];
            if c == '\\' {
                if self.pos + 1 < n {
                    tok.push(self.chars[self.pos + 1]);
                    self.pos = self.pos + 2;
                    proof {
                        assert(s.skip(p).skip(2) =~= s.skip(p + 2));
                        assert(tok@.drop_last() + (seq![s[p + 1]] + scan_plain(
                            s.skip(p + 2),
                            st0,
                        ).0) =~= (tok@.drop_last() + seq![s[p + 1]]) + scan_plain(
                            s.skip(p + 2),
                            st0,
                        ).0);
                        assert(tok@ =~= tok@.drop_last() + seq![s[p + 1]]);
                    }
                } else {
                    self.pos = n;
                    proof {
                        assert(scan_plain(s.skip(p), st0).1 =~= Seq::<char>::empty());
                        assert(s.skip(n as int) =~= Seq::<char>::empty());
                        assert(tok@ + Seq::<char>::empty() =~= tok@);
                    }
                    return tok;
                }
            } else if c == '"' || c == '\'' {
                let st2: Option<char> = match st {
                    None => Some(c),
                    Some(open) => if open == c {
                        None
                    } else {
                        Some(open)
                    },
                };
                tok.push(c);
                st = st2;
                self.pos = self.pos + 1;
                proof {
                    assert(s.skip(p).skip(1) =~= s.skip(p + 1));
                    assert(tok@.drop_last() + (seq![s[p]] + scan_plain(s.skip(p + 1), st2).0) =~= (
                    tok@.drop_last() + seq![s[p]]) + scan_plain(s.skip(p + 1), st2).0);
                    assert(tok@ =~= tok@.drop_last() + seq![s[p]]);
                }
            } else {
                let is_sep = match st {
                    None => space_char(c),
                    Some(_) => false,
                };
                if is_sep {
                    proof {
                        assert(tok@ + Seq::<char>::empty() =~= tok@);
                    }
                    return tok;
                }
                tok.push(c);
                self.pos = self.pos + 1;
                proof {
                    assert(s.skip(p).skip(1) =~= s.skip(p + 1));
                    assert(tok@.drop_last() + (seq![s[p]] + scan_plain(s.skip(p + 1), st0).0) =~= (
                    tok@.drop_last() + seq![s[p]]) + scan_plain(s.skip(p + 1), st0).0);
                    assert(tok@ =~= tok@.drop_last() + seq![s[p]]);
                }
            }
        }
    }

    /// Yield the next argument token, or `None` when only whitespace is
    /// left.
    #[verifier::loop_isolation(false)]
    pub fn next(&mut self) -> (r: Option<String>)
        requires
            old(self).wf(),
        ensures
            final(self).wf(),
            final(self).src() == old(self).src(),
            r is None ==> arg_tokens(old(self).src().skip(old(self).position()))
                == Seq::<Seq<char>>::empty() && final(self).position() == final(self).src().len(),
            r matches Some(t) ==> arg_tokens(old(self).src().skip(old(self).position())) == seq![
                t@,
            ] + arg_tokens(final(self).src().skip(final(self).position())) && old(self).position()
                < final(self).position(),
    {
        let ghost s = self.chars@;
        let ghost p0 = self.pos as int;
        let n = self.chars.len();
        while self.pos < n && space_char(self.chars[self.pos])
            invariant
                self.chars@ == s,
                n == s.len(),
                p0 <= self.pos <= n,
                arg_tokens(s.skip(p0)) == arg_tokens(s.skip(self.pos as int)),
            decreases n - self.pos,
        {
            proof {
                assert(s.skip(self.pos as int).skip(1) =~= s.skip(self.pos as int + 1));
            }
            self.pos = self.pos + 1;
        }
        if self.pos >= n {
            proof {
                assert(s.skip(n as int) =~= Seq::<char>::empty());
            }
            return None;
        }
        let ghost t0 = self.pos as int;
        let ghost suffix = s.skip(t0);
        proof {
            assert(suffix[0] == s[t0]);
            lemma_scan_token_progress(suffix);
        }
        let c = self.chars[self.pos];
        let tok: Vec<char>;
        if c == '"' || c == '\'' {
            self.pos = self.pos + 1;
            proof {
                assert(suffix.skip(1) =~= s.skip(t0 + 1));
            }
            tok = self.take_quoted(c);
        } else {
            tok = self.take_plain();
        }
        proof {
            assert(scan_token(suffix).0 == tok@);
            assert(scan_token(suffix).1 == s.skip(self.pos as int));
            assert(arg_tokens(suffix) == seq![tok@] + arg_tokens(s.skip(self.pos as int)));
            assert(s.skip(self.pos as int).len() < suffix.len());
        }
        Some(chars_to_string(tok))
    }
}

/// Split a command string into its argument tokens.
///
/// The first token is the executable name, the rest are its arguments;
/// an empty or all-whitespace command yields an empty vector.
pub fn tokenize(source: &str) -> (r: Vec<String>)
    ensures
        r.deep_view() == arg_tokens(source@),
{
    let mut it = ArgIter::new(source);
    let mut out: Vec<String> = Vec::new();
    proof {
        assert(source@.skip(0) =~= source@);
    }
    loop
        invariant
            it.wf(),
            it.src() == source@,
            arg_tokens(source@) == out.deep_view() + arg_tokens(source@.skip(it.position())),
        decreases source@.len() - it.position(),
    {
        let ghost before = out.deep_view();
        let ghost rest = arg_tokens(source@.skip(it.position()));
        match it.next() {
            Some(t) => {
                let ghost tv = t@;
                out.push(t);
                proof {
                    assert(out.deep_view() =~= before + seq![tv]);
                    assert(before + (seq![tv] + arg_tokens(source@.skip(it.position()))) =~= (
                    before + seq![tv]) + arg_tokens(source@.skip(it.position())));
                }
            },
            None => {
                proof {
                    assert(before + Seq::<Seq<char>>::empty() =~= before);
                }
                return out;
            },
        }
    }
}

} // verus!
