//! The command parser. A line follows a fixed grammar, with a single space
//! between parts:
//!
//! ```text
//! line  := [":" token " "] command [" {" token (" " token)* "}"] [" :" free-text]
//! ```
//!
//! The leading `:token` is the target (kept without its colon), the next
//! token is the command, the brace block holds the arguments (tokens free of
//! braces), and a final `:`-prefixed part is the tail, kept with its colon.
//! A token is one or more characters without a space. The empty line, and
//! any line that does not match the grammar, parses as the no-op command
//! with no target, no arguments and no tail.

use vstd::prelude::*;

verus! {

use vstd::string::StrSliceExecFns;
use vstd::string::StringExecFns;

/// The four parts of a parsed line, as mathematical values.
#[verifier::ext_equal]
pub ghost struct ParsedLine {
    pub target: Option<Seq<char>>,
    pub command: Seq<char>,
    pub args: Seq<Seq<char>>,
    pub tail: Option<Seq<char>>,
}

/// What a non-matching line parses to: the no-op command, bare.
pub open spec fn spec_noop() -> ParsedLine {
    ParsedLine { target: None, command: "noop"@, args: Seq::empty(), tail: None }
}

/// The position of the first `c` in `s`, or `s.len()` where there is none.
pub open spec fn first_of(s: Seq<char>, c: char) -> int
    decreases s.len(),
{
    if s.len() == 0 {
        0
    } else if s[0] == c {
        0
    } else {
        1 + first_of(s.skip(1), c)
    }
}

pub proof fn lemma_first_of(s: Seq<char>, c: char)
    ensures
        0 <= first_of(s, c) <= s.len(),
        forall|j: int| 0 <= j < first_of(s, c) ==> s[j] != c,
        first_of(s, c) < s.len() ==> s[first_of(s, c)] == c,
    decreases s.len(),
{
    if s.len() > 0 && s[0] != c {
        lemma_first_of(s.skip(1), c);
        assert forall|j: int| 0 <= j < first_of(s, c) implies s[j] != c by {
            if j > 0 {
                assert(s.skip(1)[j - 1] != c);
            }
        }
    }
}

/// A scan that stops at `i` pins `first_of` to `i`.
pub proof fn lemma_first_of_is(s: Seq<char>, c: char, i: int)
    requires
        0 <= i <= s.len(),
        forall|j: int| 0 <= j < i ==> s[j] != c,
        i < s.len() ==> s[i] == c,
    ensures
        first_of(s, c) == i,
{
    lemma_first_of(s, c);
}

/// A token of the argument block: no braces anywhere in it.
pub open spec fn token_ok(t: Seq<char>) -> bool {
    forall|j: int| 0 <= j < t.len() ==> t[j] != '{' && t[j] != '}'
}

/// The argument block's inside: one or more brace-free tokens separated by
/// single spaces, or nothing parseable.
pub open spec fn spec_split_tokens(s: Seq<char>) -> Option<Seq<Seq<char>>>
    decreases s.len(),
{
    let fs = first_of(s, ' ');
    if fs <= 0 || fs > s.len() {
        None
    } else if !token_ok(s.subrange(0, fs)) {
        None
    } else if fs == s.len() {
        Some(seq![s])
    } else {
        match spec_split_tokens(s.skip(fs + 1)) {
            Some(r) => Some(seq![s.subrange(0, fs)] + r),
            None => None,
        }
    }
}

/// What follows the command after one space: either the tail (with its
/// colon), or a brace-delimited argument block, optionally followed by one
/// space and the tail.
pub open spec fn spec_parse_args_tail(rem: Seq<char>) -> Option<(Seq<Seq<char>>, Option<
    Seq<char>,
>)> {
    if rem.len() == 0 {
        None
    } else if rem[0] == ':' {
        Some((Seq::empty(), Some(rem)))
    } else if rem[0] == '{' {
        let ce = first_of(rem, '}');
        if ce == rem.len() {
            None
        } else {
            match spec_split_tokens(rem.subrange(1, ce)) {
                Some(toks) => {
                    if ce == rem.len() - 1 {
                        Some((toks, None))
                    } else if rem[ce + 1] == ' ' && ce + 2 < rem.len() && rem[ce + 2] == ':' {
                        Some((toks, Some(rem.skip(ce + 2))))
                    } else {
                        None
                    }
                },
                None => None,
            }
        }
    } else {
        None
    }
}

/// The command token and whatever follows it.
pub open spec fn spec_parse_rest(rest: Seq<char>) -> Option<(Seq<char>, Seq<Seq<char>>, Option<
    Seq<char>,
>)> {
    let cs = first_of(rest, ' ');
    if cs == 0 {
        None
    } else if cs == rest.len() {
        Some((rest, Seq::empty(), None))
    } else {
        match spec_parse_args_tail(rest.skip(cs + 1)) {
            Some(at) => Some((rest.subrange(0, cs), at.0, at.1)),
            None => None,
        }
    }
}

/// The whole grammar: an optional leading `:token ` target, then the rest.
/// A line that matches nothing is the no-op command.
pub open spec fn spec_parse(line: Seq<char>) -> ParsedLine {
    if line.len() == 0 {
        spec_noop()
    } else {
        let fs = first_of(line, ' ');
        if line[0] == ':' && 2 <= fs && fs < line.len() {
            match spec_parse_rest(line.skip(fs + 1)) {
                Some(p) => ParsedLine {
                    target: Some(line.subrange(1, fs)),
                    command: p.0,
                    args: p.1,
                    tail: p.2,
                },
                None => spec_noop(),
            }
        } else {
            match spec_parse_rest(line) {
                Some(p) => ParsedLine { target: None, command: p.0, args: p.1, tail: p.2 },
                None => spec_noop(),
            }
        }
    }
}

/// A parsed command line: the target (without its colon), the command, the
/// argument tokens, and the tail (with its colon).
pub struct CommandParser {
    pub target: Option<String>,
    pub command: String,
    pub args: Vec<String>,
    pub tail: Option<String>,
}

impl CommandParser {
    /// The parts as mathematical values.
    pub open spec fn parsed(&self) -> ParsedLine {
        ParsedLine {
            target: match self.target {
                Some(t) => Some(t@),
                None => None,
            },
            command: self.command@,
            args: self.args.deep_view(),
            tail: match self.tail {
                Some(t) => Some(t@),
                None => None,
            },
        }
    }

    fn noop() -> (r: Self)
        ensures
            r.parsed() == spec_noop(),
    {
        let r = CommandParser {
            target: None,
            command: String::from_str("noop"),
            args: Vec::new(),
            tail: None,
        };
        proof {
            assert(r.parsed() =~= spec_noop());
        }
        r
    }

    /// Parse one line against the grammar; a non-matching line is the no-op
    /// command.
    #[verifier::rlimit(80)]
    #[verifier::spinoff_prover]
    pub fn new(source: String) -> (r: Self)
        ensures
            r.parsed() == spec_parse(source@),
    {
        let s = source.as_str();
        let n = s.unicode_len();
        if n == 0 {
            return Self::noop();
        }
        let fs = find_char(s, 0, n, ' ');
        proof {
            lemma_first_of_is(s@, ' ', fs as int);
        }
        let (target, rest_start): (Option<String>, usize) = if s.get_char(0) == ':' && fs >= 2
            && fs < n {
            (Some(s.substring_char(1, fs).to_owned()), fs + 1)
        } else {
            (None, 0)
        };
        let ghost rest = s@.skip(rest_start as int);
        let cs = find_char(s, rest_start, n, ' ');
        proof {
            assert forall|j: int| 0 <= j < cs - rest_start implies rest[j] != ' ' by {
                assert(rest[j] == s@[j + rest_start]);
            }
            if (cs as int) < rest.len() + rest_start {
                assert(rest[cs - rest_start] == s@[cs as int]);
            }
            lemma_first_of_is(rest, ' ', cs - rest_start);
        }
        if cs == rest_start {
            return Self::noop();
        }
        let command = s.substring_char(rest_start, cs).to_owned();
        if cs == n {
            let r = CommandParser { target, command, args: Vec::new(), tail: None };
            proof {
                assert(rest.subrange(0, cs - rest_start) =~= rest);
                assert(r.parsed() =~= spec_parse(s@));
            }
            return r;
        }
        proof {
            assert(rest.subrange(0, cs - rest_start) =~= s@.subrange(
                rest_start as int,
                cs as int,
            ));
        }
        let rem_start = cs + 1;
        let ghost rem = rest.skip(cs - rest_start + 1);
        proof {
            assert(rem =~= s@.skip(rem_start as int));
        }
        if rem_start >= n {
            return Self::noop();
        }
        let c0 = s.get_char(rem_start);
        if c0 == ':' {
            let tail = s.substring_char(rem_start, n).to_owned();
            let r = CommandParser { target, command, args: Vec::new(), tail: Some(tail) };
            proof {
                assert(rem =~= tail@);
                assert(r.parsed() =~= spec_parse(s@));
            }
            return r;
        }
        if c0 != '{' {
            return Self::noop();
        }
        let ce = find_char(s, rem_start, n, '}');
        proof {
            assert forall|j: int| 0 <= j < ce - rem_start implies rem[j] != '}' by {
                assert(rem[j] == s@[j + rem_start]);
            }
            if (ce as int) < rem.len() + rem_start {
                assert(rem[ce - rem_start] == s@[ce as int]);
            }
            lemma_first_of_is(rem, '}', ce - rem_start);
        }
        if ce == n {
            return Self::noop();
        }
        let args_opt = split_region(s, rem_start + 1, ce);
        proof {
            assert(rem.subrange(1, ce - rem_start) =~= s@.subrange(
                rem_start + 1 as int,
                ce as int,
            ));
        }
        match args_opt {
            None => Self::noop(),
            Some(args) => {
                if ce == n - 1 {
                    let r = CommandParser { target, command, args, tail: None };
                    proof {
                        assert(r.parsed() =~= spec_parse(s@));
                    }
                    return r;
                }
                if s.get_char(ce + 1) == ' ' && ce + 2 < n && s.get_char(ce + 2) == ':' {
                    let tail = s.substring_char(ce + 2, n).to_owned();
                    let r = CommandParser { target, command, args, tail: Some(tail) };
                    proof {
                        assert(rem[ce - rem_start + 1] == s@[ce + 1 as int]);
                        assert(rem[ce - rem_start + 2] == s@[ce + 2 as int]);
                        assert(rem.skip(ce - rem_start + 2) =~= tail@);
                        assert(r.parsed() =~= spec_parse(s@));
                    }
                    return r;
                }
                proof {
                    if (ce - rem_start + 1) < rem.len() {
                        assert(rem[ce - rem_start + 1] == s@[ce + 1 as int]);
                    }
                    if (ce - rem_start + 2) < rem.len() {
                        assert(rem[ce - rem_start + 2] == s@[ce + 2 as int]);
                    }
                }
                Self::noop()
            },
        }
    }

    /// The target, without its colon, where the line named one.
    pub fn target(&self) -> (r: &Option<String>)
        ensures
            r == &self.target,
    {
        &self.target
    }

    /// The command token.
    pub fn command(&self) -> (r: &str)
        ensures
            r@ == self.command@,
    {
        self.command.as_str()
    }

    /// The argument tokens, in order; empty where the line had no block.
    pub fn args(&self) -> (r: &Vec<String>)
        ensures
            r == &self.args,
    {
        &self.args
    }

    /// The tail, with its colon, where the line had one.
    pub fn tail(&self) -> (r: &Option<String>)
        ensures
            r == &self.tail,
    {
        &self.tail
    }
}

/// The position of the first `c` in `s` within `[from, to)`, or `to`.
fn find_char(s: &str, from: usize, to: usize, c: char) -> (r: usize)
    requires
        from <= to <= s@.len(),
    ensures
        from <= r <= to,
        forall|j: int| from <= j < r ==> s@[j] != c,
        r < to ==> s@[r as int] == c,
{
    let mut i = from;
    while i < to
        invariant
            from <= i <= to <= s@.len(),
            forall|j: int| from <= j < i ==> s@[j] != c,
        decreases to - i,
    {
        if s.get_char(i) == c {
            return i;
        }
        i += 1;
    }
    to
}

/// Split the argument block's inside, `s[lo..hi)`, into its tokens.
#[verifier::loop_isolation(false)]
fn split_region(s: &str, lo: usize, hi: usize) -> (r: Option<Vec<String>>)
    requires
        lo <= hi <= s@.len(),
    ensures
        ({
            let spec_r = spec_split_tokens(s@.subrange(lo as int, hi as int));
            match r {
                Some(v) => spec_r == Some(v.deep_view()),
                None => spec_r is None,
            }
        }),
    decreases hi - lo,
{
    let ghost region = s@.subrange(lo as int, hi as int);
    let fs = find_char(s, lo, hi, ' ');
    proof {
        assert forall|j: int| 0 <= j < fs - lo implies region[j] != ' ' by {
            assert(region[j] == s@[j + lo]);
        }
        if (fs as int) < region.len() + lo {
            assert(region[fs - lo] == s@[fs as int]);
        }
        lemma_first_of_is(region, ' ', fs - lo);
    }
    if fs == lo {
        return None;
    }
    let mut j = lo;
    while j < fs
        invariant
            lo <= j <= fs <= hi <= s@.len(),
            forall|k: int| lo <= k < j ==> s@[k] != '{' && s@[k] != '}',
        decreases fs - j,
    {
        if s.get_char(j) == '{' || s.get_char(j) == '}' {
            proof {
                assert(region.subrange(0, fs - lo)[j - lo] == s@[j as int]);
                assert(!token_ok(region.subrange(0, fs - lo)));
            }
            return None;
        }
        j += 1;
    }
    proof {
        assert forall|k: int| 0 <= k < fs - lo implies #[trigger] region.subrange(0, fs - lo)[k]
            != '{' && region.subrange(0, fs - lo)[k] != '}' by {
            assert(region.subrange(0, fs - lo)[k] == s@[k + lo]);
        }
        assert(token_ok(region.subrange(0, fs - lo)));
    }
    let tok = s.substring_char(lo, fs).to_owned();
    if fs == hi {
        let mut v: Vec<String> = Vec::new();
        v.push(tok);
        proof {
            assert(region.subrange(0, fs - lo) =~= region);
            assert(v.deep_view() =~= seq![region]);
        }
        return Some(v);
    }
    match split_region(s, fs + 1, hi) {
        None => {
            proof {
                assert(region.skip(fs - lo + 1) =~= s@.subrange(fs + 1 as int, hi as int));
            }
            None
        },
        Some(rest_v) => {
            let mut v = rest_v;
            v.insert(0, tok);
            proof {
                assert(region.skip(fs - lo + 1) =~= s@.subrange(fs + 1 as int, hi as int));
                assert(region.subrange(0, fs - lo) =~= tok@);
                assert(v.deep_view() =~= seq![region.subrange(0, fs - lo)] + spec_split_tokens(
                    region.skip(fs - lo + 1),
                ).unwrap());
            }
            Some(v)
        },
    }
}

} // verus!
