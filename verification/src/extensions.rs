//! String helpers: verified character-level comparison and splitting, and a
//! random-identifier generator.

use vstd::prelude::*;

verus! {

use vstd::string::StrSliceExecFns;
use rand::distributions::DistString;

/// A code point of the ASCII alphanumeric set: a letter or a digit.
pub open spec fn is_alnum_char(c: char) -> bool {
    (48 <= c as u32 && c as u32 <= 57) || (65 <= c as u32 && c as u32 <= 90) || (97 <= c as u32
        && c as u32 <= 122)
}

/// Character-by-character string comparison.
pub fn str_eq(a: &str, b: &str) -> (r: bool)
    ensures
        r == (a@ == b@),
{
    let na = a.unicode_len();
    let nb = b.unicode_len();
    if na != nb {
        proof {
            if a@ == b@ {
                assert(a@.len() == b@.len());
            }
        }
        return false;
    }
    let mut i: usize = 0;
    while i < na
        invariant
            na == a@.len(),
            na == b@.len(),
            i <= na,
            forall|j: int| 0 <= j < i ==> a@[j] == b@[j],
        decreases na - i,
    {
        if a.get_char(i) != b.get_char(i) {
            proof {
                if a@ == b@ {
                    assert(a@[i as int] == b@[i as int]);
                }
            }
            return false;
        }
        i += 1;
    }
    proof {
        assert(a@ =~= b@);
    }
    true
}

/// The position of the leftmost occurrence of `d` at or after the start of
/// `s`, or `-1` where `s` never contains `d`.
pub open spec fn first_match(s: Seq<char>, d: Seq<char>) -> int
    decreases s.len(),
{
    if d.len() <= 0 {
        0
    } else if s.len() < d.len() {
        -1
    } else if s.subrange(0, d.len() as int) == d {
        0
    } else {
        let r = first_match(s.skip(1), d);
        if r == -1 {
            -1
        } else {
            1 + r
        }
    }
}

pub proof fn lemma_first_match(s: Seq<char>, d: Seq<char>)
    ensures
        first_match(s, d) == -1 ==> forall|i: int|
            0 <= i && i + d.len() <= s.len() ==> #[trigger] s.subrange(i, i + d.len()) != d,
        first_match(s, d) != -1 ==> 0 <= first_match(s, d) && first_match(s, d) + d.len()
            <= s.len() && s.subrange(first_match(s, d), first_match(s, d) + d.len()) == d
            && forall|i: int|
            0 <= i < first_match(s, d) ==> #[trigger] s.subrange(i, i + d.len()) != d,
    decreases s.len(),
{
    if d.len() <= 0 {
        assert(s.subrange(0, 0) =~= d);
    } else if s.len() >= d.len() && s.subrange(0, d.len() as int) != d {
        lemma_first_match(s.skip(1), d);
        assert forall|i: int| 1 <= i && i + d.len() <= s.len() implies #[trigger] s.subrange(
            i,
            i + d.len(),
        ) == s.skip(1).subrange(i - 1, i - 1 + d.len()) by {
            assert(s.subrange(i, i + d.len()) =~= s.skip(1).subrange(i - 1, i - 1 + d.len()));
        }
    }
}

/// The parts of `s` between successive leftmost occurrences of the
/// delimiter `d`: joining the parts with `d` gives `s` back, and splitting a
/// string free of `d` gives that one string.
pub open spec fn spec_split(s: Seq<char>, d: Seq<char>) -> Seq<Seq<char>>
    decreases s.len(),
{
    if d.len() <= 0 {
        seq![s]
    } else {
        let m = first_match(s, d);
        if m < 0 || m + d.len() > s.len() {
            seq![s]
        } else {
            seq![s.subrange(0, m)] + spec_split(s.skip(m + d.len()), d)
        }
    }
}

/// Whether `d` occurs at position `i` of `s`.
fn match_at(s: &str, i: usize, d: &str) -> (r: bool)
    requires
        i + d@.len() <= s@.len(),
    ensures
        r == (s@.subrange(i as int, i + d@.len()) == d@),
{
    let n = s.unicode_len();
    let dn = d.unicode_len();
    let mut j: usize = 0;
    while j < dn
        invariant
            n == s@.len(),
            dn == d@.len(),
            i + dn <= n,
            j <= dn,
            forall|k: int| 0 <= k < j ==> s@[i + k] == d@[k],
        decreases dn - j,
    {
        if s.get_char(i + j) != d.get_char(j) {
            proof {
                assert(s@.subrange(i as int, i + d@.len())[j as int] == s@[i + j]);
            }
            return false;
        }
        j += 1;
    }
    proof {
        assert(s@.subrange(i as int, i + d@.len()) =~= d@);
    }
    true
}

/// The leftmost occurrence of `d` at or after `from`.
fn find_delim(s: &str, from: usize, d: &str) -> (r: Option<usize>)
    requires
        from <= s@.len(),
        d@.len() >= 1,
    ensures
        match r {
            Some(m) => from <= m && m + d@.len() <= s@.len() && s@.subrange(
                m as int,
                m + d@.len(),
            ) == d@ && forall|i: int|
                from <= i < m ==> #[trigger] s@.subrange(i, i + d@.len()) != d@,
            None => forall|i: int|
                from <= i && i + d@.len() <= s@.len() ==> #[trigger] s@.subrange(i, i + d@.len())
                    != d@,
        },
{
    let n = s.unicode_len();
    let dn = d.unicode_len();
    if dn > n {
        return None;
    }
    let mut i = from;
    while i <= n - dn
        invariant
            n == s@.len(),
            dn == d@.len(),
            1 <= dn <= n,
            from <= i,
            forall|k: int| from <= k < i ==> #[trigger] s@.subrange(k, k + d@.len()) != d@,
        decreases n - i,
    {
        if match_at(s, i, d) {
            return Some(i);
        }
        i += 1;
    }
    None
}

/// The tail of the split, starting at `start`.
fn split_from(s: &str, start: usize, d: &str) -> (r: Vec<String>)
    requires
        start <= s@.len(),
        d@.len() >= 1,
    ensures
        r.deep_view() == spec_split(s@.skip(start as int), d@),
    decreases s@.len() - start,
{
    let n = s.unicode_len();
    let ghost suffix = s@.skip(start as int);
    match find_delim(s, start, d) {
        None => {
            let mut v: Vec<String> = Vec::new();
            v.push(s.substring_char(start, n).to_owned());
            proof {
                assert forall|i: int| 0 <= i && i + d@.len() <= suffix.len() implies #[trigger] suffix.subrange(i, i + d@.len()) != d@ by {
                    assert(suffix.subrange(i, i + d@.len()) =~= s@.subrange(
                        i + start,
                        i + start + d@.len(),
                    ));
                }
                lemma_first_match(suffix, d@);
                if first_match(suffix, d@) != -1 {
                    assert(false);
                }
                assert(suffix =~= s@.subrange(start as int, n as int));
                assert(v.deep_view() =~= seq![suffix]);
            }
            v
        },
        Some(m) => {
            let tok = s.substring_char(start, m).to_owned();
            let next = m + d.unicode_len();
            let rest = split_from(s, next, d);
            let mut v = rest;
            v.insert(0, tok);
            proof {
                let fm = m - start;
                assert(suffix.subrange(fm, fm + d@.len()) =~= s@.subrange(
                    m as int,
                    m + d@.len(),
                ));
                assert forall|i: int| 0 <= i < fm implies #[trigger] suffix.subrange(i, i + d@.len()) != d@ by {
                    assert(suffix.subrange(i, i + d@.len()) =~= s@.subrange(
                        i + start,
                        i + start + d@.len(),
                    ));
                }
                lemma_first_match(suffix, d@);
                if first_match(suffix, d@) == -1 {
                    assert(false);
                }
                if first_match(suffix, d@) < fm {
                    assert(suffix.subrange(
                        first_match(suffix, d@),
                        first_match(suffix, d@) + d@.len(),
                    ) == d@);
                    assert(false);
                }
                if first_match(suffix, d@) > fm {
                    assert(false);
                }
                assert(first_match(suffix, d@) == fm);
                assert(suffix.subrange(0, fm) =~= tok@);
                assert(suffix.skip(fm + d@.len()) =~= s@.skip(next as int));
                assert(v.deep_view() =~= seq![suffix.subrange(0, fm)] + spec_split(
                    suffix.skip(fm + d@.len()),
                    d@,
                ));
            }
            v
        },
    }
}

/// Extensions on the built-in string type: a random identifier, a verified
/// split, and plain conversions.
pub trait StringExtension: View<V = Seq<char>> {
    /// A fresh string of `len` ASCII letters and digits, drawn at random.
    fn random(len: i64) -> (r: String)
        requires
            0 <= len,
            len <= usize::MAX,
        ensures
            r@.len() == len,
            forall|i: int| 0 <= i < r@.len() ==> is_alnum_char(r@[i]),
    ;

    /// The parts of this string between occurrences of the delimiter.
    fn baka_split(&self, delim: &str) -> (r: Vec<String>)
        requires
            delim@.len() >= 1,
        ensures
            r.deep_view() == spec_split(self@, delim@),
    ;

    /// This string's characters, borrowed.
    fn to_str(&self) -> (r: &str)
        ensures
            r@ == self@,
    ;

    /// This string's characters, alive for the rest of the process.
    fn to_static_str(&self) -> (r: &'static str)
        ensures
            r@ == self@,
    ;
}

impl StringExtension for String {
    fn random(len: i64) -> (r: String) {
        sample_alphanumeric(len as usize)
    }

    fn baka_split(&self, delim: &str) -> (r: Vec<String>) {
        let r = split_from(self.as_str(), 0, delim);
        proof {
            assert(self@.skip(0) =~= self@);
        }
        r
    }

    fn to_str(&self) -> (r: &str) {
        self.as_str()
    }

    fn to_static_str(&self) -> (r: &'static str) {
        leak_string(self)
    }
}

/// Relies on rand's `Alphanumeric` distribution: `sample_string` appends
/// exactly `len` characters, each drawn from the ASCII letters and digits.
#[verifier::external_body]
fn sample_alphanumeric(len: usize) -> (r: String)
    ensures
        r@.len() == len,
        forall|i: int| 0 <= i < r@.len() ==> is_alnum_char(r@[i]),
{
    rand::distributions::Alphanumeric.sample_string(&mut rand::thread_rng(), len)
}

/// Relies on `Box::leak`: the leaked string holds the same characters as the
/// boxed one and lives for the rest of the process.
#[verifier::external_body]
fn leak_string(s: &String) -> (r: &'static str)
    ensures
        r@ == s@,
{
    Box::leak(s.clone().into_boxed_str())
}

} // verus!
