//! Small executable helpers over `String` and `&str`.
use vstd::prelude::*;

verus! {

/// Relies on std's `String::push`: appends the given character to the end of
/// the string.
#[verifier::external_body]
pub fn push_char(s: &mut String, c: char)
    ensures
        final(s)@ == old(s)@.push(c),
{
    s.push(c);
}

/// True when `pat` is a prefix of `s`; the remainder after that prefix.
pub open spec fn spec_strip_prefix(s: Seq<char>, pat: Seq<char>) -> Option<Seq<char>> {
    if pat.len() <= s.len() && s.subrange(0, pat.len() as int) == pat {
        Some(s.subrange(pat.len() as int, s.len() as int))
    } else {
        None
    }
}

/// Stripping a literal prefix off a string that starts with it leaves the rest.
pub proof fn lemma_strip_prefix_of_concat(pat: Seq<char>, rest: Seq<char>)
    ensures
        spec_strip_prefix(pat + rest, pat) == Some(rest),
{
    let s = pat + rest;
    assert(s.subrange(0, pat.len() as int) =~= pat);
    assert(s.subrange(pat.len() as int, s.len() as int) =~= rest);
}

/// Checks whether `pat` is a prefix of `s`; on success returns what follows it.
pub fn strip_prefix<'a>(s: &'a str, pat: &str) -> (r: Option<&'a str>)
    ensures
        match r {
            Some(rest) => spec_strip_prefix(s@, pat@) == Some(rest@),
            None => spec_strip_prefix(s@, pat@) is None,
        },
{
    let n = s.unicode_len();
    let m = pat.unicode_len();
    if m > n {
        return None;
    }
    let mut i: usize = 0;
    while i < m
        invariant
            i <= m,
            m <= n,
            n == s@.len(),
            m == pat@.len(),
            forall|j: int| 0 <= j < i ==> s@[j] == pat@[j],
        decreases m - i,
    {
        if s.get_char(i) != pat.get_char(i) {
            assert(s@.subrange(0, m as int)[i as int] != pat@[i as int]);
            return None;
        }
        i += 1;
    }
    let rest = s.substring_char(m, n);
    proof {
        assert(s@.subrange(0, m as int) =~= pat@);
    }
    Some(rest)
}

} // verus!
