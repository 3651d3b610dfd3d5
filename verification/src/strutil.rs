//! Character-level string utilities: pattern search, substring extraction,
//! and the few primitive string operations the library takes on trust.

use vstd::prelude::*;
use crate::error::{Error, ErrorType};

verus! {

/// Whether `pat` occurs in `s` starting exactly at position `i`.
pub open spec fn match_at(s: Seq<char>, pat: Seq<char>, i: int) -> bool {
    0 <= i && i + pat.len() <= s.len() && s.subrange(i, i + pat.len()) == pat
}

/// Whether `p` is the first occurrence of `pat` in `s` at or after `from`.
pub open spec fn is_first_match_from(s: Seq<char>, pat: Seq<char>, from: int, p: int) -> bool {
    &&& from <= p
    &&& match_at(s, pat, p)
    &&& forall|q: int| from <= q < p ==> !match_at(s, pat, q)
}

/// The first occurrence of a pattern at or after a position is unique.
pub proof fn lemma_first_match_unique(s: Seq<char>, pat: Seq<char>, from: int, p1: int, p2: int)
    requires
        is_first_match_from(s, pat, from, p1),
        is_first_match_from(s, pat, from, p2),
    ensures
        p1 == p2,
{
    if p1 < p2 {
        assert(!match_at(s, pat, p1));
    } else if p2 < p1 {
        assert(!match_at(s, pat, p2));
    }
}

/// Relies on String::push: appends exactly the one character.
#[verifier::external_body]
pub fn push_char(s: &mut String, c: char)
    ensures
        final(s)@ == old(s)@ + seq![c],
{
    s.push(c);
}

/// Whether two string slices hold the same characters.
pub fn str_eq(a: &str, b: &str) -> (r: bool)
    ensures
        r == (a@ == b@),
{
    let n = a.unicode_len();
    if n != b.unicode_len() {
        return false;
    }
    if n == 0 {
        proof {
            assert(a@ =~= b@);
        }
        return true;
    }
    let r = match_at_exec(a, b, 0);
    proof {
        if match_at(a@, b@, 0) {
            assert(a@.subrange(0, b@.len() as int) =~= a@);
        }
        if a@ == b@ {
            assert(a@.subrange(0, b@.len() as int) =~= b@);
        }
    }
    r
}

/// Whether `pat` occurs in `s` at position `i`, decided by comparing the
/// characters one by one.
pub fn match_at_exec(s: &str, pat: &str, i: usize) -> (r: bool)
    requires
        i + pat@.len() <= s@.len(),
    ensures
        r == match_at(s@, pat@, i as int),
{
    let n = s.unicode_len();
    let m = pat.unicode_len();
    let mut k: usize = 0;
    while k < m
        invariant
            n == s@.len(),
            m == pat@.len(),
            i + m <= n,
            k <= m,
            forall|j: int| 0 <= j < k ==> s@[i + j] == pat@[j],
        decreases m - k,
    {
        if s.get_char(i + k) != pat.get_char(k) {
            proof {
                assert(s@.subrange(i as int, i + pat@.len())[k as int] != pat@[k as int]);
            }
            return false;
        }
        k += 1;
    }
    proof {
        assert(s@.subrange(i as int, i + pat@.len()) =~= pat@);
    }
    true
}

/// A copy of the characters of `s` from position `from` to the end.
pub fn suffix_string(s: &str, from: usize) -> (r: String)
    requires
        from <= s@.len(),
    ensures
        r@ == s@.subrange(from as int, s@.len() as int),
{
    let n = s.unicode_len();
    let mut out = String::new();
    let mut k: usize = from;
    while k < n
        invariant
            n == s@.len(),
            from <= k <= n,
            out@ == s@.subrange(from as int, k as int),
        decreases n - k,
    {
        let c = s.get_char(k);
        push_char(&mut out, c);
        k += 1;
        proof {
            assert(out@ =~= s@.subrange(from as int, k as int));
        }
    }
    out
}

/// Extracts the substring of `string` that starts at `*string_offset` and
/// ends just before the first occurrence of `separator` at or after that
/// position, advancing `*string_offset` past the extracted text (and past
/// the separator too when `strip_separator` is set). Positions count
/// characters. An exhausted offset or an absent separator is an
/// invalid-parameter error, and then the offset is left unchanged. A
/// separator has at least one character.
pub fn substring_until_pattern(
    string: &str,
    string_offset: &mut usize,
    separator: &str,
    strip_separator: bool,
) -> (r: Result<String, Error>)
    requires
        separator@.len() >= 1,
    ensures
        match r {
            Ok(sub) => {
                &&& exists|p: int|
                    {
                        &&& *old(string_offset) <= p
                        &&& #[trigger] match_at(string@, separator@, p)
                        &&& (forall|q: int|
                            *old(string_offset) <= q < p ==> !match_at(string@, separator@, q))
                        &&& sub@ == string@.subrange(*old(string_offset) as int, p)
                        &&& *final(string_offset) == p + (if strip_separator {
                            separator@.len() as int
                        } else {
                            0
                        })
                    }
            },
            Err(e) => {
                &&& e.error_type is InvalidParameter
                &&& *final(string_offset) == *old(string_offset)
                &&& (*old(string_offset) >= string@.len() || (forall|q: int|
                    *old(string_offset) <= q ==> !match_at(string@, separator@, q)))
            },
        },
{
    let n = string.unicode_len();
    let m = separator.unicode_len();
    if *string_offset >= n {
        return Err(Error::bare(ErrorType::InvalidParameter));
    }
    if m > n {
        proof {
            assert forall|q: int| *old(string_offset) <= q implies !match_at(
                string@,
                separator@,
                q,
            ) by {}
        }
        return Err(Error::bare(ErrorType::InvalidParameter));
    }
    let mut p: usize = *string_offset;
    while p <= n - m
        invariant
            n == string@.len(),
            m == separator@.len(),
            1 <= m <= n,
            *string_offset == *old(string_offset),
            *string_offset <= p,
            forall|q: int| *string_offset <= q < p ==> !match_at(string@, separator@, q),
        decreases n - m + 1 - p,
    {
        if match_at_exec(string, separator, p) {
            // found the first occurrence: copy out the characters before it
            let mut sub = String::new();
            let mut k: usize = *string_offset;
            while k < p
                invariant
                    *string_offset <= k <= p,
                    m >= 1,
                    p + m <= string@.len(),
                    sub@ == string@.subrange(*string_offset as int, k as int),
                decreases p - k,
            {
                let c = string.get_char(k);
                push_char(&mut sub, c);
                k += 1;
                proof {
                    assert(sub@ =~= string@.subrange(*string_offset as int, k as int));
                }
            }
            let ghost old_off = *string_offset;
            if strip_separator {
                *string_offset = p + m;
            } else {
                *string_offset = p;
            }
            proof {
                assert(sub@ == string@.subrange(old_off as int, p as int));
                assert(match_at(string@, separator@, p as int));
            }
            return Ok(sub);
        }
        p += 1;
    }
    proof {
        assert forall|q: int| *old(string_offset) <= q implies !match_at(
            string@,
            separator@,
            q,
        ) by {
            if q < p {
            } else {
                assert(q + separator@.len() > string@.len());
            }
        }
    }
    Err(Error::bare(ErrorType::InvalidParameter))
}

} // verus!
