//! Decimal rendering and parsing of unsigned 64-bit values, used for the
//! byte-range lines and length fields of range requests and responses.

use vstd::prelude::*;
use crate::strutil::push_char;

verus! {

/// The character for one decimal digit.
pub open spec fn digit_char(d: nat) -> char {
    ((d + 48) as u8) as char
}

/// Whether `c` is a decimal digit.
pub open spec fn is_digit(c: char) -> bool {
    48 <= c as u32 <= 57
}

/// The numeric value of a digit character.
pub open spec fn digit_val(c: char) -> nat {
    (c as u32 - 48) as nat
}

/// The digits of `n` written without leading zeroes; empty for zero.
pub open spec fn spec_digits_rec(n: nat) -> Seq<char>
    decreases n,
{
    if n == 0 {
        Seq::empty()
    } else {
        spec_digits_rec(n / 10).push(digit_char(n % 10))
    }
}

/// The usual decimal rendering of `n`: "0" for zero, no leading zeroes
/// otherwise.
pub open spec fn spec_u64_digits(n: nat) -> Seq<char> {
    if n == 0 {
        seq!['0']
    } else {
        spec_digits_rec(n)
    }
}

/// The value of a digit sequence read as a decimal number.
pub open spec fn dec_value(s: Seq<char>) -> nat
    decreases s.len(),
{
    if s.len() == 0 {
        0
    } else {
        dec_value(s.drop_last()) * 10 + digit_val(s.last())
    }
}

/// Whether every character of `s` is a decimal digit.
pub open spec fn all_digits(s: Seq<char>) -> bool {
    forall|i: int| 0 <= i < s.len() ==> is_digit(#[trigger] s[i])
}

/// A digit prefix never exceeds the value of the whole digit string.
proof fn lemma_dec_value_prefix(s: Seq<char>, k: int)
    requires
        0 <= k <= s.len(),
    ensures
        dec_value(s.take(k)) <= dec_value(s),
    decreases s.len() - k,
{
    if k < s.len() {
        lemma_dec_value_prefix(s, k + 1);
        assert(s.take(k + 1).drop_last() =~= s.take(k));
        assert(dec_value(s.take(k + 1)) == dec_value(s.take(k)) * 10 + digit_val(
            s.take(k + 1).last(),
        ));
    } else {
        assert(s.take(k) =~= s);
    }
}

/// Appends the digits of `x` (which must be positive) to `s`.
fn append_digits(s: &mut String, x: u64)
    requires
        x >= 1,
    ensures
        final(s)@ == old(s)@ + spec_digits_rec(x as nat),
    decreases x,
{
    if x >= 10 {
        append_digits(s, x / 10);
    }
    let d: u8 = (x % 10) as u8;
    let c: char = (d + 48) as char;
    proof {
        assert(c == digit_char((x as nat) % 10));
    }
    push_char(s, c);
    proof {
        assert(spec_digits_rec(0nat) == Seq::<char>::empty());
        assert(spec_digits_rec(x as nat) == spec_digits_rec((x as nat) / 10).push(
            digit_char((x as nat) % 10),
        ));
        assert(s@ =~= old(s)@ + spec_digits_rec(x as nat));
    }
}

/// Renders `v` in decimal.
pub fn u64_to_string(v: u64) -> (r: String)
    ensures
        r@ == spec_u64_digits(v as nat),
{
    let mut s = String::new();
    if v == 0 {
        push_char(&mut s, '0');
        proof {
            assert(s@ =~= seq!['0']);
        }
    } else {
        append_digits(&mut s, v);
        proof {
            assert(s@ =~= spec_digits_rec(v as nat));
        }
    }
    s
}

/// Parses `s` as a decimal u64: defined exactly when `s` is a non-empty
/// string of digits whose value fits in 64 bits.
pub fn parse_u64(s: &str) -> (r: Option<u64>)
    ensures
        r is Some <==> s@.len() >= 1 && all_digits(s@) && dec_value(s@) <= u64::MAX,
        r matches Some(v) ==> v as nat == dec_value(s@),
{
    let n = s.unicode_len();
    if n == 0 {
        return None;
    }
    let mut acc: u64 = 0;
    let mut i: usize = 0;
    while i < n
        invariant
            n == s@.len(),
            i <= n,
            acc as nat == dec_value(s@.take(i as int)),
            forall|j: int| 0 <= j < i ==> is_digit(#[trigger] s@[j]),
        decreases n - i,
    {
        let c = s.get_char(i);
        let cu = c as u32;
        if cu < 48 || cu > 57 {
            proof {
                assert(!is_digit(s@[i as int]));
            }
            return None;
        }
        let d = (cu - 48) as u64;
        if acc > (u64::MAX - d) / 10 {
            proof {
                // the prefix through this digit already exceeds the range,
                // so the whole string does too
                assert(s@.take(i + 1).drop_last() =~= s@.take(i as int));
                assert(dec_value(s@.take(i + 1)) == (acc as nat) * 10 + (d as nat));
                assert((acc as nat) * 10 + (d as nat) > u64::MAX) by (nonlinear_arith)
                    requires
                        acc > (u64::MAX - d) / 10,
                        d <= 9,
                ;
                lemma_dec_value_prefix(s@, i + 1);
            }
            return None;
        }
        proof {
            assert((acc as nat) * 10 + (d as nat) <= u64::MAX) by (nonlinear_arith)
                requires
                    acc <= (u64::MAX - d) / 10,
                    d <= 9,
            ;
            assert(s@.take(i + 1).drop_last() =~= s@.take(i as int));
        }
        acc = acc * 10 + d;
        i += 1;
    }
    proof {
        assert(s@.take(n as int) =~= s@);
    }
    Some(acc)
}

} // verus!
