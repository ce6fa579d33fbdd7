//! Parsing the age argument: the decimal syntax `u64` accepts, stated and
//! checked — an optional leading `+`, then decimal digits, rejected when the
//! value does not fit.

use vstd::prelude::*;
use vstd::string::StrSliceExecFns;

verus! {

/// One decimal digit.
pub open spec fn is_digit(c: char) -> bool {
    '0' as int <= c as int && c as int <= '9' as int
}

/// The value of one decimal digit.
pub open spec fn digit_value(c: char) -> int {
    c as int - '0' as int
}

/// Every character of `s` is a decimal digit.
pub open spec fn all_digits(s: Seq<char>) -> bool {
    forall|i: int| 0 <= i < s.len() ==> is_digit(#[trigger] s[i])
}

/// The number a string of decimal digits denotes, most significant digit
/// first.
pub open spec fn digits_value(s: Seq<char>) -> int
    decreases s.len(),
{
    if s.len() == 0 {
        0
    } else {
        digits_value(s.drop_last()) * 10 + digit_value(s.last())
    }
}

/// The digit part of an age argument: everything after an optional leading
/// `+` sign.
pub open spec fn digit_part(s: Seq<char>) -> Seq<char> {
    if s.len() > 0 && s[0] == '+' {
        s.drop_first()
    } else {
        s
    }
}

/// A well-formed age argument: an optional `+` sign, then at least one
/// decimal digit, denoting a value that fits in `u64`.
pub open spec fn is_valid_age(s: Seq<char>) -> bool {
    &&& digit_part(s).len() > 0
    &&& all_digits(digit_part(s))
    &&& digits_value(digit_part(s)) <= u64::MAX
}

/// The value a well-formed age argument denotes.
pub open spec fn age_value(s: Seq<char>) -> int {
    digits_value(digit_part(s))
}

/// A string of digits denotes a non-negative number.
proof fn lemma_digits_value_nonneg(s: Seq<char>)
    requires
        all_digits(s),
    ensures
        digits_value(s) >= 0,
    decreases s.len(),
{
    if s.len() > 0 {
        lemma_digits_value_nonneg(s.drop_last());
    }
}

/// Extending a string of digits on the right never lowers its value.
proof fn lemma_digits_value_take_le(s: Seq<char>, k: int)
    requires
        all_digits(s),
        0 <= k <= s.len(),
    ensures
        digits_value(s.take(k)) <= digits_value(s),
    decreases s.len() - k,
{
    if k < s.len() {
        lemma_digits_value_take_le(s, k + 1);
        let t = s.take(k + 1);
        assert(t.drop_last() =~= s.take(k));
        assert(all_digits(s.take(k)));
        lemma_digits_value_nonneg(s.take(k));
        assert(digits_value(t) == digits_value(s.take(k)) * 10 + digit_value(s[k]));
    } else {
        assert(s.take(k) =~= s);
    }
}

/// Parse a decimal age argument, with the syntax `u64`'s own parser
/// accepts: an optional leading `+`, then decimal digits. Anything else,
/// and any value that does not fit in `u64`, is rejected.
pub fn parse_age(s: &str) -> (r: Option<u64>)
    ensures
        r is Some <==> is_valid_age(s@),
        r matches Some(v) ==> v == age_value(s@),
{
    let n: usize = s.unicode_len();
    let mut i: usize = 0;
    if n > 0 && s.get_char(0) == '+' {
        i = 1;
    }
    if i == n {
        return None;
    }
    let ghost digits: Seq<char> = digit_part(s@);
    let ghost start: int = i as int;
    assert(digits.len() == n - start);
    assert(forall|j: int| 0 <= j < digits.len() ==> digits[j] == s@[j + start]);
    let mut acc: u64 = 0;
    while i < n
        invariant
            start <= i <= n,
            n == s@.len(),
            digits == digit_part(s@),
            digits.len() == n - start,
            forall|j: int| 0 <= j < digits.len() ==> digits[j] == s@[j + start],
            all_digits(digits.take(i - start)),
            acc == digits_value(digits.take(i - start)),
        decreases n - i,
    {
        let c = s.get_char(i);
        let u: u32 = c as u32;
        let ghost k: int = i - start;
        if u < 48 || u > 57 {
            assert(!is_digit(digits[k]));
            return None;
        }
        let d: u64 = (u - 48) as u64;
        assert(is_digit(digits[k]) && d == digit_value(digits[k]));
        let next: Option<u64> = match acc.checked_mul(10) {
            Some(m) => m.checked_add(d),
            None => None,
        };
        proof {
            let t = digits.take(k + 1);
            assert(t.drop_last() =~= digits.take(k));
            assert(t.last() == digits[k]);
            assert(digits_value(t) == acc * 10 + d);
        }
        match next {
            Some(v) => {
                acc = v;
            },
            None => {
                proof {
                    if all_digits(digits) {
                        lemma_digits_value_take_le(digits, k + 1);
                    }
                }
                return None;
            },
        }
        i += 1;
    }
    assert(digits.take(i - start) =~= digits);
    Some(acc)
}

} // verus!
