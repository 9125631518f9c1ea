//! Validation of numeric command-line tokens: a token is accepted exactly
//! when it denotes a strictly positive base-10 integer that fits in `usize`.

use vstd::prelude::*;

verus! {

/// True of an ASCII decimal digit character.
pub open spec fn is_dec_digit(c: char) -> bool {
    48 <= c as u32 && c as u32 <= 57
}

/// Numeric value of a decimal digit character.
pub open spec fn digit_val(c: char) -> int {
    c as u32 - 48
}

/// True when every character of `s` is a decimal digit.
pub open spec fn all_digits(s: Seq<char>) -> bool {
    forall|i: int| 0 <= i < s.len() ==> is_dec_digit(s[i])
}

/// Base-10 value of a digit string, most significant digit first.
pub open spec fn digits_value(s: Seq<char>) -> int
    decreases s.len(),
{
    if s.len() == 0 {
        0
    } else {
        digits_value(s.drop_last()) * 10 + digit_val(s.last())
    }
}

/// The digit part of a numeric token: an optional leading `+` sign is dropped,
/// as standard base-10 parsing of an unsigned integer allows one.
pub open spec fn token_digits(s: Seq<char>) -> Seq<char> {
    if s.len() > 0 && s[0] == '+' {
        s.subrange(1, s.len() as int)
    } else {
        s
    }
}

/// A token denotes a valid strictly positive count when its digit part is
/// non-empty, consists of decimal digits only, and has a positive value
/// that fits in `usize`.
pub open spec fn is_valid_count(s: Seq<char>) -> bool {
    let d = token_digits(s);
    d.len() > 0 && all_digits(d) && 0 < digits_value(d) <= usize::MAX
}

proof fn lemma_digits_value_nonneg(s: Seq<char>)
    requires
        all_digits(s),
    ensures
        digits_value(s) >= 0,
    decreases s.len(),
{
    if s.len() > 0 {
        assert(all_digits(s.drop_last()));
        lemma_digits_value_nonneg(s.drop_last());
    }
}

proof fn lemma_digits_value_prefix_le(s: Seq<char>, k: int)
    requires
        all_digits(s),
        0 <= k <= s.len(),
    ensures
        digits_value(s.take(k)) <= digits_value(s),
    decreases s.len() - k,
{
    if k == s.len() {
        assert(s.take(k) =~= s);
    } else {
        assert(s.take(k + 1).drop_last() =~= s.take(k));
        assert(s.take(k + 1).last() == s[k]);
        assert(all_digits(s.take(k)));
        lemma_digits_value_nonneg(s.take(k));
        assert(digits_value(s.take(k + 1)) == digits_value(s.take(k)) * 10 + digit_val(s[k]));
        lemma_digits_value_prefix_le(s, k + 1);
    }
}

/// Parses a textual token as a strictly positive integer. On success the
/// result is the token's base-10 value; on any failure (empty or non-numeric
/// token, zero, value out of range) the error carries the token verbatim.
pub fn parse_positive_int(val: &str) -> (r: Result<usize, String>)
    ensures
        r is Ok <==> is_valid_count(val@),
        r matches Ok(n) ==> n == digits_value(token_digits(val@)),
        r matches Err(t) ==> t@ == val@,
{
    let len = val.unicode_len();
    let start: usize = if len > 0 && val.get_char(0) == '+' {
        1
    } else {
        0
    };
    let ghost d = token_digits(val@);
    proof {
        assert(d =~= val@.subrange(start as int, len as int));
    }
    if start == len {
        return Err(String::from_str(val));
    }
    let mut acc: usize = 0;
    let mut i: usize = start;
    proof {
        assert(d.take(0) =~= Seq::<char>::empty());
    }
    while i < len
        invariant
            start <= i <= len,
            start < len,
            len == val@.len(),
            d == token_digits(val@),
            d =~= val@.subrange(start as int, len as int),
            acc == digits_value(d.take(i - start)),
            all_digits(d.take(i - start)),
        decreases len - i,
    {
        let c = val.get_char(i);
        let u = c as u32;
        let ghost k = i - start;
        proof {
            assert(d[k] == val@[i as int]);
            assert(d.take(k + 1).drop_last() =~= d.take(k));
            assert(d.take(k + 1).last() == d[k]);
        }
        if u < 48 || u > 57 {
            proof {
                assert(!is_dec_digit(d[k]));
                assert(!all_digits(d));
            }
            return Err(String::from_str(val));
        }
        let dig = (u - 48) as usize;
        if acc > (usize::MAX - dig) / 10 {
            proof {
                let x = (usize::MAX - dig) as int;
                assert(x == 10 * (x / 10) + x % 10);
                assert(0 <= x % 10 < 10);
                assert(acc * 10 + dig > usize::MAX);
                assert(digits_value(d.take(k + 1)) == acc * 10 + dig);
                if all_digits(d) {
                    lemma_digits_value_prefix_le(d, k + 1);
                    assert(digits_value(d) > usize::MAX);
                }
                assert(!is_valid_count(val@));
            }
            return Err(String::from_str(val));
        }
        proof {
            assert(is_dec_digit(d[k]));
            assert(digit_val(d[k]) == dig);
            assert(acc * 10 + dig <= usize::MAX);
        }
        acc = acc * 10 + dig;
        i = i + 1;
    }
    proof {
        assert(d.take(len - start) =~= d);
    }
    if acc == 0 {
        proof {
            assert(digits_value(d) == 0);
        }
        return Err(String::from_str(val));
    }
    Ok(acc)
}

} // verus!
