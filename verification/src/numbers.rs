//! Decimal text for integers: the spec of the decimal rendering used when a
//! ticket's numeric key is searched as text, and a verified parser for the
//! signed integers a user types after the date-query prefix.

use vstd::prelude::*;

verus! {

/// The character for one decimal digit value.
pub open spec fn digit_char(d: nat) -> char {
    if d == 0 {
        '0'
    } else if d == 1 {
        '1'
    } else if d == 2 {
        '2'
    } else if d == 3 {
        '3'
    } else if d == 4 {
        '4'
    } else if d == 5 {
        '5'
    } else if d == 6 {
        '6'
    } else if d == 7 {
        '7'
    } else if d == 8 {
        '8'
    } else {
        '9'
    }
}

/// The decimal digits of `n`, most significant first, no leading zeros
/// (a single `'0'` for zero).
pub open spec fn dec_digits(n: nat) -> Seq<char>
    decreases n,
{
    if n < 10 {
        seq![digit_char(n)]
    } else {
        dec_digits(n / 10).push(digit_char(n % 10))
    }
}

/// The decimal rendering of a signed integer, as `to_string` produces it:
/// a leading `'-'` for negative values, no sign otherwise.
pub open spec fn int_dec(n: int) -> Seq<char> {
    if n < 0 {
        seq!['-'] + dec_digits((-n) as nat)
    } else {
        dec_digits(n as nat)
    }
}

/// Relies on the `Display` implementation of `i64`: the decimal
/// representation of the value, with a leading minus sign when negative.
#[verifier::external_body]
pub(crate) fn i64_to_string(v: i64) -> (r: String)
    ensures
        r@ == int_dec(v as int),
{
    v.to_string()
}

/// An ASCII decimal digit.
pub open spec fn is_digit(c: char) -> bool {
    48 <= c as u32 <= 57
}

/// The value of one ASCII decimal digit.
pub open spec fn digit_val(c: char) -> nat {
    (c as u32 - 48) as nat
}

pub open spec fn all_digits(s: Seq<char>) -> bool {
    forall|i: int| 0 <= i < s.len() ==> is_digit(#[trigger] s[i])
}

/// The value of a digit string, most significant digit first.
pub open spec fn digits_val(s: Seq<char>) -> nat
    decreases s.len(),
{
    if s.len() == 0 {
        0
    } else {
        digits_val(s.drop_last()) * 10 + digit_val(s.last())
    }
}

/// What `str::parse::<i64>` accepts: an optional sign, then at least one
/// digit, the whole string, with the value in range for `i64`.
pub open spec fn parse_i64_spec(s: Seq<char>) -> Option<int> {
    let negative = s.len() > 0 && s[0] == '-';
    let signed = s.len() > 0 && (s[0] == '-' || s[0] == '+');
    let digits = if signed {
        s.skip(1)
    } else {
        s
    };
    if digits.len() == 0 || !all_digits(digits) {
        None
    } else {
        let v = if negative {
            -(digits_val(digits) as int)
        } else {
            digits_val(digits) as int
        };
        if i64::MIN <= v <= i64::MAX {
            Some(v)
        } else {
            None
        }
    }
}

/// A longer digit string never has a smaller value than its prefix.
proof fn lemma_digits_val_prefix_le(s: Seq<char>, k: int)
    requires
        0 <= k <= s.len(),
    ensures
        digits_val(s.take(k)) <= digits_val(s),
    decreases s.len() - k,
{
    if k < s.len() {
        lemma_digits_val_prefix_le(s.drop_last(), k);
        assert(s.drop_last().take(k) =~= s.take(k));
        assert(digits_val(s) == digits_val(s.drop_last()) * 10 + digit_val(s.last()));
        assert(digits_val(s.drop_last()) * 10 >= digits_val(s.drop_last())) by (nonlinear_arith);
    } else {
        assert(s.take(k) =~= s);
    }
}

/// The magnitude of `i64::MIN`, the largest magnitude a parsed value may have.
pub open spec fn i64_min_magnitude() -> nat {
    9223372036854775808
}

/// Parse a signed decimal integer exactly as `str::parse::<i64>` would:
/// `None` on an empty string, a stray character, a bare sign, or overflow.
#[verifier::loop_isolation(false)]
pub fn parse_i64(s: &str) -> (r: Option<i64>)
    ensures
        match r {
            Some(v) => parse_i64_spec(s@) == Some(v as int),
            None => parse_i64_spec(s@) is None,
        },
{
    let n = s.unicode_len();
    if n == 0 {
        return None;
    }
    let first = s.get_char(0);
    let negative = first == '-';
    let signed = first == '-' || first == '+';
    let start: usize = if signed {
        1
    } else {
        0
    };
    let ghost digits = if signed {
        s@.skip(1)
    } else {
        s@
    };
    if n == start {
        // a bare sign with no digits
        return None;
    }
    proof {
        assert(s@.skip(0) =~= s@);
        assert(digits.take(0) =~= Seq::<char>::empty());
    }
    let mut acc: u64 = 0;
    let mut i: usize = start;
    while i < n
        invariant
            start <= i <= n,
            n == s@.len(),
            start == if signed { 1int } else { 0int },
            digits == s@.skip(start as int),
            digits.len() == n - start,
            all_digits(digits.take(i - start)),
            acc == digits_val(digits.take(i - start)),
            acc <= i64_min_magnitude(),
        decreases n - i,
    {
        let c = s.get_char(i);
        if !(c >= '0' && c <= '9') {
            proof {
                assert(digits[i - start] == c);
                assert(!is_digit(digits[i - start]));
                assert(!all_digits(digits));
                assert(parse_i64_spec(s@) is None);
            }
            return None;
        }
        let d: u64 = (c as u32 - 48) as u64;
        let limit: u64 = (9223372036854775808u64 - d) / 10;
        if acc > limit {
            // any continuation only grows the magnitude past the i64 range
            proof {
                assert(acc * 10 + d > i64_min_magnitude()) by (nonlinear_arith)
                    requires
                        acc > (9223372036854775808u64 - d) / 10,
                        d <= 9,
                ;
                assert(digits[i - start] == c);
                assert(d == digit_val(c));
                assert(digits.take(i + 1 - start).drop_last() =~= digits.take(i - start));
                assert(digits.take(i + 1 - start).last() == digits[i - start]);
                assert(digits_val(digits.take(i + 1 - start)) == acc * 10 + d);
                lemma_digits_val_prefix_le(digits, i + 1 - start);
                assert(digits_val(digits) > i64_min_magnitude());
                assert(parse_i64_spec(s@) is None);
            }
            return None;
        }
        proof {
            assert(acc * 10 + d <= i64_min_magnitude()) by (nonlinear_arith)
                requires
                    acc <= (9223372036854775808u64 - d) / 10,
                    d <= 9,
            ;
            assert(digits[i - start] == c);
            assert(d == digit_val(c));
            assert(digits.take(i + 1 - start).drop_last() =~= digits.take(i - start));
            assert(digits.take(i + 1 - start).last() == digits[i - start]);
            assert(digits_val(digits.take(i + 1 - start)) == acc * 10 + d);
        }
        acc = acc * 10 + d;
        i += 1;
    }
    proof {
        assert(digits.take(n - start) =~= digits);
    }
    if negative {
        if acc == 9223372036854775808u64 {
            Some(i64::MIN)
        } else {
            Some(-(acc as i64))
        }
    } else {
        if acc == 9223372036854775808u64 {
            // the magnitude fits only with a minus sign
            None
        } else {
            Some(acc as i64)
        }
    }
}

} // verus!
