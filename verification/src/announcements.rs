//! The announcement cache's rules: reading the stored timestamp back from
//! its decimal text, deciding whether the cache is fresh enough to serve,
//! and telling an error response apart by its status.

use vstd::prelude::*;

verus! {

/// Whether `c` is a decimal digit.
pub open spec fn is_digit(c: char) -> bool {
    48 <= c as int <= 57
}

/// The value of a digit character.
pub open spec fn digit_val(c: char) -> int {
    c as int - 48
}

/// Whether the whole sequence is decimal digits.
pub open spec fn all_digits(s: Seq<char>) -> bool {
    forall|i: int| 0 <= i < s.len() ==> is_digit(#[trigger] s[i])
}

/// The number the digit sequence denotes.
pub open spec fn digits_value(s: Seq<char>) -> int
    decreases s.len(),
{
    if s.len() == 0 {
        0
    } else {
        digits_value(s.drop_last()) * 10 + digit_val(s.last())
    }
}

/// What parsing a signed 64-bit number from decimal text gives: an
/// optional sign, then at least one digit and nothing else, and a value
/// that fits.
pub open spec fn spec_parse_i64(s: Seq<char>) -> Option<i64> {
    let signed = s.len() > 0 && (s[0] == '+' || s[0] == '-');
    let digits = if signed {
        s.drop_first()
    } else {
        s
    };
    if digits.len() == 0 || !all_digits(digits) {
        None
    } else {
        let v = if s.len() > 0 && s[0] == '-' {
            -digits_value(digits)
        } else {
            digits_value(digits)
        };
        if i64::MIN <= v <= i64::MAX {
            Some(v as i64)
        } else {
            None
        }
    }
}

/// A digit sequence denotes a number that is not negative.
proof fn lemma_digits_value_nonneg(s: Seq<char>)
    requires
        all_digits(s),
    ensures
        digits_value(s) >= 0,
    decreases s.len(),
{
    if s.len() > 0 {
        lemma_digits_value_nonneg(s.drop_last());
    }
}

/// Extending a digit sequence multiplies its value at least by ten.
proof fn lemma_digits_value_extend(t: Seq<char>, k: int)
    requires
        0 <= k < t.len(),
        all_digits(t),
    ensures
        digits_value(t) >= digits_value(t.subrange(0, k)) * 10,
    decreases t.len() - k,
{
    if k + 1 == t.len() {
        assert(t.drop_last() =~= t.subrange(0, k));
    } else {
        lemma_digits_value_extend(t.drop_last(), k);
        assert(t.drop_last().subrange(0, k) =~= t.subrange(0, k));
        lemma_digits_value_nonneg(t.subrange(0, k));
        lemma_digits_value_nonneg(t.drop_last());
    }
}

/// Reads a timestamp back from decimal text, as the cache stores it:
/// exactly what parsing a signed 64-bit number accepts.
pub fn parse_timestamp(s: &str) -> (r: Option<i64>)
    ensures
        r == spec_parse_i64(s@),
{
    let len = s.unicode_len();
    if len == 0 {
        return None;
    }
    let first = s.get_char(0);
    let fv = first as u32;
    let neg = fv == 45;
    let start: usize = if fv == 45 || fv == 43 {
        1
    } else {
        0
    };
    let ghost digits = if start == 1 {
        s@.drop_first()
    } else {
        s@
    };
    if start == len {
        return None;
    }
    let mut mag: u64 = 0;
    let mut i = start;
    while i < len
        invariant
            start <= i <= len,
            start < len,
            len == s@.len(),
            start == 0 || start == 1,
            (start == 1) == (s@.len() > 0 && (s@[0] == '+' || s@[0] == '-')),
            neg == (s@.len() > 0 && s@[0] == '-'),
            digits == s@.subrange(start as int, len as int),
            all_digits(s@.subrange(start as int, i as int)),
            mag == digits_value(s@.subrange(start as int, i as int)),
            mag <= 9223372036854775809u64,
        decreases len - i,
    {
        let c = s.get_char(i);
        let cv = c as u32;
        if cv < 48 || cv > 57 {
            proof {
                assert(!is_digit(digits[i - start]));
            }
            return None;
        }
        if mag > 922337203685477580u64 {
            proof {
                if all_digits(digits) {
                    assert(s@.subrange(start as int, i as int) =~= digits.subrange(
                        0,
                        i - start,
                    ));
                    lemma_digits_value_extend(digits, i - start);
                    lemma_digits_value_nonneg(digits);
                    let sd = if s@.len() > 0 && (s@[0] == '+' || s@[0] == '-') {
                        s@.drop_first()
                    } else {
                        s@
                    };
                    assert(sd == digits);
                    assert(digits_value(sd) > 9223372036854775807);
                }
            }
            return None;
        }
        let d = (cv - 48) as u64;
        proof {
            let prefix = s@.subrange(start as int, i as int);
            let prefix1 = s@.subrange(start as int, i as int + 1);
            assert(prefix1.drop_last() =~= prefix);
            assert(prefix1.last() == s@[i as int]);
        }
        mag = mag * 10 + d;
        i = i + 1;
    }
    proof {
        assert(s@.subrange(start as int, len as int) =~= digits);
    }
    if neg {
        if mag > 9223372036854775808u64 {
            None
        } else if mag == 9223372036854775808u64 {
            Some(i64::MIN)
        } else {
            Some(-(mag as i64))
        }
    } else {
        if mag > 9223372036854775807u64 {
            None
        } else {
            Some(mag as i64)
        }
    }
}

/// Cached announcements are served when they were stored within the last
/// twelve hours and there is at least one of them.
pub fn use_cached_announcements(last_updated: i64, now_ts: i64, count: usize) -> (r: bool)
    requires
        now_ts >= i64::MIN + 43200,
    ensures
        r == (last_updated > now_ts - 43200 && count != 0),
{
    last_updated > now_ts - 43200 && count != 0
}

/// Whether a response status is one the announcement fetch reads an API
/// error from.
pub fn is_error_status(status: u16) -> (r: bool)
    ensures
        r == (status == 400 || status == 500),
{
    status == 400 || status == 500
}

} // verus!
