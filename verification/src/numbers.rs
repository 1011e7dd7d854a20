//! Parsing of signed 64-bit integer literals: an optional `+` or `-` sign
//! followed by one or more decimal digits, rejected when the value falls
//! outside the `i64` range.
use vstd::prelude::*;

verus! {

pub open spec fn is_digit(c: char) -> bool {
    '0' as u32 <= c as u32 && c as u32 <= '9' as u32
}

pub open spec fn digit_val(c: char) -> int {
    c as u32 - '0' as u32
}

/// The value of a digit sequence read in base ten.
pub open spec fn digits_val(s: Seq<char>) -> int
    decreases s.len(),
{
    if s.len() == 0 {
        0
    } else {
        digits_val(s.drop_last()) * 10 + digit_val(s.last())
    }
}

pub open spec fn all_digits(s: Seq<char>) -> bool {
    s.len() > 0 && forall|i: int| 0 <= i < s.len() ==> is_digit(s[i])
}

/// The digits of an unsigned part of a numeric literal, after the sign.
pub open spec fn literal_digits(s: Seq<char>) -> Seq<char> {
    if s.len() > 0 && (s[0] == '+' || s[0] == '-') {
        s.drop_first()
    } else {
        s
    }
}

pub open spec fn literal_negative(s: Seq<char>) -> bool {
    s.len() > 0 && s[0] == '-'
}

/// The value denoted by a signed decimal literal, or `None` when the text
/// is not an optional sign followed by digits, or the value does not fit
/// in an `i64`.
pub open spec fn parse_i64_spec(s: Seq<char>) -> Option<int> {
    let ds = literal_digits(s);
    if !all_digits(ds) {
        None
    } else {
        let v = if literal_negative(s) {
            -digits_val(ds)
        } else {
            digits_val(ds)
        };
        if i64::MIN <= v <= i64::MAX {
            Some(v)
        } else {
            None
        }
    }
}

pub fn is_digit_char(c: char) -> (r: bool)
    ensures
        r == is_digit(c),
{
    '0' <= c && c <= '9'
}

/// Parses a signed decimal literal as std's `i64` parser does: an optional
/// sign, one or more digits, and a range check.
pub fn parse_i64(s: &str) -> (r: Option<i64>)
    ensures
        match r {
            Some(v) => parse_i64_spec(s@) == Some(v as int),
            None => parse_i64_spec(s@) is None,
        },
{
    let n = s.unicode_len();
    let mut pos: usize = 0;
    let mut neg = false;
    if n > 0 {
        let c0 = s.get_char(0);
        if c0 == '+' || c0 == '-' {
            pos = 1;
            neg = c0 == '-';
        }
    }
    let ghost ds = literal_digits(s@);
    proof {
        assert(ds =~= s@.subrange(pos as int, n as int));
        assert(neg == literal_negative(s@));
    }
    if pos == n {
        proof {
            assert(!all_digits(ds));
        }
        return None;
    }
    let bound: i128 = 9223372036854775807i128 + 1;
    let mut acc: i128 = 0;
    let mut over = false;
    let mut i: usize = pos;
    while i < n
        invariant
            pos <= i <= n,
            n == s@.len(),
            pos <= 1,
            bound == 0x8000_0000_0000_0000i128,
            ds == literal_digits(s@),
            neg == literal_negative(s@),
            ds =~= s@.subrange(pos as int, n as int),
            forall|j: int| pos <= j < i ==> is_digit(s@[j]),
            !over ==> 0 <= acc <= bound && acc == digits_val(s@.subrange(pos as int, i as int)),
            over ==> digits_val(s@.subrange(pos as int, i as int)) > bound,
        decreases n - i,
    {
        let c = s.get_char(i);
        if !is_digit_char(c) {
            proof {
                assert(ds[i - pos] == s@[i as int]);
                assert(!all_digits(ds));
            }
            return None;
        }
        let d: i128 = (c as u32 - '0' as u32) as i128;
        proof {
            let pre = s@.subrange(pos as int, i as int);
            let ext = s@.subrange(pos as int, i + 1);
            assert(ext.drop_last() =~= pre);
            assert(ext.last() == s@[i as int]);
        }
        if over {
            proof {
                let pre = digits_val(s@.subrange(pos as int, i as int));
                assert(pre * 10 >= pre + pre) by {
                    assert(pre > 0);
                };
            }
        } else {
            let next = acc * 10 + d;
            if next > bound {
                over = true;
            } else {
                acc = next;
            }
        }
        i += 1;
    }
    proof {
        assert(s@.subrange(pos as int, i as int) =~= ds);
        assert(all_digits(ds));
    }
    if over {
        proof {
            assert(parse_i64_spec(s@) is None);
        }
        None
    } else if neg {
        let v: i128 = -acc;
        Some(v as i64)
    } else if acc <= bound - 1 {
        Some(acc as i64)
    } else {
        None
    }
}

} // verus!
