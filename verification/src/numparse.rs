//! Parsing integers out of decimal strings, with the exact value and the
//! exact failure reason pinned for every input.

use vstd::prelude::*;
use vstd::string::StrSliceExecFns;

use crate::text::trim_spec;
use crate::text::trimmed_range;

verus! {

/// True when `c` is a decimal digit.
pub open spec fn is_digit(c: char) -> bool {
    0x30 <= c as u32 <= 0x39
}

/// The numeric value of a digit character.
pub open spec fn digit_val(c: char) -> int {
    c as u32 - 0x30
}

/// True when `s` is one or more decimal digits and nothing else.
pub open spec fn all_digits(s: Seq<char>) -> bool {
    s.len() > 0 && forall|i: int| 0 <= i < s.len() ==> is_digit(#[trigger] s[i])
}

/// The value of a digit string read in base ten.
pub open spec fn digits_val(s: Seq<char>) -> int
    decreases s.len(),
{
    if s.len() == 0 {
        0
    } else {
        digits_val(s.drop_last()) * 10 + digit_val(s.last())
    }
}

/// A digit string's value is non-negative.
proof fn lemma_digits_val_nonneg(s: Seq<char>)
    requires
        forall|i: int| 0 <= i < s.len() ==> is_digit(#[trigger] s[i]),
    ensures
        digits_val(s) >= 0,
    decreases s.len(),
{
    if s.len() > 0 {
        lemma_digits_val_nonneg(s.drop_last());
        let v = digits_val(s.drop_last());
        let d = digit_val(s.last());
        assert(v * 10 + d >= 0) by (nonlinear_arith)
            requires
                v >= 0,
                d >= 0,
        ;
    }
}

/// Appending a digit never shrinks a digit string's value.
proof fn lemma_digits_val_grows(s: Seq<char>)
    requires
        s.len() > 0,
        forall|i: int| 0 <= i < s.len() ==> is_digit(#[trigger] s[i]),
    ensures
        digits_val(s) >= digits_val(s.drop_last()),
{
    lemma_digits_val_nonneg(s.drop_last());
    let v = digits_val(s.drop_last());
    let d = digit_val(s.last());
    assert(v * 10 + d >= v) by (nonlinear_arith)
        requires
            v >= 0,
            d >= 0,
    ;
}

/// Reads the digits of `s` from position `from` to the end. `None` unless
/// that range is one or more digits and nothing else; otherwise the value,
/// saturated to `0x1_0000_0000` once it exceeds `u32::MAX`.
pub(crate) fn scan_digits(s: &str, from: usize) -> (r: Option<u64>)
    requires
        from <= s@.len(),
    ensures
        (r is Some) == (from < s@.len() && forall|i: int|
            from <= i < s@.len() ==> is_digit(#[trigger] s@[i])),
        r matches Some(v) ==> {
            let dv = digits_val(s@.subrange(from as int, s@.len() as int));
            &&& (dv <= u32::MAX ==> v == dv)
            &&& (dv > u32::MAX ==> v == 0x1_0000_0000u64)
        },
{
    let n = s.unicode_len();
    if from == n {
        return None;
    }
    let mut acc: u64 = 0;
    let mut i = from;
    while i < n
        invariant
            n == s@.len(),
            from <= i <= n,
            forall|t: int| from <= t < i ==> is_digit(#[trigger] s@[t]),
            ({
                let dv = digits_val(s@.subrange(from as int, i as int));
                &&& (dv <= u32::MAX ==> acc == dv)
                &&& (dv > u32::MAX ==> acc == 0x1_0000_0000u64)
            }),
            acc <= 0x1_0000_0000u64,
        decreases n - i,
    {
        let c = s.get_char(i);
        let u = c as u32;
        if !(0x30 <= u && u <= 0x39) {
            return None;
        }
        let d = (u - 0x30) as u64;
        proof {
            let pre = s@.subrange(from as int, i as int);
            let post = s@.subrange(from as int, i + 1);
            assert(post.drop_last() =~= pre);
            assert(post.last() == s@[i as int]);
            lemma_digits_val_nonneg(pre);
            lemma_digits_val_grows(post);
        }
        if acc <= 0xffff_ffffu64 {
            acc = acc * 10 + d;
            if acc > 0xffff_ffffu64 {
                acc = 0x1_0000_0000u64;
            }
        }
        i += 1;
    }
    Some(acc)
}

/// Why a string failed to parse as a signed machine integer.
#[derive(Clone, Copy, PartialEq, Eq, Structural, Debug)]
pub enum IntParseError {
    /// The string is empty.
    Empty,
    /// A character other than a digit (or a lone sign) appeared.
    InvalidDigit,
    /// The value exceeds the greatest representable value.
    PosOverflow,
    /// The value is below the least representable value.
    NegOverflow,
}

/// What parsing a signed decimal string as an `i32` yields: an optional
/// `+` or `-` sign, then one or more digits and nothing else, with the
/// value in range.
pub open spec fn parse_i32_spec(s: Seq<char>) -> Result<i32, IntParseError> {
    if s.len() == 0 {
        Result::Err(IntParseError::Empty)
    } else {
        let neg = s[0] == '-';
        let digits = if s[0] == '-' || s[0] == '+' {
            s.drop_first()
        } else {
            s
        };
        if !all_digits(digits) {
            Result::Err(IntParseError::InvalidDigit)
        } else {
            let sv = if neg {
                -digits_val(digits)
            } else {
                digits_val(digits)
            };
            if sv > i32::MAX {
                Result::Err(IntParseError::PosOverflow)
            } else if sv < i32::MIN {
                Result::Err(IntParseError::NegOverflow)
            } else {
                Result::Ok(sv as i32)
            }
        }
    }
}

/// Parses `s`, after trimming surrounding whitespace, as a signed decimal
/// machine integer. The result is exactly [`parse_i32_spec`] of the trimmed
/// characters.
pub fn parse_number(s: &str) -> (r: Result<i32, IntParseError>)
    ensures
        r == parse_i32_spec(trim_spec(s@)),
{
    let n = s.unicode_len();
    proof {
        assert(s@.subrange(0, n as int) =~= s@);
    }
    let t = trimmed_range(s, 0, n);
    let tn = t.unicode_len();
    if tn == 0 {
        return Result::Err(IntParseError::Empty);
    }
    let c0 = t.get_char(0);
    let neg = c0 == '-';
    let skip: usize = if c0 == '-' || c0 == '+' {
        1
    } else {
        0
    };
    let ghost digits = if t@[0] == '-' || t@[0] == '+' {
        t@.drop_first()
    } else {
        t@
    };
    proof {
        assert(t@.subrange(skip as int, tn as int) =~= digits);
    }
    match scan_digits(t, skip) {
        Option::None => {
            proof {
                if all_digits(digits) {
                    assert(forall|i: int|
                        skip <= i < tn ==> is_digit(#[trigger] t@[i]) == is_digit(
                            digits[i - skip],
                        ));
                }
            }
            Result::Err(IntParseError::InvalidDigit)
        },
        Option::Some(v) => {
            proof {
                lemma_digits_val_nonneg(digits);
                assert(t@ == trim_spec(s@));
                assert(all_digits(digits));
                let dv = digits_val(digits);
                assert(dv <= u32::MAX ==> v == dv);
                assert(dv > u32::MAX ==> v == 0x1_0000_0000u64);
            }
            if neg {
                if v > 0x8000_0000u64 {
                    Result::Err(IntParseError::NegOverflow)
                } else if v == 0x8000_0000u64 {
                    Result::Ok(i32::MIN)
                } else {
                    Result::Ok(-(v as i32))
                }
            } else {
                if v > 0x7fff_ffffu64 {
                    Result::Err(IntParseError::PosOverflow)
                } else {
                    Result::Ok(v as i32)
                }
            }
        },
    }
}

} // verus!
