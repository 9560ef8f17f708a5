//! A small packet record whose port field is carried as text and parsed on
//! demand.

use vstd::prelude::*;
use vstd::string::StrSliceExecFns;

use crate::numparse::all_digits;
use crate::numparse::digits_val;
use crate::numparse::scan_digits;

verus! {

/// What parsing an unsigned decimal string as a `u16` yields: an optional
/// `+` sign, then one or more digits and nothing else, with the value in
/// range.
pub open spec fn parse_u16_spec(s: Seq<char>) -> Option<u16> {
    if s.len() == 0 {
        Option::None
    } else {
        let digits = if s[0] == '+' {
            s.drop_first()
        } else {
            s
        };
        if !all_digits(digits) {
            Option::None
        } else if digits_val(digits) > u16::MAX {
            Option::None
        } else {
            Option::Some(digits_val(digits) as u16)
        }
    }
}

/// A captured packet: source, destination, the port as received (text),
/// and the payload bytes.
pub struct Packet {
    pub src: String,
    pub dst: String,
    pub port: String,
    pub payload: Vec<u8>,
}

impl Packet {
    /// Parses the port field as a decimal `u16`; `None` exactly when the
    /// field is not a (possibly `+`-signed) decimal number in range.
    pub fn parse_port(&self) -> (r: Option<u16>)
        ensures
            r == parse_u16_spec(self.port@),
    {
        let p = self.port.as_str();
        let n = p.unicode_len();
        if n == 0 {
            return Option::None;
        }
        let skip: usize = if p.get_char(0) == '+' {
            1
        } else {
            0
        };
        let ghost digits = if p@[0] == '+' {
            p@.drop_first()
        } else {
            p@
        };
        proof {
            assert(p@.subrange(skip as int, n as int) =~= digits);
        }
        match scan_digits(p, skip) {
            Option::None => {
                proof {
                    if all_digits(digits) {
                        assert(forall|i: int|
                            skip <= i < n ==> crate::numparse::is_digit(#[trigger] p@[i])
                                == crate::numparse::is_digit(digits[i - skip]));
                    }
                }
                Option::None
            },
            Option::Some(v) => {
                if v > 65535 {
                    Option::None
                } else {
                    Option::Some(v as u16)
                }
            },
        }
    }
}

} // verus!
