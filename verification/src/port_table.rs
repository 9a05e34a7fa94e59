//! Normalizing the values of scale control ports.  The host reports a
//! scale port's value as a number such as `0.000`, while the scale's
//! value list holds plain integers such as `0`: this module turns the
//! reported text into the list's form.

use crate::strutil::all_digits;
use crate::strutil::dec_digits;
use crate::strutil::digit_val;
use crate::strutil::digits_val;
use crate::strutil::find_at;
use crate::strutil::find_from;
use crate::strutil::is_digit;
use crate::strutil::parse_usize;
use crate::strutil::usize_to_string;
use vstd::prelude::*;
use vstd::string::StrSliceExecFns;
use vstd::string::StringExecFns;

verus! {

/// A decimal number's parts: its sign, integer digits and fraction
/// digits.  `None` where `v` is not `[-]digits[.digits]` with at least
/// one digit.
pub open spec fn dec_parts(v: Seq<char>) -> Option<(bool, Seq<char>, Seq<char>)> {
    let neg = v.len() > 0 && v[0] == '-';
    let body = if neg {
        v.subrange(1, v.len() as int)
    } else {
        v
    };
    let dot = find_at(body, 0, '.');
    let ip = body.subrange(0, dot);
    let fp = if dot < body.len() {
        body.subrange(dot + 1, body.len() as int)
    } else {
        Seq::empty()
    };
    if ip.len() + fp.len() > 0 && all_digits(ip) && all_digits(fp) {
        Some((neg, ip, fp))
    } else {
        None
    }
}

/// The value text normalized to the form scale lists use: the number
/// rounded to an integer, half away from zero; empty where the text is
/// not a decimal number or the result does not fit the machine word.
pub open spec fn scale_value_norm(v: Seq<char>) -> Seq<char> {
    match dec_parts(v) {
        Some((neg, ip, fp)) => {
            let m = digits_val(ip) + if fp.len() > 0 && digit_val(fp[0]) >= 5 {
                1nat
            } else {
                0nat
            };
            if m <= usize::MAX {
                if neg {
                    seq!['-'] + dec_digits(m)
                } else {
                    dec_digits(m)
                }
            } else {
                Seq::empty()
            }
        },
        None => Seq::empty(),
    }
}

/// Is every character of `s` a decimal digit?
fn all_digits_str(s: &str) -> (r: bool)
    ensures
        r == all_digits(s@),
{
    let len = s.unicode_len();
    let mut i: usize = 0;
    while i < len
        invariant
            i <= len,
            len == s@.len(),
            forall|j: int| 0 <= j < i ==> is_digit(#[trigger] s@[j]),
        decreases len - i,
    {
        let u = s.get_char(i) as u32;
        if u < 48 || u > 57 {
            assert(!is_digit(s@[i as int]));
            return false;
        }
        assert(is_digit(s@[i as int]));
        i += 1;
    }
    true
}

/// Normalize a reported port value to the form scale value lists use.
pub fn value_from_scale_control(val: &str) -> (r: String)
    ensures
        r@ == scale_value_norm(val@),
{
    let len = val.unicode_len();
    let neg = len > 0 && val.get_char(0) == '-';
    let start: usize = if neg {
        1
    } else {
        0
    };
    let body = val.substring_char(start, len);
    proof {
        if neg {
            assert(body@ == val@.subrange(1, len as int));
        } else {
            assert(body@ =~= val@);
        }
    }
    let blen = body.unicode_len();
    let dot = find_from(body, 0, '.');
    let ip = body.substring_char(0, dot);
    let fp = if dot < blen {
        body.substring_char(dot + 1, blen)
    } else {
        body.substring_char(0, 0)
    };
    if ip.unicode_len() + fp.unicode_len() == 0 || !all_digits_str(ip) || !all_digits_str(fp) {
        assert(dec_parts(val@) is None);
        return String::new();
    }
    let bump: usize = if fp.unicode_len() > 0 {
        let u = fp.get_char(0) as u32;
        if u >= 53 {
            1
        } else {
            0
        }
    } else {
        0
    };
    proof {
        if fp@.len() > 0 {
            assert((fp@[0] as u32 >= 53) == (digit_val(fp@[0]) >= 5));
        }
    }
    let ipv: usize = if ip.unicode_len() == 0 {
        0
    } else {
        match parse_usize(ip) {
            Some(v) => v,
            None => {
                // The integer part alone exceeds the machine word.
                return String::new();
            },
        }
    };
    if bump == 1 && ipv == usize::MAX {
        return String::new();
    }
    let m = ipv + bump;
    let digits = usize_to_string(m);
    if neg {
        let mut r = String::from_str("-");
        proof {
            reveal_strlit("-");
        }
        r.append(digits.as_str());
        proof {
            assert(r@ =~= seq!['-'] + dec_digits(m as nat));
        }
        r
    } else {
        digits
    }
}

} // verus!
