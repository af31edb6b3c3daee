//! IPv4 addresses in dotted-quad notation.

use vstd::prelude::*;
use crate::text::{
    all_digits, chars_of, decimal_value, parse_decimal, rows, split, split_chars,
};

verus! {

/// Whether a text writes one byte of an address: one to three decimal
/// digits, without a leading zero unless it is the only digit, with a value
/// of at most 255.
pub open spec fn is_octet(p: Seq<char>) -> bool {
    &&& 1 <= p.len() <= 3
    &&& all_digits(p)
    &&& (p.len() == 1 || p[0] != '0')
    &&& decimal_value(p) <= 255
}

/// Whether a text is an address: four bytes with a dot between each two.
pub open spec fn is_ipv4(s: Seq<char>) -> bool {
    let parts = split(s, '.');
    parts.len() == 4 && forall|i: int| 0 <= i < 4 ==> is_octet(#[trigger] parts[i])
}

/// The address as a number, the first byte being the most significant.
pub open spec fn ipv4_value(s: Seq<char>) -> Option<u32> {
    if is_ipv4(s) {
        let parts = split(s, '.');
        Some(
            (((decimal_value(parts[0]) * 256 + decimal_value(parts[1])) * 256 + decimal_value(
                parts[2],
            )) * 256 + decimal_value(parts[3])) as u32,
        )
    } else {
        None
    }
}

/// The byte that `p` writes, where it writes one.
pub fn parse_octet(p: &[char]) -> (r: Option<u8>)
    ensures
        match r {
            Some(v) => is_octet(p@) && v == decimal_value(p@),
            None => !is_octet(p@),
        },
{
    if p.len() < 1 || p.len() > 3 {
        return None;
    }
    if p[0] == '+' {
        assert(!crate::text::is_digit(p@[0]));
        return None;
    }
    if p.len() > 1 && p[0] == '0' {
        return None;
    }
    match parse_decimal(p, 255) {
        Some(v) => Some(v as u8),
        None => None,
    }
}

/// The address that `chars` writes, where it writes one.
pub fn parse_ipv4(chars: &[char]) -> (r: Option<u32>)
    ensures
        r == ipv4_value(chars@),
{
    let parts = split_chars(chars, '.');
    if parts.len() != 4 {
        return None;
    }
    let mut value: u32 = 0;
    let mut i: usize = 0;
    let ghost want = split(chars@, '.');
    while i < 4
        invariant
            i <= 4,
            parts@.len() == 4,
            rows(parts@) == want,
            want == split(chars@, '.'),
            forall|j: int| 0 <= j < i ==> is_octet(#[trigger] want[j]),
            i == 0 ==> value == 0,
            i == 1 ==> value == decimal_value(want[0]),
            i == 2 ==> value == decimal_value(want[0]) * 256 + decimal_value(want[1]),
            i == 3 ==> value == (decimal_value(want[0]) * 256 + decimal_value(want[1])) * 256
                + decimal_value(want[2]),
            i == 4 ==> value == ((decimal_value(want[0]) * 256 + decimal_value(want[1])) * 256
                + decimal_value(want[2])) * 256 + decimal_value(want[3]),
        decreases 4 - i,
    {
        assert(want[i as int] == parts@[i as int]@);
        match parse_octet(parts[i].as_slice()) {
            Some(b) => {
                assert(i >= 1 ==> is_octet(want[0]));
                assert(i >= 2 ==> is_octet(want[1]));
                assert(i >= 3 ==> is_octet(want[2]));
                value = value * 256 + b as u32;
            },
            None => {
                return None;
            },
        }
        i += 1;
    }
    Some(value)
}

/// Whether `ip` is an IPv4 address in dotted-quad notation.
pub fn is_valid_ip(ip: &str) -> (r: bool)
    ensures
        r == is_ipv4(ip@),
{
    let chars = chars_of(ip);
    parse_ipv4(chars.as_slice()).is_some()
}

} // verus!
