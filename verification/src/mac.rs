//! Hardware (MAC) addresses: validation, the canonical upper-case
//! colon-separated form, the 48-bit value, and wake-on-LAN frames.

use vstd::prelude::*;
use crate::text::{
    chars_of, hex_digit_char, is_hex_digit, is_upper_hex_digit, lemma_lex_last, lex_lt, lower,
    rows, split, split_chars, string_of, to_upper, unsigned_digits, upper, upper_char,
};

verus! {

/// Why a text is not a hardware address.
#[derive(Clone, Copy, Debug, PartialEq, Eq, Structural)]
pub enum MacError {
    /// Without its separators the text is not twelve characters long.
    Length,
    /// Twelve characters, but not all of them hexadecimal digits.
    NotHex,
}

impl MacError {
    /// The message that goes with the error.
    pub open spec fn text(self) -> Seq<char> {
        match self {
            MacError::Length => "MAC address must have 12 hex characters"@,
            MacError::NotHex => "MAC address must contain only hex characters"@,
        }
    }

    /// The message that goes with the error.
    pub fn message(&self) -> (m: String)
        ensures
            m@ == self.text(),
    {
        match self {
            MacError::Length => "MAC address must have 12 hex characters".to_string(),
            MacError::NotHex => "MAC address must contain only hex characters".to_string(),
        }
    }
}

/// `s` with every occurrence of `sep` taken out.
pub open spec fn without(s: Seq<char>, sep: char) -> Seq<char> {
    s.filter(|c: char| c != sep)
}

/// The digits of an address as written: upper case, and without its
/// separators. Colons are the separator if there is any colon; otherwise
/// dashes are, if there is any dash.
pub open spec fn mac_digits(s: Seq<char>) -> Seq<char> {
    let u = upper(s);
    if u.contains(':') {
        without(u, ':')
    } else if u.contains('-') {
        without(u, '-')
    } else {
        u
    }
}

/// Twelve upper-case hexadecimal digits.
pub open spec fn is_mac_digits(d: Seq<char>) -> bool {
    d.len() == 12 && forall|i: int| 0 <= i < 12 ==> is_upper_hex_digit(#[trigger] d[i])
}

/// Twelve digits written as six pairs with `sep` between each two pairs.
pub open spec fn separated(d: Seq<char>, sep: char) -> Seq<char>
    recommends
        d.len() == 12,
{
    seq![
        d[0],
        d[1],
        sep,
        d[2],
        d[3],
        sep,
        d[4],
        d[5],
        sep,
        d[6],
        d[7],
        sep,
        d[8],
        d[9],
        sep,
        d[10],
        d[11],
    ]
}

/// Twelve digits written as six colon-separated pairs.
pub open spec fn with_colons(d: Seq<char>) -> Seq<char>
    recommends
        d.len() == 12,
{
    separated(d, ':')
}

/// Twelve digits written as six dash-separated pairs.
pub open spec fn with_dashes(d: Seq<char>) -> Seq<char>
    recommends
        d.len() == 12,
{
    separated(d, '-')
}

/// The canonical form of an address, `AA:BB:CC:DD:EE:FF`, or the reason why
/// the text is not an address.
pub open spec fn normalized_mac(s: Seq<char>) -> Result<Seq<char>, MacError> {
    let d = mac_digits(s);
    if d.len() != 12 {
        Err(MacError::Length)
    } else if !is_mac_digits(d) {
        Err(MacError::NotHex)
    } else {
        Ok(with_colons(d))
    }
}

/// A text in canonical form: six pairs of upper-case hexadecimal digits with
/// a colon between each two pairs.
pub open spec fn is_canonical_mac(s: Seq<char>) -> bool {
    &&& s.len() == 17
    &&& forall|i: int| 0 <= i < 17 ==> (if i % 3 == 2 {
        #[trigger] s[i] == ':'
    } else {
        is_upper_hex_digit(s[i])
    })
}

/// The value of a hexadecimal digit; 0 for any other character.
pub open spec fn hex_value(c: char) -> nat {
    if '0' <= c <= '9' {
        (c as u8 - '0' as u8) as nat
    } else if 'a' <= c <= 'f' {
        (c as u8 - 'a' as u8 + 10) as nat
    } else if 'A' <= c <= 'F' {
        (c as u8 - 'A' as u8 + 10) as nat
    } else {
        0
    }
}

/// The number that a sequence of hexadecimal digits writes, most significant
/// digit first.
pub open spec fn hex_number(d: Seq<char>) -> nat
    decreases d.len(),
{
    if d.len() == 0 {
        0
    } else {
        hex_number(d.drop_last()) * 16 + hex_value(d.last())
    }
}

/// The 48-bit value of an address, where the text is one.
pub open spec fn mac_value(s: Seq<char>) -> Option<nat> {
    if is_mac_digits(mac_digits(s)) {
        Some(hex_number(mac_digits(s)))
    } else {
        None
    }
}

/// The six bytes of an address given by its twelve digits.
pub open spec fn mac_bytes(d: Seq<char>) -> Seq<u8>
    recommends
        d.len() == 12,
{
    Seq::new(6, |i: int| (hex_value(d[2 * i]) * 16 + hex_value(d[2 * i + 1])) as u8)
}

/// The wake-on-LAN frame for an address: six bytes `0xFF`, then the address
/// sixteen times.
pub open spec fn magic_packet(bytes: Seq<u8>) -> Seq<u8>
    recommends
        bytes.len() == 6,
{
    Seq::new(
        102,
        |i: int|
            if i < 6 {
                0xFFu8
            } else {
                bytes[(i - 6) % 6]
            },
    )
}

pub fn hex_digit_value(c: char) -> (v: u8)
    ensures
        v == hex_value(c),
        v < 16,
{
    if '0' <= c && c <= '9' {
        c as u8 - '0' as u8
    } else if 'a' <= c && c <= 'f' {
        c as u8 - 'a' as u8 + 10
    } else if 'A' <= c && c <= 'F' {
        c as u8 - 'A' as u8 + 10
    } else {
        0
    }
}

/// Whether `c` occurs in `chars`.
pub fn has_char(chars: &[char], c: char) -> (r: bool)
    ensures
        r == chars@.contains(c),
{
    let mut i: usize = 0;
    while i < chars.len()
        invariant
            i <= chars.len(),
            forall|j: int| 0 <= j < i ==> chars@[j] != c,
        decreases chars.len() - i,
    {
        if chars[i] == c {
            return true;
        }
        i += 1;
    }
    false
}

pub proof fn lemma_without_push(s: Seq<char>, c: char, sep: char)
    ensures
        without(s.push(c), sep) == if c != sep {
            without(s, sep).push(c)
        } else {
            without(s, sep)
        },
{
    let p = |x: char| x != sep;
    assert(s.push(c).drop_last() =~= s);
    reveal_with_fuel(Seq::filter, 2);
}

/// `chars` with every occurrence of `sep` taken out.
pub fn remove_char(chars: &[char], sep: char) -> (out: Vec<char>)
    ensures
        out@ == without(chars@, sep),
{
    let mut out: Vec<char> = Vec::new();
    let mut i: usize = 0;
    assert(chars@.take(0) =~= Seq::<char>::empty());
    while i < chars.len()
        invariant
            i <= chars.len(),
            out@ == without(chars@.take(i as int), sep),
        decreases chars.len() - i,
    {
        proof {
            assert(chars@.take(i + 1) =~= chars@.take(i as int).push(chars@[i as int]));
            lemma_without_push(chars@.take(i as int), chars@[i as int], sep);
        }
        if chars[i] != sep {
            out.push(chars[i]);
        }
        i += 1;
    }
    assert(chars@ =~= chars@.take(chars@.len() as int));
    out
}

/// The digits of an address as written: see [`mac_digits`].
pub fn digits_of(mac: &[char]) -> (d: Vec<char>)
    ensures
        d@ == mac_digits(mac@),
{
    let u = to_upper(mac);
    if has_char(u.as_slice(), ':') {
        remove_char(u.as_slice(), ':')
    } else if has_char(u.as_slice(), '-') {
        remove_char(u.as_slice(), '-')
    } else {
        u
    }
}

/// Whether every character is an upper-case hexadecimal digit.
pub fn all_upper_hex(d: &[char]) -> (r: bool)
    ensures
        r == (forall|i: int| 0 <= i < d@.len() ==> is_upper_hex_digit(#[trigger] d@[i])),
{
    let mut i: usize = 0;
    while i < d.len()
        invariant
            i <= d.len(),
            forall|j: int| 0 <= j < i ==> is_upper_hex_digit(#[trigger] d@[j]),
        decreases d.len() - i,
    {
        let c = d[i];
        if !(('0' <= c && c <= '9') || ('A' <= c && c <= 'F')) {
            return false;
        }
        i += 1;
    }
    true
}

/// Brings an address into canonical form. Colon-separated, dash-separated
/// and bare notations are accepted, in either case; the result is upper
/// case with a colon after every second digit.
pub fn format_mac(mac: &str) -> (r: Result<String, MacError>)
    ensures
        match r {
            Ok(s) => normalized_mac(mac@) == Ok::<Seq<char>, MacError>(s@),
            Err(e) => normalized_mac(mac@) == Err::<Seq<char>, MacError>(e),
        },
{
    let chars = chars_of(mac);
    let d = digits_of(chars.as_slice());
    if d.len() != 12 {
        return Err(MacError::Length);
    }
    if !all_upper_hex(d.as_slice()) {
        return Err(MacError::NotHex);
    }
    let mut out: Vec<char> = Vec::new();
    let mut i: usize = 0;
    while i < 12
        invariant
            i <= 12,
            i % 2 == 0,
            d@.len() == 12,
            out@.len() == (if i == 0 { 0int } else { 3 * (i / 2) - 1 }),
            forall|j: int| 0 <= j < out@.len() ==> out@[j] == with_colons(d@)[j],
        decreases 12 - i,
    {
        if i > 0 {
            out.push(':');
        }
        out.push(d[i]);
        out.push(d[i + 1]);
        i += 2;
    }
    assert(out@ =~= with_colons(d@));
    Ok(string_of(out.as_slice()))
}


// ---------------------------------------------------------------------------
// What holds of the canonical form
// ---------------------------------------------------------------------------

pub proof fn lemma_upper_idempotent(s: Seq<char>)
    ensures
        upper(upper(s)) == upper(s),
        upper(lower(s)) == upper(s),
{
    assert(upper(upper(s)) =~= upper(s));
    assert(upper(lower(s)) =~= upper(s));
}

/// Taking the separators out of twelve separated digits gives the digits
/// back, where no digit is the separator.
pub proof fn lemma_without_separated(d: Seq<char>, sep: char)
    requires
        d.len() == 12,
        forall|i: int| 0 <= i < 12 ==> d[i] != sep,
    ensures
        without(separated(d, sep), sep) == d,
{
    let e = Seq::<char>::empty();
    assert(without(e, sep) =~= e);
    let s1 = e.push(d[0]);
    let s2 = s1.push(d[1]);
    let s3 = s2.push(sep);
    let s4 = s3.push(d[2]);
    let s5 = s4.push(d[3]);
    let s6 = s5.push(sep);
    let s7 = s6.push(d[4]);
    let s8 = s7.push(d[5]);
    let s9 = s8.push(sep);
    let s10 = s9.push(d[6]);
    let s11 = s10.push(d[7]);
    let s12 = s11.push(sep);
    let s13 = s12.push(d[8]);
    let s14 = s13.push(d[9]);
    let s15 = s14.push(sep);
    let s16 = s15.push(d[10]);
    let s17 = s16.push(d[11]);
    lemma_without_push(e, d[0], sep);
    lemma_without_push(s1, d[1], sep);
    lemma_without_push(s2, sep, sep);
    lemma_without_push(s3, d[2], sep);
    lemma_without_push(s4, d[3], sep);
    lemma_without_push(s5, sep, sep);
    lemma_without_push(s6, d[4], sep);
    lemma_without_push(s7, d[5], sep);
    lemma_without_push(s8, sep, sep);
    lemma_without_push(s9, d[6], sep);
    lemma_without_push(s10, d[7], sep);
    lemma_without_push(s11, sep, sep);
    lemma_without_push(s12, d[8], sep);
    lemma_without_push(s13, d[9], sep);
    lemma_without_push(s14, sep, sep);
    lemma_without_push(s15, d[10], sep);
    lemma_without_push(s16, d[11], sep);
    assert(s17 =~= separated(d, sep));
    assert(without(s17, sep) =~= d);
}

/// Twelve upper-case digits with a separator that is no letter stay as they
/// are in upper case, and hold the separator.
proof fn lemma_separated_upper(d: Seq<char>, sep: char)
    requires
        is_mac_digits(d),
        sep == ':' || sep == '-',
    ensures
        upper(separated(d, sep)) == separated(d, sep),
        separated(d, sep).contains(sep),
        forall|i: int| 0 <= i < 12 ==> d[i] != ':' && d[i] != '-',
        sep == '-' ==> !separated(d, sep).contains(':'),
{
    let n = separated(d, sep);
    assert forall|i: int| 0 <= i < 12 implies d[i] != ':' && d[i] != '-' by {
        assert(is_upper_hex_digit(d[i]));
    }
    assert forall|i: int| 0 <= i < n.len() implies upper_char(#[trigger] n[i]) == n[i] by {
        if i % 3 != 2 {
            assert(is_upper_hex_digit(d[i - i / 3]));
        }
    }
    assert(upper(n) =~= n);
    assert(n[2] == sep);
    if sep == '-' && n.contains(':') {
        let i = choose|i: int| 0 <= i < n.len() && n[i] == ':';
        if i % 3 != 2 {
            assert(n[i] == d[i - i / 3]);
        }
    }
}

/// Taking the colons out of the canonical writing of twelve digits gives the
/// digits back.
pub proof fn lemma_digits_of_canonical(d: Seq<char>)
    requires
        is_mac_digits(d),
    ensures
        is_canonical_mac(with_colons(d)),
        mac_digits(with_colons(d)) == d,
{
    lemma_separated_upper(d, ':');
    lemma_without_separated(d, ':');
    let n = with_colons(d);
    assert forall|i: int| 0 <= i < 17 implies (if i % 3 == 2 {
        #[trigger] n[i] == ':'
    } else {
        is_upper_hex_digit(n[i])
    }) by {
        if i % 3 != 2 {
            assert(is_upper_hex_digit(d[i - i / 3]));
        }
    }
}

/// Normalization is idempotent: the canonical form of an address is its own
/// canonical form.
pub proof fn lemma_normalize_idempotent(s: Seq<char>)
    ensures
        normalized_mac(s) matches Ok(n) ==> normalized_mac(n) == normalized_mac(s),
{
    if normalized_mac(s) is Ok {
        lemma_digits_of_canonical(mac_digits(s));
    }
}

/// Normalization does not look at the case of letters: two texts that differ
/// in case only have the same canonical form, or are rejected for the same
/// reason. In particular a text, its upper-case form and its lower-case form
/// are treated alike.
pub proof fn lemma_normalize_ignores_case(a: Seq<char>, b: Seq<char>)
    requires
        upper(a) == upper(b),
    ensures
        normalized_mac(a) == normalized_mac(b),
        normalized_mac(upper(a)) == normalized_mac(a),
        normalized_mac(lower(a)) == normalized_mac(a),
{
    lemma_upper_idempotent(a);
}

/// Twelve hexadecimal digits, in either case.
pub open spec fn is_hex_digits(d: Seq<char>) -> bool {
    d.len() == 12 && forall|i: int| 0 <= i < 12 ==> is_hex_digit(#[trigger] d[i])
}

proof fn lemma_upper_hex(d: Seq<char>)
    requires
        is_hex_digits(d),
    ensures
        is_mac_digits(upper(d)),
        !upper(d).contains(':'),
        !upper(d).contains('-'),
{
    let u = upper(d);
    assert forall|i: int| 0 <= i < 12 implies is_upper_hex_digit(#[trigger] u[i]) by {
        assert(is_hex_digit(d[i]));
    }
}

/// Every notation of twelve hexadecimal digits is accepted (bare, with
/// colons, with dashes) and all three have the same canonical form.
pub proof fn lemma_normalize_accepts(d: Seq<char>)
    requires
        is_hex_digits(d),
    ensures
        normalized_mac(d) == Ok::<Seq<char>, MacError>(with_colons(upper(d))),
        normalized_mac(with_colons(d)) == normalized_mac(d),
        normalized_mac(with_dashes(d)) == normalized_mac(d),
{
    lemma_upper_hex(d);
    let u = upper(d);
    assert(mac_digits(d) == u);
    assert(upper(with_colons(d)) =~= with_colons(u));
    assert(upper(with_dashes(d)) =~= with_dashes(u));
    lemma_separated_upper(u, ':');
    lemma_separated_upper(u, '-');
    lemma_without_separated(u, ':');
    lemma_without_separated(u, '-');
    assert(mac_digits(with_colons(d)) == u);
    assert(mac_digits(with_dashes(d)) == u);
}

// ---------------------------------------------------------------------------
// The value of an address
// ---------------------------------------------------------------------------

/// 16 to the power `n`.
pub open spec fn pow16(n: nat) -> nat
    decreases n,
{
    if n == 0 {
        1
    } else {
        16 * pow16((n - 1) as nat)
    }
}

pub proof fn lemma_hex_number_bound(d: Seq<char>)
    ensures
        hex_number(d) < pow16(d.len()),
    decreases d.len(),
{
    if d.len() > 0 {
        lemma_hex_number_bound(d.drop_last());
    }
}

proof fn lemma_pow16_12()
    ensures
        pow16(12) == 0x1_0000_0000_0000,
{
    reveal_with_fuel(pow16, 13);
}

proof fn lemma_pow16_monotone(a: nat, b: nat)
    requires
        a <= b,
    ensures
        pow16(a) <= pow16(b),
    decreases b,
{
    if a < b {
        lemma_pow16_monotone(a, (b - 1) as nat);
    }
}

/// The number that at most twelve hexadecimal digits write.
pub fn hex_to_u64(d: &[char]) -> (v: u64)
    requires
        d@.len() <= 12,
    ensures
        v == hex_number(d@),
        v < 0x1_0000_0000_0000,
{
    let mut v: u64 = 0;
    let mut i: usize = 0;
    assert(d@.take(0) =~= Seq::<char>::empty());
    while i < d.len()
        invariant
            i <= d.len(),
            d@.len() <= 12,
            v == hex_number(d@.take(i as int)),
        decreases d.len() - i,
    {
        proof {
            lemma_hex_number_bound(d@.take(i as int));
            lemma_pow16_monotone(i as nat, 11);
            lemma_pow16_12();
            assert(d@.take(i + 1).drop_last() =~= d@.take(i as int));
        }
        v = v * 16 + hex_digit_value(d[i]) as u64;
        i += 1;
    }
    proof {
        assert(d@.take(d@.len() as int) =~= d@);
        lemma_hex_number_bound(d@);
        lemma_pow16_monotone(d@.len(), 12);
        lemma_pow16_12();
    }
    v
}

/// The 48-bit value of an address, where the text is one.
pub fn mac_key(mac: &str) -> (r: Option<u64>)
    ensures
        match r {
            Some(v) => mac_value(mac@) == Some(v as nat),
            None => mac_value(mac@) is None,
        },
{
    let chars = chars_of(mac);
    let d = digits_of(chars.as_slice());
    if d.len() == 12 && all_upper_hex(d.as_slice()) {
        Some(hex_to_u64(d.as_slice()))
    } else {
        None
    }
}

/// Two texts of one length that have their colons at the same places and
/// upper-case hexadecimal digits everywhere else.
pub open spec fn aligned(a: Seq<char>, b: Seq<char>) -> bool {
    &&& a.len() == b.len()
    &&& forall|i: int|
        0 <= i < a.len() ==> ((#[trigger] a[i] == ':') == (#[trigger] b[i] == ':')) && (a[i] == ':'
            || is_upper_hex_digit(a[i])) && (b[i] == ':' || is_upper_hex_digit(b[i]))
}

proof fn lemma_aligned_order(a: Seq<char>, b: Seq<char>)
    requires
        aligned(a, b),
        lex_lt(a, b),
    ensures
        hex_number(without(a, ':')) < hex_number(without(b, ':')),
    decreases a.len(),
{
    if a.len() > 0 {
        let ai = a.drop_last();
        let bi = b.drop_last();
        lemma_lex_last(a, b);
        assert(a =~= ai.push(a.last()));
        assert(b =~= bi.push(b.last()));
        lemma_without_push(ai, a.last(), ':');
        lemma_without_push(bi, b.last(), ':');
        assert((a.last() == ':') == (b.last() == ':')) by {
            assert(a[a.len() - 1] == a.last());
            assert(b[b.len() - 1] == b.last());
        }
        assert(a.last() == ':' || is_upper_hex_digit(a.last())) by {
            assert(a[a.len() - 1] == a.last());
        }
        assert(b.last() == ':' || is_upper_hex_digit(b.last())) by {
            assert(b[b.len() - 1] == b.last());
        }
        assert(aligned(ai, bi)) by {
            assert forall|i: int| 0 <= i < ai.len() implies ((#[trigger] ai[i] == ':') == (
            #[trigger] bi[i] == ':')) && (ai[i] == ':' || is_upper_hex_digit(ai[i])) && (bi[i]
                == ':' || is_upper_hex_digit(bi[i])) by {
                assert(ai[i] == a[i] && bi[i] == b[i]);
            }
        }
        let wa = without(ai, ':');
        let wb = without(bi, ':');
        if lex_lt(ai, bi) {
            lemma_aligned_order(ai, bi);
            if a.last() != ':' {
                assert(wa.push(a.last()).drop_last() =~= wa);
                assert(wb.push(b.last()).drop_last() =~= wb);
            }
        } else {
            assert(ai == bi && a.last() < b.last());
            assert(wa.push(a.last()).drop_last() =~= wa);
            assert(wb.push(b.last()).drop_last() =~= wb);
        }
    }
}

/// The value of an address in canonical form is what its digits write.
pub proof fn lemma_canonical_value(a: Seq<char>)
    requires
        normalized_mac(a) == Ok::<Seq<char>, MacError>(a),
    ensures
        is_canonical_mac(a),
        mac_value(a) == Some(hex_number(without(a, ':'))),
{
    let d = mac_digits(a);
    lemma_digits_of_canonical(d);
    lemma_separated_upper(d, ':');
}

/// Addresses in canonical form stand in the order of their values exactly
/// where they stand in dictionary order, and have one value only where they
/// are the same address.
pub proof fn lemma_canonical_order(a: Seq<char>, b: Seq<char>)
    requires
        normalized_mac(a) == Ok::<Seq<char>, MacError>(a),
        normalized_mac(b) == Ok::<Seq<char>, MacError>(b),
    ensures
        mac_value(a) is Some,
        mac_value(b) is Some,
        mac_value(a)->0 < mac_value(b)->0 <==> lex_lt(a, b),
        mac_value(a) == mac_value(b) <==> a == b,
{
    lemma_canonical_value(a);
    lemma_canonical_value(b);
    assert(aligned(a, b) && aligned(b, a)) by {
        assert forall|i: int| 0 <= i < 17 implies ((#[trigger] a[i] == ':') == (#[trigger] b[i]
            == ':')) && (a[i] == ':' || is_upper_hex_digit(a[i])) && (b[i] == ':'
            || is_upper_hex_digit(b[i])) by {
            if i % 3 != 2 {
                assert(is_upper_hex_digit(a[i]));
                assert(is_upper_hex_digit(b[i]));
            }
        }
    }
    crate::text::lemma_lex_total(a, b);
    if lex_lt(a, b) {
        lemma_aligned_order(a, b);
    }
    if lex_lt(b, a) {
        lemma_aligned_order(b, a);
    }
}

// ---------------------------------------------------------------------------
// Colon-separated octets
// ---------------------------------------------------------------------------

/// Whether a text writes a byte in hexadecimal: an optional `+`, then one or
/// more hexadecimal digits whose value is below 256.
pub open spec fn is_hex_octet(s: Seq<char>) -> bool {
    is_octet_digits(unsigned_digits(s))
}

/// One or more hexadecimal digits, of which all but the last two are `0`.
pub open spec fn is_octet_digits(d: Seq<char>) -> bool {
    &&& d.len() > 0
    &&& forall|i: int| 0 <= i < d.len() ==> is_hex_digit(#[trigger] d[i])
    &&& forall|i: int| 0 <= i < d.len() - 2 ==> #[trigger] d[i] == '0'
}

/// Whether a text is six colon-separated hexadecimal bytes.
pub open spec fn valid_mac(s: Seq<char>) -> bool {
    let parts = split(s, ':');
    parts.len() == 6 && forall|i: int| 0 <= i < 6 ==> is_hex_octet(#[trigger] parts[i])
}

pub fn hex_octet(s: &[char]) -> (r: bool)
    ensures
        r == is_hex_octet(s@),
{
    let start: usize = if s.len() > 0 && s[0] == '+' {
        1
    } else {
        0
    };
    let ghost d = unsigned_digits(s@);
    assert(d =~= s@.skip(start as int));
    if start == s.len() {
        return false;
    }
    let n = s.len() - start;
    let mut i: usize = start;
    while i < s.len()
        invariant
            start <= i <= s.len(),
            n == s.len() - start,
            d == s@.skip(start as int),
            d == unsigned_digits(s@),
            forall|j: int| 0 <= j < i - start ==> is_hex_digit(#[trigger] d[j]),
            forall|j: int| 0 <= j < i - start && j < n - 2 ==> #[trigger] d[j] == '0',
        decreases s.len() - i,
    {
        let c = s[i];
        assert(c == d[i - start]);
        if !(('0' <= c && c <= '9') || ('a' <= c && c <= 'f') || ('A' <= c && c <= 'F')) {
            assert(!is_hex_digit(d[i - start]));
            return false;
        }
        if n > 2 && i - start < n - 2 && c != '0' {
            assert(d[i - start] != '0');
            return false;
        }
        i += 1;
    }
    true
}

/// Whether `mac` is six colon-separated hexadecimal bytes.
pub fn is_valid_mac(mac: &str) -> (r: bool)
    ensures
        r == valid_mac(mac@),
{
    let chars = chars_of(mac);
    let parts = split_chars(chars.as_slice(), ':');
    if parts.len() != 6 {
        return false;
    }
    let mut i: usize = 0;
    while i < 6
        invariant
            i <= 6,
            parts@.len() == 6,
            rows(parts@) == split(mac@, ':'),
            forall|j: int| 0 <= j < i ==> is_hex_octet(#[trigger] split(mac@, ':')[j]),
        decreases 6 - i,
    {
        assert(rows(parts@)[i as int] == parts@[i as int]@);
        if !hex_octet(parts[i].as_slice()) {
            return false;
        }
        i += 1;
    }
    true
}

// ---------------------------------------------------------------------------
// Wake-on-LAN
// ---------------------------------------------------------------------------

/// Whether every character is a hexadecimal digit.
pub open spec fn all_hex(d: Seq<char>) -> bool {
    forall|i: int| 0 <= i < d.len() ==> is_hex_digit(#[trigger] d[i])
}

/// The frame that wakes the machine with the address `mac`, which is written
/// as twelve hexadecimal digits with or without colons.
pub open spec fn magic_packet_for(s: Seq<char>) -> Result<Seq<u8>, MacError> {
    let d = without(s, ':');
    if !all_hex(d) {
        Err(MacError::NotHex)
    } else if d.len() != 12 {
        Err(MacError::Length)
    } else {
        Ok(magic_packet(mac_bytes(d)))
    }
}

/// Builds the wake-on-LAN frame for an address: 102 bytes, six times `0xFF`
/// and then the six bytes of the address sixteen times over.
pub fn create_magic_packet(mac: &str) -> (r: Result<Vec<u8>, MacError>)
    ensures
        match r {
            Ok(p) => magic_packet_for(mac@) == Ok::<Seq<u8>, MacError>(p@),
            Err(e) => magic_packet_for(mac@) == Err::<Seq<u8>, MacError>(e),
        },
{
    let chars = chars_of(mac);
    let d = remove_char(chars.as_slice(), ':');
    let mut i: usize = 0;
    while i < d.len()
        invariant
            i <= d.len(),
            d@ == without(mac@, ':'),
            forall|j: int| 0 <= j < i ==> is_hex_digit(#[trigger] d@[j]),
        decreases d.len() - i,
    {
        if !hex_digit_char(d[i]) {
            assert(!is_hex_digit(d@[i as int]));
            return Err(MacError::NotHex);
        }
        i += 1;
    }
    if d.len() != 12 {
        return Err(MacError::Length);
    }
    let mut bytes: Vec<u8> = Vec::new();
    let mut k: usize = 0;
    while k < 6
        invariant
            k <= 6,
            d@.len() == 12,
            bytes@.len() == k,
            forall|j: int| 0 <= j < k ==> bytes@[j] == mac_bytes(d@)[j],
        decreases 6 - k,
    {
        let hi = hex_digit_value(d[2 * k]);
        let lo = hex_digit_value(d[2 * k + 1]);
        bytes.push(hi * 16 + lo);
        k += 1;
    }
    assert(bytes@ =~= mac_bytes(d@));
    let mut packet: Vec<u8> = Vec::new();
    let mut n: usize = 0;
    while n < 102
        invariant
            n <= 102,
            bytes@.len() == 6,
            packet@.len() == n,
            forall|j: int| 0 <= j < n ==> packet@[j] == magic_packet(bytes@)[j],
        decreases 102 - n,
    {
        if n < 6 {
            packet.push(0xFF);
        } else {
            packet.push(bytes[(n - 6) % 6]);
        }
        n += 1;
    }
    assert(packet@ =~= magic_packet(bytes@));
    Ok(packet)
}

} // verus!
