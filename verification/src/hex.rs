//! Hexadecimal and decimal digit encoding on raw bytes.
//!
//! Palette files store one color per line as `#rrggbb` with lowercase hex
//! digits, and the terminal escape sequences embed decimal indices, so both
//! encodings are specified here at the byte level.

use vstd::prelude::*;

verus! {

/// An ASCII hexadecimal digit, either case.
pub open spec fn is_hex_digit(b: u8) -> bool {
    (48 <= b <= 57) || (97 <= b <= 102) || (65 <= b <= 70)
}

/// Numeric value of an ASCII hexadecimal digit.
pub open spec fn hex_val(b: u8) -> nat
    recommends
        is_hex_digit(b),
{
    if 48 <= b <= 57 {
        (b - 48) as nat
    } else if 97 <= b <= 102 {
        (b - 87) as nat
    } else {
        (b - 55) as nat
    }
}

/// Lowercase ASCII hexadecimal digit for a value below 16.
pub open spec fn hex_digit(n: nat) -> u8
    recommends
        n < 16,
{
    if n < 10 {
        (48 + n) as u8
    } else {
        (87 + n) as u8
    }
}

/// Two-digit lowercase hexadecimal encoding of a byte.
pub open spec fn hex2(b: u8) -> Seq<u8> {
    seq![hex_digit((b / 16) as nat), hex_digit((b % 16) as nat)]
}

/// Encoding a value below 16 yields a hex digit that decodes back to it,
/// and that digit is never a newline, carriage return, or `#` marker.
pub proof fn lemma_hex_digit_roundtrip(n: nat)
    requires
        n < 16,
    ensures
        is_hex_digit(hex_digit(n)),
        hex_val(hex_digit(n)) == n,
        hex_digit(n) != 10,
        hex_digit(n) != 13,
        hex_digit(n) != 35,
{
}

/// A byte is recovered from its two-digit hexadecimal encoding.
pub proof fn lemma_hex2_roundtrip(b: u8)
    ensures
        hex2(b).len() == 2,
        is_hex_digit(hex2(b)[0]),
        is_hex_digit(hex2(b)[1]),
        hex_val(hex2(b)[0]) * 16 + hex_val(hex2(b)[1]) == b,
{
    lemma_hex_digit_roundtrip((b / 16) as nat);
    lemma_hex_digit_roundtrip((b % 16) as nat);
}

/// Appends the two lowercase hex digits of `b` to `out`.
pub fn push_hex2(out: &mut Vec<u8>, b: u8)
    ensures
        final(out)@ == old(out)@ + hex2(b),
{
    let hi: u8 = b / 16;
    let lo: u8 = b % 16;
    out.push(if hi < 10 { 48 + hi } else { 87 + hi });
    out.push(if lo < 10 { 48 + lo } else { 87 + lo });
    assert(out@ =~= old(out)@ + hex2(b));
}

/// Tests a byte for being an ASCII hex digit.
pub fn is_hex_digit_byte(b: u8) -> (r: bool)
    ensures
        r == is_hex_digit(b),
{
    (48 <= b && b <= 57) || (97 <= b && b <= 102) || (65 <= b && b <= 70)
}

/// Decodes one ASCII hex digit.
pub fn hex_digit_value(b: u8) -> (r: u8)
    requires
        is_hex_digit(b),
    ensures
        r as nat == hex_val(b),
        r < 16,
{
    if 48 <= b && b <= 57 {
        b - 48
    } else if 97 <= b && b <= 102 {
        b - 87
    } else {
        b - 55
    }
}

/// Decimal ASCII representation of a natural number, most significant
/// digit first, with no leading zeros.
pub open spec fn dec_rep(n: nat) -> Seq<u8>
    decreases n,
{
    if n < 10 {
        seq![(48 + n) as u8]
    } else {
        dec_rep(n / 10) + seq![(48 + n % 10) as u8]
    }
}

/// Appends the decimal representation of `n` to `out`.
pub fn push_dec(out: &mut Vec<u8>, n: u32)
    ensures
        final(out)@ == old(out)@ + dec_rep(n as nat),
    decreases n,
{
    if n < 10 {
        out.push(48 + n as u8);
        assert(out@ =~= old(out)@ + dec_rep(n as nat));
    } else {
        push_dec(out, n / 10);
        out.push(48 + (n % 10) as u8);
        assert(out@ =~= old(out)@ + dec_rep(n as nat));
    }
}

} // verus!
