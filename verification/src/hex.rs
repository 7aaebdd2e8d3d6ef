//! Lowercase hexadecimal rendering of unsigned integers, and the value
//! of a single hexadecimal digit. Used by the identifier generator and
//! by the string-escape codec.
use vstd::prelude::*;

verus! {

/// The lowercase hexadecimal digit for a value below 16.
pub open spec fn hex_digit(d: nat) -> char
    recommends
        d < 16,
{
    if d < 10 {
        (('0' as u32) + d) as char
    } else {
        (('a' as u32) + (d - 10)) as char
    }
}

/// The numeric value of a hexadecimal digit character; 16 for any
/// character that is not a hexadecimal digit.
pub open spec fn hex_val(c: char) -> nat {
    let u = c as u32;
    if ('0' as u32) <= u <= ('9' as u32) {
        (u - ('0' as u32)) as nat
    } else if ('a' as u32) <= u <= ('f' as u32) {
        (u - ('a' as u32) + 10) as nat
    } else {
        16
    }
}

pub open spec fn is_hex_digit(c: char) -> bool {
    hex_val(c) < 16
}

/// A digit's character maps back to the digit.
pub proof fn lemma_hex_digit_val(d: nat)
    requires
        d < 16,
    ensures
        hex_val(hex_digit(d)) == d,
        is_hex_digit(hex_digit(d)),
{
}

/// The lowercase hexadecimal rendering of `n`, most significant digit
/// first, with no leading zeros (`0` itself is rendered as "0").
pub open spec fn hex_seq(n: nat) -> Seq<char>
    decreases n,
{
    if n < 16 {
        seq![hex_digit(n)]
    } else {
        hex_seq(n / 16) + seq![hex_digit(n % 16)]
    }
}

/// Appends the hexadecimal rendering of `n` to `out`.
pub fn push_hex_u128(n: u128, out: &mut Vec<char>)
    ensures
        final(out)@ == old(out)@ + hex_seq(n as nat),
    decreases n,
{
    if n < 16 {
        out.push(hex_digit_exec((n % 16) as u8));
    } else {
        push_hex_u128(n / 16, out);
        out.push(hex_digit_exec((n % 16) as u8));
        assert(out@ =~= old(out)@ + hex_seq(n as nat));
    }
}

/// The executable counterpart of `hex_digit`.
pub fn hex_digit_exec(d: u8) -> (c: char)
    requires
        d < 16,
    ensures
        c == hex_digit(d as nat),
{
    if d < 10 {
        (('0' as u8) + d) as char
    } else {
        (('a' as u8) + (d - 10)) as char
    }
}

} // verus!
