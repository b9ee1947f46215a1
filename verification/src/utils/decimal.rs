//! Integers written out in decimal.

use vstd::prelude::*;

verus! {

/// The character for a digit.
pub open spec fn digit_char(digit: nat) -> char
    recommends
        digit < 10,
{
    ('0' as u32 + digit) as char
}

/// The decimal digits of `n`, without leading zeros.
pub open spec fn nat_text(n: nat) -> Seq<char>
    decreases n,
{
    if n < 10 {
        seq![digit_char(n)]
    } else {
        nat_text(n / 10).push(digit_char(n % 10))
    }
}

/// The decimal digits of `n`, behind a minus sign where `n` is negative.
pub open spec fn int_text(n: int) -> Seq<char> {
    if n < 0 {
        seq!['-'] + nat_text((-n) as nat)
    } else {
        nat_text(n as nat)
    }
}

/// The character for `digit`.
fn digit_to_char(digit: u8) -> (c: char)
    requires
        digit < 10,
    ensures
        c == digit_char(digit as nat),
{
    match digit {
        0 => '0',
        1 => '1',
        2 => '2',
        3 => '3',
        4 => '4',
        5 => '5',
        6 => '6',
        7 => '7',
        8 => '8',
        _ => '9',
    }
}

/// Appends the decimal digits of `n` to `text`.
pub fn push_decimal(n: u128, text: &mut String)
    ensures
        final(text)@ == old(text)@ + nat_text(n as nat),
    decreases n,
{
    if n >= 10 {
        push_decimal(n / 10, text);
    }
    let digit = digit_to_char((n % 10) as u8);
    proof {
        if n >= 10 {
            assert((old(text)@ + nat_text((n / 10) as nat)).push(digit) =~= old(text)@
                + nat_text(n as nat));
        } else {
            assert(old(text)@.push(digit) =~= old(text)@ + nat_text(n as nat));
        }
    }
    text.push(digit);
}

/// Appends `n` in decimal to `text`.
pub fn push_signed(n: i128, text: &mut String)
    ensures
        final(text)@ == old(text)@ + int_text(n as int),
{
    if n < 0 {
        text.push('-');
        let magnitude: u128 = if n == i128::MIN {
            0x8000_0000_0000_0000_0000_0000_0000_0000u128
        } else {
            (-n) as u128
        };
        push_decimal(magnitude, text);
        proof {
            assert(old(text)@.push('-') + nat_text(magnitude as nat) =~= old(text)@ + (seq!['-']
                + nat_text(magnitude as nat)));
        }
    } else {
        push_decimal(n as u128, text);
    }
}

} // verus!
