//! Decimal notation for the numbers that appear in messages.

use vstd::prelude::*;
use crate::text::transform::buffer::push_char;

verus! {

/// The character that writes the digit `d`: the digits follow one another
/// from `'0'`, which is character 48.
pub open spec fn digit_char(d: nat) -> char
    recommends
        d < 10,
{
    ('0' as nat + d) as char
}

/// `n` in decimal notation, most significant digit first, without leading zeros.
pub open spec fn decimal_digits(n: nat) -> Seq<char>
    decreases n,
{
    if n < 10 {
        seq![digit_char(n)]
    } else {
        decimal_digits(n / 10).push(digit_char(n % 10))
    }
}

/// Appends `n` in decimal notation.
pub(crate) fn push_decimal(buf: &mut String, n: usize)
    ensures
        final(buf)@ == old(buf)@ + decimal_digits(n as nat),
    decreases n,
{
    if n >= 10 {
        push_decimal(buf, n / 10);
    }
    let d: u8 = (n % 10) as u8;
    let c: char = (d + 48u8) as char;
    push_char(buf, c);
    assert(buf@ =~= old(buf)@ + decimal_digits(n as nat));
}

} // verus!
