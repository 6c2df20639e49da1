//! Amounts of data in the units that people read.

use vstd::prelude::*;

use crate::text;
use crate::text::{decimal_text, two_digit_text};

verus! {

/// The first number that a double-precision value does not represent together with all its
/// neighbours.
pub const DENSE_LIMIT: u64 = 0x20_0000_0000_0000;

/// `num / den` to the nearest whole number, a tie to the even one.
pub open spec fn nearest(num: nat, den: nat) -> nat {
    let floor = num / den;
    let rest = num % den;
    if rest * 2 > den || rest * 2 == den && floor % 2 == 1 {
        floor + 1
    } else {
        floor
    }
}

/// The distance between the double-precision values around a number.
pub open spec fn grain(bytes: nat) -> nat
    decreases bytes,
{
    if bytes < DENSE_LIMIT {
        1
    } else {
        2 * grain(bytes / 2)
    }
}

/// The double-precision value closest to a number of bytes.
pub open spec fn as_double(bytes: u64) -> nat {
    nearest(bytes as nat, grain(bytes as nat)) * grain(bytes as nat)
}

/// How many bytes make the unit in which an amount is shown.
pub open spec fn unit_size(bytes: u64) -> nat {
    if bytes < 0x400 {
        1
    } else if bytes < 0x10_0000 {
        0x400
    } else if bytes < 0x4000_0000 {
        0x10_0000
    } else {
        0x4000_0000
    }
}

/// The name of the unit in which an amount is shown.
pub open spec fn unit_name(bytes: u64) -> Seq<char> {
    if bytes < 0x400 {
        "B"@
    } else if bytes < 0x10_0000 {
        "KB"@
    } else if bytes < 0x4000_0000 {
        "MB"@
    } else {
        "GB"@
    }
}

/// An amount of data: the plain number of bytes below one kilobyte, and above it the amount in
/// the largest unit that it fills, up to the gigabyte, with two decimals.
pub open spec fn human(bytes: u64) -> Seq<char> {
    if bytes < 0x400 {
        text::decimal(bytes as nat) + " "@ + unit_name(bytes)
    } else {
        let hundredths = nearest(as_double(bytes) * 100, unit_size(bytes));
        text::decimal(hundredths / 100) + "."@ + text::two_digits(hundredths % 100) + " "@
            + unit_name(bytes)
    }
}

/// Halving a number of 64 bits at most eleven times brings it below the limit.
pub(crate) proof fn lemma_grain_bound(bytes: nat)
    requires
        bytes <= u64::MAX,
    ensures
        1 <= grain(bytes) <= 0x800,
{
    reveal_with_fuel(grain, 13);
}

/// The distance between the double-precision values around a number.
fn grain_of(bytes: u64) -> (step: u64)
    ensures
        step == grain(bytes as nat),
        1 <= step <= 0x800,
    decreases bytes,
{
    proof {
        lemma_grain_bound(bytes as nat);
    }
    if bytes < DENSE_LIMIT {
        1
    } else {
        grain_of(bytes / 2) * 2
    }
}

/// `num / den` to the nearest whole number, a tie to the even one.
pub(crate) fn nearest_of(num: u128, den: u128) -> (whole: u128)
    requires
        0 < den <= u128::MAX / 2,
        num < u128::MAX,
    ensures
        whole as nat == nearest(num as nat, den as nat),
        num / den <= whole <= num / den + 1,
{
    let floor: u128 = num / den;
    let rest: u128 = num % den;
    proof {
        vstd::arithmetic::div_mod::lemma_div_is_ordered_by_denominator(num as int, 1, den as int);
        vstd::arithmetic::div_mod::lemma_mod_bound(num as int, den as int);
    }
    if rest * 2 > den || rest * 2 == den && floor % 2 == 1 {
        floor + 1
    } else {
        floor
    }
}

/// The double-precision value closest to a number of bytes.
pub(crate) fn double_of(bytes: u64) -> (double: u128)
    ensures
        double as nat == as_double(bytes),
        double <= bytes + 0x800,
{
    let step: u64 = grain_of(bytes);
    let steps: u128 = nearest_of(bytes as u128, step as u128);
    assert(0 <= steps * step <= bytes + step) by (nonlinear_arith)
        requires
            0 <= steps <= bytes as int / step as int + 1,
            step >= 1,
    ;
    steps * step as u128
}

/// Writes an amount of data in the largest unit that it fills.
pub fn human_bytes(bytes: u64) -> (text: String)
    ensures
        text@ == human(bytes),
{
    if bytes < 0x400 {
        let mut text = decimal_text(bytes);
        text.append(" ");
        text.append("B");
        return text;
    }
    let (size, name): (u64, &str) = if bytes < 0x10_0000 {
        (0x400, "KB")
    } else if bytes < 0x4000_0000 {
        (0x10_0000, "MB")
    } else {
        (0x4000_0000, "GB")
    };
    let hundredths: u64 = nearest_of(double_of(bytes) * 100, size as u128) as u64;
    let mut text = decimal_text(hundredths / 100);
    text.append(".");
    text.append(two_digit_text(hundredths % 100).as_str());
    text.append(" ");
    text.append(name);
    text
}

/// Rounding moves a fraction by no more than half.
pub(crate) proof fn lemma_nearest_is_near(num: nat, den: nat)
    requires
        den > 0,
    ensures
        -den <= 2 * (nearest(num, den) * den - num) <= den,
{
    vstd::arithmetic::div_mod::lemma_fundamental_div_mod(num as int, den as int);
    vstd::arithmetic::div_mod::lemma_mod_bound(num as int, den as int);
    let floor = num / den;
    assert((floor + 1) * den == den * floor + den) by (nonlinear_arith);
    assert(floor * den == den * floor) by (nonlinear_arith);
}

/// Below the range in which double-precision values thin out, the hundredths that are shown of an
/// amount are off by at most one half.
pub proof fn shown_amount_is_near(bytes: u64)
    requires
        bytes < DENSE_LIMIT,
    ensures
        ({
            let hundredths = nearest(as_double(bytes) * 100, unit_size(bytes));
            let size = unit_size(bytes) as int;
            -size <= 2 * (hundredths * size - bytes * 100) <= size
        }),
{
    assert(grain(bytes as nat) == 1);
    assert(nearest(bytes as nat, 1) == bytes);
    assert(as_double(bytes) == bytes);
    lemma_nearest_is_near(as_double(bytes) * 100, unit_size(bytes));
}

} // verus!
