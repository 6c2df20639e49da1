//! Seconds and throughput, worked out as double-precision arithmetic does.
//!
//! A double-precision value has 53 significant bits. Where a fraction is rounded to one, it is
//! first scaled by a power of two so that these bits stand before the point.

use vstd::prelude::*;

use crate::clock::{Duration, NANOS_PER_SEC};
use crate::text;
use crate::text::{two_digit_text, wide_decimal_text};
use crate::units;
use crate::units::{double_of, nearest_of, DENSE_LIMIT};

verus! {

/// The power of two that brings `num / den` as far up as it goes below the limit.
pub open spec fn scale(num: nat, den: nat) -> nat
    decreases DENSE_LIMIT * den - num,
{
    if num == 0 || num * 2 >= DENSE_LIMIT * den {
        1
    } else {
        2 * scale(num * 2, den)
    }
}

/// The power of two by which `num / den` must be divided to come below the limit.
pub open spec fn coarseness(num: nat, den: nat) -> nat
    decreases
            if num < DENSE_LIMIT * den {
                0
            } else {
                num - DENSE_LIMIT * den + 1
            },
{
    if den == 0 || num < DENSE_LIMIT * den {
        1
    } else {
        2 * coarseness(num, den * 2)
    }
}

/// The whole part of the double-precision value closest to `num / den`.
pub open spec fn whole_double(num: nat, den: nat) -> nat {
    if num < DENSE_LIMIT * den {
        units::nearest(num * scale(num, den), den) / scale(num, den)
    } else {
        units::nearest(num, den * coarseness(num, den)) * coarseness(num, den)
    }
}

/// The power of two by which a fraction of a second is scaled.
pub open spec fn fraction_scale(duration: nat) -> nat {
    scale(duration % NANOS_PER_SEC as nat, NANOS_PER_SEC as nat)
}

/// The double-precision value closest to the fraction of a second in a length of time, scaled.
pub open spec fn scaled_fraction(duration: nat) -> nat {
    units::nearest(
        duration % NANOS_PER_SEC as nat * fraction_scale(duration),
        NANOS_PER_SEC as nat,
    )
}

/// The power of two by which a number of seconds is scaled.
pub open spec fn seconds_scale(duration: nat) -> nat {
    let secs = duration / NANOS_PER_SEC as nat;
    if secs == 0 {
        fraction_scale(duration)
    } else if secs < DENSE_LIMIT {
        scale(secs, 1)
    } else {
        1
    }
}

/// A length of time in seconds as a double-precision value, scaled: that closest to the sum of
/// the whole seconds and the fraction, each a double-precision value itself.
pub open spec fn scaled_seconds(duration: nat) -> nat {
    let secs = duration / NANOS_PER_SEC as nat;
    let power = seconds_scale(duration);
    let fine = fraction_scale(duration);
    if secs == 0 {
        scaled_fraction(duration)
    } else if secs < DENSE_LIMIT {
        units::nearest(secs * power * fine + scaled_fraction(duration) * power, fine)
    } else {
        units::as_double(secs as u64)
    }
}

/// A length of time in seconds with two decimals.
pub open spec fn seconds_form(duration: nat) -> Seq<char> {
    let hundredths = units::nearest(scaled_seconds(duration) * 100, seconds_scale(duration));
    text::decimal(hundredths / 100) + "."@ + text::two_digits(hundredths % 100)
}

/// How many whole bytes per second `bytes` in a length of time make, at most the largest 64-bit
/// number.
pub open spec fn rate(bytes: u64, duration: nat) -> u64 {
    let whole = whole_double(
        units::as_double(bytes) * seconds_scale(duration),
        scaled_seconds(duration),
    );
    if whole > u64::MAX {
        u64::MAX
    } else {
        whole as u64
    }
}

/// Scaling a fraction of a number that is not below one by less than the limit.
proof fn lemma_scaled_below(num: int, den: int, power: int)
    by (nonlinear_arith)
    requires
        num * power < DENSE_LIMIT * den,
        num >= den,
        den > 0,
        power >= 0,
    ensures
        power < DENSE_LIMIT,
{
}

/// A fraction of a second does not become more than a second when it is rounded.
proof fn lemma_fraction_below_one(nanos: int, fine: int, second: int, fraction: int)
    by (nonlinear_arith)
    requires
        0 <= nanos < second,
        fine >= 1,
        nanos * fine < DENSE_LIMIT * second,
        fraction <= nanos * fine / second + 1,
    ensures
        fraction <= fine,
        fraction <= DENSE_LIMIT,
{
    assert(nanos * fine < second * fine);
    assert(nanos * fine / second < fine);
    assert(nanos * fine / second < DENSE_LIMIT);
}

/// A fraction that is at most one, scaled by less than the limit, stays within bounds.
proof fn lemma_product_bound(fraction: int, power: int, fine: int)
    requires
        0 <= fraction <= fine,
        fraction <= DENSE_LIMIT,
        1 <= power < DENSE_LIMIT,
        1 <= fine,
    ensures
        0 <= fraction * power <= DENSE_LIMIT * DENSE_LIMIT,
        fraction * power / fine <= power,
{
    assert(0 <= fraction * power <= DENSE_LIMIT * DENSE_LIMIT) by (nonlinear_arith)
        requires
            0 <= fraction <= DENSE_LIMIT,
            1 <= power < DENSE_LIMIT,
    ;
    assert(fraction * power <= fine * power) by (nonlinear_arith)
        requires
            fraction <= fine,
            power >= 1,
    ;
    vstd::arithmetic::div_mod::lemma_div_is_ordered(fraction * power, fine * power, fine);
    vstd::arithmetic::div_mod::lemma_div_multiples_vanish(power, fine);
}

/// The power of two that brings `num / den` as far up as it goes below the limit.
fn scale_of(num: u128, den: u128) -> (power: u128)
    requires
        0 < den <= 0x80_0000_0000_0000,
        num < DENSE_LIMIT * den,
    ensures
        power as nat == scale(num as nat, den as nat),
        1 <= power,
        num * power < DENSE_LIMIT * den,
        num > 0 ==> power < DENSE_LIMIT * den,
{
    let limit: u128 = DENSE_LIMIT as u128 * den;
    let mut grown: u128 = num;
    let mut power: u128 = 1;
    while grown != 0 && grown * 2 < limit
        invariant
            0 < den <= 0x80_0000_0000_0000,
            limit == DENSE_LIMIT * den,
            grown == num * power,
            grown < limit,
            1 <= power,
            num > 0 ==> power <= grown,
            num == 0 ==> power == 1,
            scale(num as nat, den as nat) == power as nat * scale(grown as nat, den as nat),
        decreases limit - grown,
    {
        proof {
            let rest = scale(grown as nat * 2, den as nat);
            assert(num * (power * 2) == (num * power) * 2) by (nonlinear_arith);
            assert((power as nat * 2) * rest == power as nat * (2 * rest)) by (nonlinear_arith);
        }
        grown = grown * 2;
        power = power * 2;
    }
    assert(scale(grown as nat, den as nat) == 1);
    assert(power as nat * 1 == power);
    power
}

/// The power of two by which `num / den` must be divided to come below the limit.
fn coarseness_of(num: u128, den: u128) -> (power: u128)
    requires
        0 < den <= 0x80_0000_0000_0000,
        DENSE_LIMIT * den <= num <= 0x80_0000_0000_0000_0000_0000_0000_0000,
    ensures
        power as nat == coarseness(num as nat, den as nat),
        1 <= power,
        den * power <= num,
{
    let mut wide: u128 = den;
    let mut power: u128 = 1;
    while DENSE_LIMIT as u128 * wide <= num
        invariant
            0 < den <= wide,
            wide <= 0x80_0000_0000_0000 || DENSE_LIMIT * wide <= 2 * num,
            num <= 0x80_0000_0000_0000_0000_0000_0000_0000,
            DENSE_LIMIT * den <= num,
            wide <= num,
            wide == den * power,
            1 <= power <= wide,
            coarseness(num as nat, den as nat) == power as nat * coarseness(
                num as nat,
                wide as nat,
            ),
        decreases num - wide,
    {
        proof {
            let rest = coarseness(num as nat, wide as nat * 2);
            assert(den * (power * 2) == (den * power) * 2) by (nonlinear_arith);
            assert((power as nat * 2) * rest == power as nat * (2 * rest)) by (nonlinear_arith);
        }
        wide = wide * 2;
        power = power * 2;
    }
    assert(coarseness(num as nat, wide as nat) == 1);
    assert(power as nat * 1 == power);
    power
}

/// The whole part of the double-precision value closest to `num / den`.
fn whole_double_of(num: u128, den: u128) -> (whole: u128)
    requires
        0 < den <= 0x80_0000_0000_0000,
        num <= 0x80_0000_0000_0000_0000_0000_0000_0000,
    ensures
        whole as nat == whole_double(num as nat, den as nat),
{
    if num < DENSE_LIMIT as u128 * den {
        let power: u128 = scale_of(num, den);
        nearest_of(num * power, den) / power
    } else {
        let power: u128 = coarseness_of(num, den);
        assert(den * power >= 1) by (nonlinear_arith)
            requires
                den >= 1,
                power >= 1,
        ;
        let steps: u128 = nearest_of(num, den * power);
        assert(steps * power <= 2 * num) by (nonlinear_arith)
            requires
                steps <= num as int / (den * power) as int + 1,
                den >= 1,
                power >= 1,
                den * power <= num,
        ;
        steps * power
    }
}

/// A length of time in seconds as a double-precision value, and the power of two by which it is
/// scaled.
fn scaled_seconds_of(duration: &Duration) -> (scaled: (u128, u128))
    ensures
        scaled.0 as nat == scaled_seconds(duration@),
        scaled.1 as nat == seconds_scale(duration@),
        scaled.0 <= 0x1_0000_0000_0000_0800,
        1 <= scaled.1 <= 0x100_0000_0000_0000_0000_0000,
{
    let secs: u128 = duration.as_secs() as u128;
    let nanos: u128 = duration.subsec_nanos() as u128;
    let second: u128 = NANOS_PER_SEC as u128;
    let fine: u128 = scale_of(nanos, second);
    let fraction: u128 = nearest_of(nanos * fine, second);
    proof {
        lemma_fraction_below_one(nanos as int, fine as int, second as int, fraction as int);
    }
    if secs == 0 {
        (fraction, fine)
    } else if secs < DENSE_LIMIT as u128 {
        let power: u128 = scale_of(secs, 1);
        proof {
            lemma_scaled_below(secs as int, 1, power as int);
            lemma_product_bound(fraction as int, power as int, fine as int);
        }
        let product: u128 = fraction * power;
        let floor: u128 = secs * power + product / fine;
        let rest: u128 = product % fine;
        proof {
            let num = secs as int * power as int * fine as int + product as int;
            vstd::arithmetic::div_mod::lemma_fundamental_div_mod(product as int, fine as int);
            vstd::arithmetic::div_mod::lemma_mod_bound(product as int, fine as int);
            assert(num == floor * fine + rest) by (nonlinear_arith)
                requires
                    num == secs as int * power as int * fine as int + product as int,
                    floor == secs * power + product as int / fine as int,
                    product as int == fine as int * (product as int / fine as int) + rest as int,
            ;
            vstd::arithmetic::div_mod::lemma_fundamental_div_mod_converse(
                num,
                fine as int,
                floor as int,
                rest as int,
            );
        }
        if rest * 2 > fine || rest * 2 == fine && floor % 2 == 1 {
            (floor + 1, power)
        } else {
            (floor, power)
        }
    } else {
        (double_of(secs as u64), 1)
    }
}

/// Writes a length of time in seconds with two decimals.
pub fn seconds_text(duration: &Duration) -> (text: String)
    ensures
        text@ == seconds_form(duration@),
{
    let (seconds, power): (u128, u128) = scaled_seconds_of(duration);
    let hundredths: u128 = nearest_of(seconds * 100, power);
    let mut text = wide_decimal_text(hundredths / 100);
    text.append(".");
    text.append(two_digit_text((hundredths % 100) as u64).as_str());
    text
}

/// The hundredths of a second that are shown are off by less than one.
pub(crate) proof fn lemma_hundredths_are_near(duration: nat)
    requires
        duration < 0x100_0000_0000 * NANOS_PER_SEC,
    ensures
        ({
            let hundredths = units::nearest(
                scaled_seconds(duration) * 100,
                seconds_scale(duration),
            );
            -10_000_000 < hundredths * 10_000_000 - duration < 10_000_000
        }),
{
    let power = seconds_scale(duration);
    let seconds = scaled_seconds(duration);
    let second = NANOS_PER_SEC as nat;
    let hundredths = units::nearest(seconds * 100, power);
    if duration == 0 {
        assert(0 * fraction_scale(duration) == 0);
        assert(seconds == 0);
        assert(power == 1);
    } else {
        if duration < second {
            lemma_scale(duration, second);
            units::lemma_nearest_is_near(duration * power, second);
            assert(power >= 0x1000) by (nonlinear_arith)
                requires
                    0 < duration < second,
                    DENSE_LIMIT * second <= 2 * (duration * power),
                    second == 1_000_000_000,
            ;
        } else {
            lemma_seconds_are_near(duration);
        }
        units::lemma_nearest_is_near(seconds * 100, power);
        let off = seconds * second - duration * power;
        let rounded = hundredths * power - seconds * 100;
        assert(-2 * second < off < 2 * second);
        assert((hundredths * second - 100 * duration) * power == rounded * second + 100 * off)
            by (nonlinear_arith)
            requires
                off == seconds * second - duration * power,
                rounded == hundredths * power - seconds * 100,
        ;
        let error = hundredths * second - 100 * duration;
        assert(-(power * second) < error * power < power * second) by (nonlinear_arith)
            requires
                error * power == rounded * second + 100 * off,
                -power <= 2 * rounded <= power,
                -2 * second < off < 2 * second,
                power >= 0x1000,
                second == 1_000_000_000,
        ;
        assert(-second < error < second) by (nonlinear_arith)
            requires
                -(power * second) < error * power < power * second,
                power > 0,
        ;
    }
}

/// How many whole bytes per second `bytes` in a length of time make.
pub fn rate_of(bytes: u64, duration: &Duration) -> (per_second: u64)
    requires
        NANOS_PER_SEC <= duration@ <= 10 * NANOS_PER_SEC,
    ensures
        per_second == rate(bytes, duration@),
{
    let (seconds, power): (u128, u128) = scaled_seconds_of(duration);
    let double: u128 = double_of(bytes);
    proof {
        lemma_seconds_are_near(duration@);
    }
    assert(double * power <= 0x80_0000_0000_0000_0000_0000_0000_0000) by (nonlinear_arith)
        requires
            double <= u64::MAX + 0x800,
            power < 0x20_0000_0000_0000,
    ;
    let whole: u128 = whole_double_of(double * power, seconds);
    if whole > u64::MAX as u128 {
        u64::MAX
    } else {
        whole as u64
    }
}

/// A scaled number lies in the upper half below the limit.
proof fn lemma_scale(num: nat, den: nat)
    requires
        0 < num < DENSE_LIMIT * den,
    ensures
        scale(num, den) >= 1,
        num * scale(num, den) < DENSE_LIMIT * den <= 2 * (num * scale(num, den)),
    decreases DENSE_LIMIT * den - num,
{
    if num * 2 < DENSE_LIMIT * den {
        lemma_scale(num * 2, den);
        let rest = scale(num * 2, den);
        assert(num * (2 * rest) == num * 2 * rest) by (nonlinear_arith);
    } else {
        assert(num * 1 == num);
    }
}

/// The scaled seconds are right up to two nanoseconds' worth.
proof fn lemma_seconds_are_near(duration: nat)
    requires
        NANOS_PER_SEC <= duration < 0x100_0000_0000 * NANOS_PER_SEC,
    ensures
        ({
            let power = seconds_scale(duration);
            let second = NANOS_PER_SEC as int;
            &&& 0x1000 <= power < DENSE_LIMIT
            &&& duration <= 10 * NANOS_PER_SEC ==> 0x1_0000_0000_0000 <= power
            &&& power <= scaled_seconds(duration) <= 0x80_0000_0000_0000
            &&& -2 * second < scaled_seconds(duration) * second - duration * power < 2 * second
            &&& 0x10_0000_0000_0000 * second <= duration * power
        }),
{
    let second = NANOS_PER_SEC as nat;
    let secs = duration / second;
    let nanos = duration % second;
    let power = seconds_scale(duration);
    let fine = fraction_scale(duration);
    let fraction = scaled_fraction(duration);
    let seconds = scaled_seconds(duration);
    let limit = DENSE_LIMIT as nat;
    lemma_scale(secs, 1);
    assert(0x1000 <= power < limit && secs * power >= power) by (nonlinear_arith)
        requires
            1 <= secs < 0x100_0000_0000,
            secs * power < limit <= 2 * (secs * power),
            limit == 0x20_0000_0000_0000,
    ;
    if secs <= 10 {
        assert(0x1_0000_0000_0000 <= power) by (nonlinear_arith)
            requires
                1 <= secs <= 10,
                limit <= 2 * (secs * power),
                limit == 0x20_0000_0000_0000,
        ;
    }
    if nanos == 0 {
        assert(nanos * fine == 0) by (nonlinear_arith)
            requires
                nanos == 0,
        ;
        assert(fraction == 0);
        assert(fraction * power == 0) by (nonlinear_arith)
            requires
                fraction == 0,
        ;
        assert(fine == 1);
        assert(secs * power * fine == secs * power) by (nonlinear_arith)
            requires
                fine == 1,
        ;
        assert(seconds == secs * power);
    } else {
        lemma_scale(nanos, second);
        assert(nanos * fine < second * fine) by (nonlinear_arith)
            requires
                0 < nanos < second,
                fine >= 1,
        ;
        assert(2 * fine > limit) by (nonlinear_arith)
            requires
                limit * second < 2 * (second * fine),
                second > 0,
        ;
        units::lemma_nearest_is_near(nanos * fine, second);
        units::lemma_nearest_is_near(secs * power * fine + fraction * power, fine);
        let off = fraction * second - nanos * fine;
        let off_behind = seconds * fine - (secs * power * fine + fraction * power);
        let behind = seconds - secs * power;
        assert(behind * fine == off_behind + fraction * power) by (nonlinear_arith)
            requires
                off_behind == seconds * fine - (secs * power * fine + fraction * power),
                behind == seconds - secs * power,
        ;
        assert((behind * second - nanos * power) * fine == power * off + off_behind * second)
            by (nonlinear_arith)
            requires
                off == fraction * second - nanos * fine,
                behind * fine == off_behind + fraction * power,
        ;
        assert(-2 * (second * fine) < power * off + off_behind * second < 2 * (second * fine))
            by (nonlinear_arith)
            requires
                0 < power < 2 * fine,
                -second <= 2 * off <= second,
                -fine <= 2 * off_behind <= fine,
                second > 0,
        ;
        assert(-2 * second < behind * second - nanos * power < 2 * second) by (nonlinear_arith)
            requires
                -2 * (second * fine) < (behind * second - nanos * power) * fine < 2 * (second
                    * fine),
                fine > 0,
        ;
        assert(behind >= 0) by (nonlinear_arith)
            requires
                behind * fine == off_behind + fraction * power,
                2 * off_behind >= -fine,
                fraction * power >= 0,
                fine > 0,
        ;
    }
    let behind = seconds - secs * power;
    assert(seconds * second - (secs * second + nanos) * power == behind * second - nanos * power)
        by (nonlinear_arith)
        requires
            behind == seconds - secs * power,
    ;
    vstd::arithmetic::div_mod::lemma_fundamental_div_mod(duration as int, second as int);
    assert(secs * second == second * secs) by (nonlinear_arith);
    assert(0x10_0000_0000_0000 * second <= duration * power) by (nonlinear_arith)
        requires
            duration == secs * second + nanos,
            0x20_0000_0000_0000 <= 2 * (secs * power),
            nanos >= 0,
            second > 0,
            power > 0,
    ;
    assert(seconds <= 0x80_0000_0000_0000) by (nonlinear_arith)
        requires
            seconds == secs * power + behind,
            secs * power < limit,
            behind * second - nanos * power < 2 * second,
            0 <= nanos < second,
            0 < power < limit,
            limit == 0x20_0000_0000_0000,
    ;
}

/// A rounded fraction is right up to one part in twice the limit.
proof fn lemma_whole_is_near(num: nat, den: nat)
    requires
        den > 0,
        num < DENSE_LIMIT * den,
    ensures
        whole_double(num, den) * den * DENSE_LIMIT <= num * (DENSE_LIMIT + 1),
        num > 0 ==> num * (DENSE_LIMIT - 1) < (whole_double(num, den) + 1) * den * DENSE_LIMIT,
{
    let power = scale(num, den);
    let rounded = units::nearest(num * power, den);
    let whole = rounded / power;
    let limit = DENSE_LIMIT as int;
    if num == 0 {
        assert(num * power == 0) by (nonlinear_arith)
            requires
                num == 0,
        ;
        assert(rounded == 0);
        assert(whole == 0);
        assert(whole * den * limit == 0) by (nonlinear_arith)
            requires
                whole == 0,
        ;
    } else {
        lemma_scale(num, den);
        units::lemma_nearest_is_near(num * power, den);
        vstd::arithmetic::div_mod::lemma_fundamental_div_mod(rounded as int, power as int);
        vstd::arithmetic::div_mod::lemma_mod_bound(rounded as int, power as int);
        let rest = rounded % power;
        let product = num * power;
        assert(limit * (rounded * den) <= product * (limit + 1) && product * (limit - 1) <= limit * (
        rounded * den)) by (nonlinear_arith)
            requires
                -den <= 2 * (rounded * den - product) <= den,
                limit * den <= 2 * product,
                limit > 1,
        ;
        assert(whole * power <= rounded && rounded < (whole + 1) * power) by (nonlinear_arith)
            requires
                rounded == power * whole + rest,
                0 <= rest < power,
        ;
        assert((whole * den * limit) * power <= (num * (limit + 1)) * power && (num * (limit - 1))
            * power < ((whole + 1) * den * limit) * power) by (nonlinear_arith)
            requires
                whole * power <= rounded,
                rounded < (whole + 1) * power,
                limit * (rounded * den) <= product * (limit + 1),
                product * (limit - 1) <= limit * (rounded * den),
                product == num * power,
                den >= 1,
                limit > 1,
        ;
        assert(whole * den * limit <= num * (limit + 1) && num * (limit - 1) < (whole + 1) * den
            * limit) by (nonlinear_arith)
            requires
                (whole * den * limit) * power <= (num * (limit + 1)) * power,
                (num * (limit - 1)) * power < ((whole + 1) * den * limit) * power,
                power >= 1,
        ;
    }
}

/// Below the range in which double-precision values thin out, a number of bytes is its own
/// double-precision value, and the quotient stays below the limit.
proof fn lemma_dense_quotient(bytes: u64, duration: nat)
    requires
        bytes < DENSE_LIMIT,
        NANOS_PER_SEC <= duration <= 10 * NANOS_PER_SEC,
    ensures
        ({
            let num = bytes as nat * seconds_scale(duration);
            let seconds = scaled_seconds(duration);
            &&& units::as_double(bytes) == bytes
            &&& seconds > 0
            &&& num <= bytes * seconds
            &&& num < DENSE_LIMIT * seconds
            &&& rate(bytes, duration) == whole_double(num, seconds)
        }),
{
    let power = seconds_scale(duration);
    let seconds = scaled_seconds(duration);
    let num = bytes as nat * power;
    assert(units::grain(bytes as nat) == 1);
    assert(units::nearest(bytes as nat, 1) == bytes);
    assert(units::as_double(bytes) == bytes);
    lemma_seconds_are_near(duration);
    assert(num <= bytes * seconds && num < DENSE_LIMIT * seconds) by (nonlinear_arith)
        requires
            num == bytes * power,
            0 < power <= seconds,
            bytes < DENSE_LIMIT,
    ;
    lemma_whole_is_near(num, seconds);
    let whole = whole_double(num, seconds);
    assert(whole <= 2 * bytes) by (nonlinear_arith)
        requires
            whole * seconds * DENSE_LIMIT <= num * (DENSE_LIMIT + 1),
            num <= bytes * seconds,
            seconds > 0,
            bytes >= 0,
    ;
}

/// The throughput that is shown is what was carried, divided by the time, up to one part in 2^50
/// and cut to whole bytes.
pub proof fn shown_rate_is_near(bytes: u64, duration: nat)
    requires
        bytes < DENSE_LIMIT,
        NANOS_PER_SEC <= duration <= 10 * NANOS_PER_SEC,
    ensures
        rate(bytes, duration) * duration * 0x4_0000_0000_0000 <= bytes * NANOS_PER_SEC
            * 0x4_0000_0000_0001,
        bytes * NANOS_PER_SEC * 0x3_ffff_ffff_ffff <= (rate(bytes, duration) + 1) * duration
            * 0x4_0000_0000_0000,
        bytes > 0 ==> bytes * NANOS_PER_SEC * 0x3_ffff_ffff_ffff < (rate(bytes, duration) + 1)
            * duration * 0x4_0000_0000_0000,
{
    let power = seconds_scale(duration);
    let seconds = scaled_seconds(duration);
    let second = NANOS_PER_SEC as nat;
    let num = bytes as nat * power;
    let whole = rate(bytes, duration) as nat;
    lemma_seconds_are_near(duration);
    lemma_dense_quotient(bytes, duration);
    lemma_whole_is_near(num, seconds);
    if bytes == 0 {
        assert(whole == 0) by (nonlinear_arith)
            requires
                whole * seconds * DENSE_LIMIT <= num * (DENSE_LIMIT + 1),
                num == 0 * power,
                seconds > 0,
                whole >= 0,
        ;
        assert(whole * duration == 0) by (nonlinear_arith)
            requires
                whole == 0,
        ;
        assert((whole + 1) * duration >= 0) by (nonlinear_arith)
            requires
                whole == 0,
        ;
    } else {
        assert(num > 0) by (nonlinear_arith)
            requires
                num == bytes * power,
                bytes > 0,
                power > 0,
        ;
        let carried = bytes * second;
        let base = duration * power;
        let scaled = seconds * second;
        // The scaled seconds are right up to one part in 2^51.
        assert(scaled * 0x8_0000_0000_0000 >= base * 0x7_ffff_ffff_ffff && scaled * 0x8_0000_0000_0000
            <= base * 0x8_0000_0000_0001);
        // The quotient of the scaled seconds is right up to one part in 2^53.
        assert(whole * scaled * DENSE_LIMIT <= carried * power * (DENSE_LIMIT + 1)) by (nonlinear_arith)
            requires
                whole * seconds * DENSE_LIMIT <= num * (DENSE_LIMIT + 1),
                scaled == seconds * second,
                carried == bytes * second,
                num == bytes * power,
                second >= 0,
        ;
        assert(carried * power * (DENSE_LIMIT - 1) < (whole + 1) * scaled * DENSE_LIMIT)
            by (nonlinear_arith)
            requires
                num * (DENSE_LIMIT - 1) < (whole + 1) * seconds * DENSE_LIMIT,
                scaled == seconds * second,
                carried == bytes * second,
                num == bytes * power,
                second > 0,
        ;
        let low = whole * duration;
        let high = (whole + 1) * duration;
        assert(whole * scaled * 0x8_0000_0000_0000 >= low * power * 0x7_ffff_ffff_ffff)
            by (nonlinear_arith)
            requires
                scaled * 0x8_0000_0000_0000 >= base * 0x7_ffff_ffff_ffff,
                base == duration * power,
                low == whole * duration,
                whole >= 0,
        ;
        assert((whole + 1) * scaled * 0x8_0000_0000_0000 <= high * power * 0x8_0000_0000_0001)
            by (nonlinear_arith)
            requires
                scaled * 0x8_0000_0000_0000 <= base * 0x8_0000_0000_0001,
                base == duration * power,
                high == (whole + 1) * duration,
                whole >= 0,
        ;
        let below = low * power;
        let above = high * power;
        let exact = carried * power;
        assert(below * 0x4_0000_0000_0000 <= exact * 0x4_0000_0000_0001);
        assert(exact * 0x3_ffff_ffff_ffff < above * 0x4_0000_0000_0000);
        assert(low * 0x4_0000_0000_0000 <= carried * 0x4_0000_0000_0001) by (nonlinear_arith)
            requires
                (low * power) * 0x4_0000_0000_0000 <= (carried * power) * 0x4_0000_0000_0001,
                power > 0,
        ;
        assert(carried * 0x3_ffff_ffff_ffff < high * 0x4_0000_0000_0000) by (nonlinear_arith)
            requires
                (carried * power) * 0x3_ffff_ffff_ffff < (high * power) * 0x4_0000_0000_0000,
                power > 0,
        ;
    }
}

/// The throughput that is shown is the whole part of what was carried, divided by the time, unless
/// that quotient is within one part in 2^50 of a whole number.
pub proof fn shown_rate_is_the_whole_part(bytes: u64, duration: nat)
    requires
        bytes < DENSE_LIMIT,
        NANOS_PER_SEC <= duration <= 10 * NANOS_PER_SEC,
        bytes * NANOS_PER_SEC % duration as int * 0x4_0000_0000_0000 >= bytes * NANOS_PER_SEC,
        (duration - bytes * NANOS_PER_SEC % duration as int) * 0x4_0000_0000_0000 > bytes
            * NANOS_PER_SEC,
    ensures
        rate(bytes, duration) == bytes * NANOS_PER_SEC / duration as int,
{
    let carried = bytes * NANOS_PER_SEC;
    let whole = carried / duration as int;
    let rest = carried % duration as int;
    let shown = rate(bytes, duration) as int;
    shown_rate_is_near(bytes, duration);
    vstd::arithmetic::div_mod::lemma_fundamental_div_mod(carried, duration as int);
    assert(carried == whole * duration + rest) by (nonlinear_arith)
        requires
            carried == duration * whole + rest,
    ;
    if shown >= whole + 1 {
        assert(shown * duration >= whole * duration + duration) by (nonlinear_arith)
            requires
                shown >= whole + 1,
                duration >= 0,
        ;
    }
    if shown + 1 <= whole {
        assert((shown + 1) * duration <= whole * duration) by (nonlinear_arith)
            requires
                shown + 1 <= whole,
                duration >= 0,
        ;
    }
}

/// Over a whole number of seconds the throughput that is shown is the whole part of what was
/// carried, divided by the seconds.
pub proof fn shown_rate_over_whole_seconds(bytes: u64, secs: nat)
    requires
        bytes < DENSE_LIMIT,
        1 <= secs <= 10,
    ensures
        rate(bytes, secs * NANOS_PER_SEC as nat) == bytes as nat / secs,
{
    let duration = secs * NANOS_PER_SEC as nat;
    let power = seconds_scale(duration);
    let seconds = scaled_seconds(duration);
    let num = bytes as nat * power;
    assert(duration / NANOS_PER_SEC as nat == secs && duration % NANOS_PER_SEC as nat == 0);
    lemma_scale(secs, 1);
    lemma_dense_quotient(bytes, duration);
    assert(scaled_fraction(duration) == 0);
    assert(seconds == secs * power) by {
        assert(0 * power == 0);
        assert(secs * power * 1 == secs * power);
    }
    let whole = bytes as nat / secs;
    let rest = bytes as nat % secs;
    vstd::arithmetic::div_mod::lemma_fundamental_div_mod(bytes as int, secs as int);
    if bytes == 0 {
        assert(num == 0) by (nonlinear_arith)
            requires
                num == 0 * power,
        ;
    } else {
        let fine = scale(num, seconds);
        let rounded = units::nearest(num * fine, seconds);
        assert(num > 0) by (nonlinear_arith)
            requires
                num == bytes * power,
                bytes > 0,
                power > 0,
        ;
        lemma_scale(num, seconds);
        units::lemma_nearest_is_near(num * fine, seconds);
        // A whole number of bytes per second is a whole number of scaled parts.
        assert(num == whole * seconds + rest * power) by (nonlinear_arith)
            requires
                num == bytes * power,
                bytes == secs * whole + rest,
                seconds == secs * power,
        ;
        assert(num * fine == (whole * fine) * seconds + rest * power * fine) by (nonlinear_arith)
            requires
                num == whole * seconds + rest * power,
        ;
        // One part is less than twice what is missing to the next whole number.
        assert(2 * fine > secs) by (nonlinear_arith)
            requires
                DENSE_LIMIT * seconds <= 2 * (num * fine),
                num == bytes * power,
                seconds == secs * power,
                bytes < DENSE_LIMIT,
                power > 0,
                fine >= 1,
                secs >= 1,
        ;
        assert(rounded >= whole * fine) by (nonlinear_arith)
            requires
                num * fine == (whole * fine) * seconds + rest * power * fine,
                2 * (rounded * seconds - num * fine) >= -seconds,
                seconds > 0,
                rest * power * fine >= 0,
        ;
        assert(rounded < (whole + 1) * fine) by (nonlinear_arith)
            requires
                num * fine == (whole * fine) * seconds + rest * power * fine,
                2 * (rounded * seconds - num * fine) <= seconds,
                seconds == secs * power,
                seconds > 0,
                power > 0,
                rest + 1 <= secs,
                2 * fine > secs,
        ;
        assert(rounded / fine == whole) by {
            let over = rounded - whole * fine;
            assert(rounded == whole * fine + over && 0 <= over < fine) by (nonlinear_arith)
                requires
                    over == rounded - whole * fine,
                    rounded >= whole * fine,
                    rounded < (whole + 1) * fine,
            ;
            vstd::arithmetic::div_mod::lemma_fundamental_div_mod_converse(
                rounded as int,
                fine as int,
                whole as int,
                over,
            );
        }
    }
}

/// Whether `count` times `unit` is at most `amount`.
pub open spec fn reaches(count: nat, unit: nat, amount: nat) -> bool {
    count * unit <= amount
}

/// The whole part of a quotient is the largest number that it reaches.
proof fn lemma_reaches(count: nat, unit: nat, amount: nat)
    requires
        unit > 0,
    ensures
        reaches(count, unit, amount) == (count <= amount / unit),
{
    vstd::arithmetic::div_mod::lemma_fundamental_div_mod(amount as int, unit as int);
    vstd::arithmetic::div_mod::lemma_mod_bound(amount as int, unit as int);
    let whole = amount / unit;
    let rest = amount % unit;
    assert(amount == whole * unit + rest) by (nonlinear_arith)
        requires
            amount == unit * whole + rest,
    ;
    if count <= whole {
        assert(count * unit <= whole * unit) by (nonlinear_arith)
            requires
                count <= whole,
        ;
    } else {
        assert(count * unit >= whole * unit + unit) by (nonlinear_arith)
            requires
                count >= whole + 1,
        ;
    }
}

/// The throughput that is shown is the whole part of what was carried, divided by the time, exactly
/// where no whole number lies between that quotient and its double-precision value.
pub proof fn shown_rate_is_the_whole_part_unless_rounded_across(bytes: u64, duration: nat)
    requires
        bytes < DENSE_LIMIT,
        NANOS_PER_SEC <= duration <= 10 * NANOS_PER_SEC,
    ensures
        ({
            let carried = bytes as nat * NANOS_PER_SEC as nat;
            let num = bytes as nat * seconds_scale(duration);
            let power = scale(num, scaled_seconds(duration));
            let double = units::nearest(num * power, scaled_seconds(duration));
            rate(bytes, duration) == carried / duration <==> forall|count: nat| #[trigger]
                reaches(count, duration, carried) == reaches(count, power, double)
        }),
{
    let carried = bytes as nat * NANOS_PER_SEC as nat;
    let num = bytes as nat * seconds_scale(duration);
    let seconds = scaled_seconds(duration);
    let power = scale(num, seconds);
    let double = units::nearest(num * power, seconds);
    lemma_dense_quotient(bytes, duration);
    if num > 0 {
        lemma_scale(num, seconds);
    }
    assert(rate(bytes, duration) == double / power);
    if carried / duration == double / power {
        assert forall|count: nat| #[trigger]
            reaches(count, duration, carried) == reaches(count, power, double) by {
            lemma_reaches(count, duration, carried);
            lemma_reaches(count, power, double);
        }
    } else {
        let count = if carried / duration > double / power {
            carried / duration
        } else {
            double / power
        };
        lemma_reaches(count, duration, carried);
        lemma_reaches(count, power, double);
        assert(reaches(count, duration, carried) != reaches(count, power, double));
    }
}

} // verus!
