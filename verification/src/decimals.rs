//! Fractions as they read once they are held in a double.

use crate::text::{
    a_number_reads_as_itself, a_padded_number_reads_as_itself, decimal, decimal_text, number_in, padded, padded_text,
    power_of_ten,
};
use vstd::prelude::*;

verus! {

/// Two to the fifty-second: a double's fraction has that many values for each power of two.
pub const FRACTION_STEPS: u128 = 0x10_0000_0000_0000;

/// A quotient rounded to a whole number, a half to the even one.
pub open spec fn half_even(a: int, b: int) -> int {
    let whole = a / b;
    let rest = a % b;
    if 2 * rest > b || (2 * rest == b && whole % 2 == 1) {
        whole + 1
    } else {
        whole
    }
}

/// A quotient rounded to a whole number, a half to the larger one.
pub open spec fn half_up(a: int, b: int) -> int {
    let whole = a / b;
    if 2 * (a % b) >= b {
        whole + 1
    } else {
        whole
    }
}

/// A number doubled until it reaches a limit, and the power of two that it was multiplied by.
pub open spec fn grown(value: int, power: int, limit: int) -> (int, int)
    decreases 2 * limit - value,
{
    if value <= 0 || value >= limit {
        (value, power)
    } else {
        grown(2 * value, 2 * power, limit)
    }
}

/// The double nearest to a fraction below two to the fifty-second: a whole number of steps, and how
/// many steps make one.
pub open spec fn double(n: int, d: int) -> (int, int) {
    let raised = grown(n, 1, d * FRACTION_STEPS);
    (half_even(raised.0, d), raised.1)
}

/// How many parts of one, so many to the one, the double nearest to a fraction reads as.
pub open spec fn shown(n: int, d: int, parts: int) -> int {
    let held = double(n, d);
    half_even(held.0 * parts, held.1)
}

/// The double nearest to a fraction as text with some decimals, of which the parts are the power of
/// ten.
pub open spec fn fixed(n: int, d: int, parts: int, decimals: nat) -> Seq<char> {
    (decimal((shown(n, d, parts) / parts) as nat) + "."@) + padded((shown(n, d, parts) % parts) as nat, decimals)
}

/// A size times the double nearest to some thousandths, rounded to a whole number.
pub open spec fn scaled(size: int, thousandths: int) -> int {
    let factor = double(thousandths, 1_000);
    let product = double(size * factor.0, factor.1);
    half_up(product.0, product.1)
}

fn round_half_even(a: u128, b: u128) -> (result: u128)
    requires
        0 < b <= 0x2_0000_0000_0000_0000_0000_0000_0000,
        a <= 0x1000_0000_0000_0000_0000_0000_0000_0000,
    ensures
        result == half_even(a as int, b as int),
        result <= a + 1,
{
    let whole: u128 = a / b;
    let rest: u128 = a % b;
    assert(whole <= a) by (nonlinear_arith)
        requires
            whole == (a as int) / (b as int),
            b > 0,
    ;
    assert(rest < b) by (nonlinear_arith)
        requires
            rest == (a as int) % (b as int),
            b > 0,
    ;
    if 2 * rest > b || (2 * rest == b && whole % 2 == 1) {
        whole + 1
    } else {
        whole
    }
}

/// The double nearest to a fraction.
fn hold(n: u128, d: u128) -> (held: (u128, u128))
    requires
        0 < d <= 0x1000_0000_0000_0000,
        n < d * FRACTION_STEPS,
    ensures
        held.0 == double(n as int, d as int).0,
        held.1 == double(n as int, d as int).1,
        held.0 <= 2 * FRACTION_STEPS,
        0 < held.1 <= 0x2_0000_0000_0000_0000_0000_0000_0000,
        held.0 <= n * held.1 + 1,
        n * held.1 < 2 * (d * FRACTION_STEPS),
{
    assert(d * FRACTION_STEPS <= 0x1_0000_0000_0000_0000_0000_0000_0000) by (nonlinear_arith)
        requires
            d <= 0x1000_0000_0000_0000,
            FRACTION_STEPS == 0x10_0000_0000_0000u128,
    ;
    let limit: u128 = d * FRACTION_STEPS;
    let mut value: u128 = n;
    let mut power: u128 = 1;
    while value > 0 && value < limit
        invariant
            limit == d * FRACTION_STEPS,
            0 < limit <= 0x1_0000_0000_0000_0000_0000_0000_0000,
            value < 2 * limit,
            0 < power,
            value == n * power,
            value > 0 ==> power <= value,
            value == 0 ==> power == 1,
            grown(n as int, 1, limit as int) == grown(value as int, power as int, limit as int),
        decreases 2 * limit - value,
    {
        assert(n * (2 * power) == 2 * (n * power)) by (nonlinear_arith);
        value = 2 * value;
        power = 2 * power;
    }
    assert((value as int) / (d as int) <= 2 * FRACTION_STEPS - 1) by (nonlinear_arith)
        requires
            value < 2 * (d * FRACTION_STEPS),
            d > 0,
    ;
    let steps: u128 = round_half_even(value, d);
    (steps, power)
}

/// Writes the double nearest to a fraction with some decimals.
pub fn fixed_text(n: u64, d: u64, parts: u64, decimals: usize) -> (text: String)
    requires
        0 < d <= 0x1000_0000_0000_0000,
        n < d * 0x400_0000,
        0 < parts <= 1_000_000_000,
    ensures
        text@ == fixed(n as int, d as int, parts as int, decimals as nat),
{
    let held: (u128, u128) = hold(n as u128, d as u128);
    assert(held.0 * parts <= 2 * FRACTION_STEPS * parts && 2 * FRACTION_STEPS * parts <= 2 * FRACTION_STEPS
        * 1_000_000_000) by (nonlinear_arith)
        requires
            held.0 <= 2 * FRACTION_STEPS,
            0 < parts <= 1_000_000_000,
    ;
    let count: u128 = held.0 * parts as u128;
    let number: u128 = round_half_even(count, held.1);
    assert((number as int) / (parts as int) <= 2 * FRACTION_STEPS + 1 && 0 <= (number as int) % (parts as int) < parts)
        by (nonlinear_arith)
        requires
            number <= 2 * FRACTION_STEPS * parts + 1,
            0 < parts,
    ;
    let mut text: String = decimal_text((number / parts as u128) as u64);
    text.append(".");
    let rest: String = padded_text((number % parts as u128) as u64, decimals);
    text.append(rest.as_str());
    text
}

/// A size times the double nearest to some thousandths, rounded to a whole number.
pub fn scale(size: u32, thousandths: u32) -> (result: u64)
    requires
        size <= 0x10_0000,
        32 <= thousandths <= 0x1000,
    ensures
        result == scaled(size as int, thousandths as int),
{
    let factor: (u128, u128) = hold(thousandths as u128, 1_000);
    assert(factor.1 <= 0x1000_0000_0000_0000) by (nonlinear_arith)
        requires
            thousandths * factor.1 < 2 * (1_000 * FRACTION_STEPS),
            thousandths >= 32,
            FRACTION_STEPS == 0x10_0000_0000_0000u128,
    ;
    assert(size * factor.0 < factor.1 * FRACTION_STEPS) by (nonlinear_arith)
        requires
            factor.0 <= thousandths * factor.1 + 1,
            size <= 0x10_0000,
            thousandths <= 0x1000,
            factor.1 > 0,
            FRACTION_STEPS == 0x10_0000_0000_0000u128,
    ;
    assert(factor.1 * FRACTION_STEPS <= 0x1_0000_0000_0000_0000_0000_0000_0000) by (nonlinear_arith)
        requires
            factor.1 <= 0x1000_0000_0000_0000,
            FRACTION_STEPS == 0x10_0000_0000_0000u128,
    ;
    let product: (u128, u128) = hold(size as u128 * factor.0, factor.1);
    let whole: u128 = product.0 / product.1;
    let rest: u128 = product.0 % product.1;
    assert(whole <= product.0 && rest < product.1) by (nonlinear_arith)
        requires
            whole == (product.0 as int) / (product.1 as int),
            rest == (product.0 as int) % (product.1 as int),
            product.1 > 0,
    ;
    if 2 * rest >= product.1 {
        (whole + 1) as u64
    } else {
        whole as u64
    }
}

proof fn lemma_grown(value: int, power: int, n: int, limit: int)
    requires
        value == n * power,
        n > 0,
        power > 0,
        limit > 0,
    ensures
        grown(value, power, limit).0 == n * grown(value, power, limit).1,
        grown(value, power, limit).0 >= limit,
        grown(value, power, limit).1 > 0,
    decreases 2 * limit - value,
{
    if value < limit {
        assert(value > 0) by (nonlinear_arith)
            requires
                value == n * power,
                n > 0,
                power > 0,
        ;
        assert(2 * value == n * (2 * power)) by (nonlinear_arith)
            requires
                value == n * power,
        ;
        lemma_grown(2 * value, 2 * power, n, limit);
    }
}

proof fn lemma_half_even(a: int, b: int)
    requires
        b > 0,
    ensures
        -b <= 2 * (half_even(a, b) * b - a) <= b,
{
    vstd::arithmetic::div_mod::lemma_fundamental_div_mod(a, b);
    vstd::arithmetic::div_mod::lemma_mod_bound(a, b);
    let whole = a / b;
    assert(whole * b == b * whole && (whole + 1) * b == b * whole + b) by (nonlinear_arith);
}

/// A fraction that is shown in parts of one is shown as the nearest number of parts: no other is nearer. A fraction
/// that is a whole number of parts is shown as that number.
pub proof fn the_nearest_part_is_shown(n: int, d: int, parts: int)
    requires
        n >= 0,
        d > 0,
        parts > 0,
        n * parts < FRACTION_STEPS,
    ensures
        -d <= 2 * (shown(n, d, parts) * d - n * parts) <= d,
        forall|whole: int| #[trigger] (whole * d) == n * parts ==> shown(n, d, parts) == whole,
{
    let limit = d * FRACTION_STEPS;
    assert(limit > 0) by (nonlinear_arith)
        requires
            d > 0,
            limit == d * FRACTION_STEPS,
            FRACTION_STEPS == 0x10_0000_0000_0000u128,
    ;
    let held = double(n, d);
    let steps = held.0;
    let power = held.1;
    let result = shown(n, d, parts);
    let off = result * d - n * parts;
    if n == 0 {
        assert(grown(0, 1, limit) == (0int, 1int));
        lemma_half_even(0, d);
        assert(0int / d == 0 && 0int % d == 0) by (nonlinear_arith)
            requires
                d > 0,
        ;
        assert(steps == 0);
        assert(0 * parts == 0) by (nonlinear_arith);
        assert(result == 0);
        assert(0 * d == 0) by (nonlinear_arith);
        assert(off == 0);
    } else {
        lemma_grown(n, 1, n, limit);
        lemma_half_even(n * power, d);
        lemma_half_even(steps * parts, power);
        assert(power > d * parts) by (nonlinear_arith)
            requires
                n * power >= d * FRACTION_STEPS,
                n * parts < FRACTION_STEPS,
                n > 0,
                d > 0,
                power > 0,
        ;
        let near = result * power - steps * parts;
        let held_off = steps * d - n * power;
        assert(off * power == near * d + held_off * parts) by (nonlinear_arith)
            requires
                off == result * d - n * parts,
                near == result * power - steps * parts,
                held_off == steps * d - n * power,
        ;
        assert(-(power * d + d * parts) <= 2 * (off * power) <= power * d + d * parts) by (nonlinear_arith)
            requires
                off * power == near * d + held_off * parts,
                -power <= 2 * near <= power,
                -d <= 2 * held_off <= d,
                d > 0,
                parts > 0,
        ;
        assert(-d <= 2 * off <= d) by (nonlinear_arith)
            requires
                -(power * d + d * parts) <= 2 * (off * power) <= power * d + d * parts,
                power > d * parts,
                power > 0,
        ;
    }
    assert forall|whole: int| #[trigger] (whole * d) == n * parts implies result == whole by {
        assert(result == whole) by (nonlinear_arith)
            requires
                -d <= 2 * (result * d - whole * d) <= d,
                d > 0,
        ;
    }
}

/// A fraction that is written with some decimals reads as the nearest number of parts.
pub proof fn a_fraction_reads_as_its_nearest_part(n: int, d: int, parts: int, decimals: nat) -> (texts: (Seq<char>, Seq<char>))
    requires
        n >= 0,
        d > 0,
        decimals > 0,
        parts == power_of_ten(decimals),
        n * parts < FRACTION_STEPS,
    ensures
        fixed(n, d, parts, decimals) == texts.0 + "."@ + texts.1,
        texts.1.len() == decimals,
        ({
            let read = parts * number_in(texts.0) + number_in(texts.1);
            -d <= 2 * (read * d - n * parts) <= d
        }),
{
    lemma_power_of_ten(decimals);
    the_nearest_part_is_shown(n, d, parts);
    let number = shown(n, d, parts);
    assert(number >= 0) by (nonlinear_arith)
        requires
            -d <= 2 * (number * d - n * parts),
            n >= 0,
            parts > 0,
            d > 0,
    ;
    vstd::arithmetic::div_mod::lemma_fundamental_div_mod(number, parts);
    vstd::arithmetic::div_mod::lemma_mod_bound(number, parts);
    vstd::arithmetic::div_mod::lemma_div_pos_is_pos(number, parts);
    a_number_reads_as_itself((number / parts) as nat);
    a_padded_number_reads_as_itself((number % parts) as nat, decimals);
    (decimal((number / parts) as nat), padded((number % parts) as nat, decimals))
}

proof fn lemma_power_of_ten(width: nat)
    ensures
        power_of_ten(width) > 0,
    decreases width,
{
    if width > 0 {
        lemma_power_of_ten((width - 1) as nat);
    }
}

} // verus!
