//! Doubles by their bits: what a number of seconds is, and what it comes to on an integer clock.

use crate::decimals::{half_even, half_up};
use vstd::prelude::*;

verus! {

/// The bits of a double without its sign.
pub open spec fn magnitude_bits(bits: u64) -> int {
    bits as int % 0x8000_0000_0000_0000
}

pub open spec fn is_negative(bits: u64) -> bool {
    bits >= 0x8000_0000_0000_0000
}

/// Whether a double is a number: neither infinite nor undefined.
pub open spec fn is_finite(bits: u64) -> bool {
    magnitude_bits(bits) < 0x7ff0_0000_0000_0000
}

/// Whether a double is a number that is not below zero. Zero may carry a sign.
pub open spec fn is_non_negative(bits: u64) -> bool {
    is_finite(bits) && (!is_negative(bits) || magnitude_bits(bits) == 0)
}

/// Whether a double is a number above another that is not below zero. The bits of such numbers are in
/// the numbers' own order.
pub open spec fn is_above(bits: u64, other: u64) -> bool {
    is_finite(bits) && !is_negative(bits) && magnitude_bits(bits) > magnitude_bits(other)
}

pub open spec fn power(exponent: int) -> int
    decreases exponent,
{
    if exponent <= 0 {
        1
    } else {
        2 * power(exponent - 1)
    }
}

/// How many steps a finite double has, without its sign.
pub open spec fn steps(bits: u64) -> int {
    let fraction = magnitude_bits(bits) % 0x10_0000_0000_0000;
    if magnitude_bits(bits) < 0x10_0000_0000_0000 {
        fraction
    } else {
        fraction + 0x10_0000_0000_0000
    }
}

/// The power of two that one step of a finite double is.
pub open spec fn step_exponent(bits: u64) -> int {
    let field = magnitude_bits(bits) / 0x10_0000_0000_0000;
    if field == 0 {
        -1_074
    } else {
        field - 1_075
    }
}

/// How many of a number's lowest bits do not fit a double.
pub open spec fn surplus(value: int) -> int
    decreases value,
{
    if value < 0x20_0000_0000_0000 {
        0
    } else {
        1 + surplus(value / 2)
    }
}

proof fn lemma_power(exponent: int)
    ensures
        power(exponent) >= 1,
        exponent >= 0 ==> power(exponent + 1) == 2 * power(exponent),
    decreases exponent,
{
    if exponent > 0 {
        lemma_power(exponent - 1);
    }
}

proof fn lemma_power_grows(less: int, more: int)
    requires
        0 <= less <= more,
    ensures
        power(less) <= power(more),
    decreases more,
{
    lemma_power(more - 1);
    if less < more {
        lemma_power_grows(less, more - 1);
    }
}

/// A double that is not below zero, times a whole number: the product is a double again, and is then
/// rounded to a whole number, a half up. It is `None` above two to the sixty-third.
pub open spec fn product(bits: u64, factor: int) -> Option<int> {
    let exact = steps(bits) * factor;
    let dropped = surplus(exact);
    let held = half_even(exact, power(dropped));
    let exponent = step_exponent(bits) + dropped;
    if exponent < 0 {
        Some(half_up(held, power(-exponent)))
    } else if held * power(exponent) <= 0x8000_0000_0000_0000 {
        Some(held * power(exponent))
    } else {
        None
    }
}

/// Whether a double is a number that is not below zero.
pub fn not_below_zero(bits: u64) -> (result: bool)
    ensures
        result == is_non_negative(bits),
{
    bits < 0x7ff0_0000_0000_0000 || bits == 0x8000_0000_0000_0000
}

/// Whether a double is a number above another that is not below zero.
pub fn lies_above(bits: u64, other: u64) -> (result: bool)
    requires
        is_non_negative(other),
    ensures
        result == is_above(bits, other),
{
    let base: u64 = if other == 0x8000_0000_0000_0000 {
        0
    } else {
        other
    };
    bits < 0x7ff0_0000_0000_0000 && bits > base
}

proof fn lemma_powers()
    ensures
        power(16) == 0x1_0000,
        power(32) == 0x1_0000_0000,
        power(64) == 0x1_0000_0000_0000_0000,
{
    reveal_with_fuel(power, 17);
    lemma_power_adds(16, 16);
    lemma_power_adds(32, 32);
}

proof fn lemma_power_adds(a: int, b: int)
    requires
        0 <= a,
        0 <= b,
    ensures
        power(a + b) == power(a) * power(b),
    decreases b,
{
    if b > 0 {
        lemma_power_adds(a, b - 1);
        lemma_power(a + b - 1);
        lemma_power(b - 1);
        assert(power(a) * (2 * power(b - 1)) == 2 * (power(a) * power(b - 1))) by (nonlinear_arith);
    }
}

fn raise(exponent: u64) -> (result: u128)
    requires
        exponent <= 64,
    ensures
        result == power(exponent as int),
        1 <= result <= 0x1_0000_0000_0000_0000,
{
    let mut result: u128 = 1;
    let mut done: u64 = 0;
    proof {
        lemma_powers();
        lemma_power_grows(exponent as int, 64);
    }
    while done < exponent
        invariant
            done <= exponent <= 64,
            result == power(done as int),
            power(exponent as int) <= 0x1_0000_0000_0000_0000,
        decreases exponent - done,
    {
        proof {
            lemma_power(done as int);
            lemma_power_grows(done as int + 1, exponent as int);
        }
        result = 2 * result;
        done += 1;
    }
    proof {
        lemma_power(exponent as int);
    }
    result
}

/// The number rounded to the bits that a double has, and how many were dropped.
fn hold(exact: u128) -> (held: (u128, u64))
    requires
        exact <= 0x1_0000_0000_0000_0000_0000,
    ensures
        held.1 == surplus(exact as int),
        held.1 <= 28,
        held.0 == half_even(exact as int, power(held.1 as int)),
        held.0 <= 0x20_0000_0000_0000,
{
    let mut value: u128 = exact;
    let mut dropped: u64 = 0;
    let mut unit: u128 = 1;
    while value >= 0x20_0000_0000_0000
        invariant
            dropped + surplus(value as int) == surplus(exact as int),
            unit == power(dropped as int),
            value * unit <= exact < (value + 1) * unit,
            exact <= 0x1_0000_0000_0000_0000_0000,
            1 <= unit,
            dropped <= 28,
        decreases value,
    {
        proof {
            lemma_power(dropped as int);
            assert(value / 2 * (2 * unit) <= value * unit && (value + 1) * unit <= (value / 2 + 1) * (2 * unit)
                && 0x20_0000_0000_0000 * unit <= value * unit) by (nonlinear_arith)
                requires
                    value >= 0x20_0000_0000_0000,
                    unit >= 1,
            ;
            if dropped >= 28 {
                lemma_powers();
                lemma_power_adds(16, 12);
                lemma_power_grows(28, dropped as int);
                reveal_with_fuel(power, 13);
            }
        }
        value = value / 2;
        unit = 2 * unit;
        dropped += 1;
    }
    let rest: u128 = exact - value * unit;
    proof {
        assert((value + 1) * unit == value * unit + unit) by (nonlinear_arith);
        vstd::arithmetic::div_mod::lemma_fundamental_div_mod_converse(
            exact as int,
            unit as int,
            value as int,
            rest as int,
        );
    }
    let rounded: u128 = if 2 * rest > unit || (2 * rest == unit && value % 2 == 1) {
        value + 1
    } else {
        value
    };
    (rounded, dropped)
}

proof fn lemma_surplus_leaves_bits(value: int)
    requires
        value > 0,
    ensures
        surplus(value) >= 0,
        value / power(surplus(value)) > 0,
    decreases value,
{
    if value >= 0x20_0000_0000_0000 {
        lemma_surplus_leaves_bits(value / 2);
        let less = surplus(value / 2);
        lemma_power(less);
        vstd::arithmetic::div_mod::lemma_div_denominator(value, 2, power(less));
    }
}

proof fn lemma_held_is_positive(value: int)
    requires
        value > 0,
    ensures
        half_even(value, power(surplus(value))) > 0,
        power(52) == 0x10_0000_0000_0000,
{
    lemma_surplus_leaves_bits(value);
    lemma_powers();
    lemma_power_adds(32, 16);
    lemma_power_adds(48, 4);
    reveal_with_fuel(power, 5);
}

/// How many times a number is doubled until it has all the bits that a double has.
pub open spec fn doublings(value: int) -> int
    decreases 0x20_0000_0000_0000 - value,
{
    if value <= 0 || value >= 0x10_0000_0000_0000 {
        0
    } else {
        1 + doublings(2 * value)
    }
}

/// The bits of the double next to a whole number, the even one where two are equally near.
pub open spec fn whole_bits(value: int) -> int {
    if value == 0 {
        0
    } else {
        let dropped = surplus(value);
        let held = half_even(value, power(dropped));
        let raised = doublings(held);
        (1_075 + dropped - raised) * 0x10_0000_0000_0000 + (held * power(raised) - 0x10_0000_0000_0000)
    }
}

/// The bits of the double next to a whole number, with its sign.
pub open spec fn signed_bits(value: int) -> int {
    if value < 0 {
        0x8000_0000_0000_0000 + whole_bits(-value)
    } else {
        whole_bits(value)
    }
}

/// The bits of the double next to a whole number.
pub fn double_of(value: u64) -> (bits: u64)
    ensures
        bits == whole_bits(value as int),
        bits < 0x7ff0_0000_0000_0000,
{
    if value == 0 {
        return 0;
    }
    let (held, dropped) = hold(value as u128);
    let mut whole: u64 = held as u64;
    let mut raised: u64 = 0;
    proof {
        lemma_held_is_positive(value as int);
        assert(power(0) == 1);
        assert(held * 1 == held);
    }
    while whole < 0x10_0000_0000_0000
        invariant
            0 < whole <= 0x20_0000_0000_0000,
            whole == held * power(raised as int),
            raised + doublings(whole as int) == doublings(held as int),
            power(raised as int) <= whole,
            power(52) == 0x10_0000_0000_0000,
            raised <= 52,
        decreases 0x20_0000_0000_0000 - whole,
    {
        proof {
            lemma_power(raised as int);
            assert(held * (2 * power(raised as int)) == 2 * (held * power(raised as int))) by (nonlinear_arith);
        }
        whole = 2 * whole;
        raised += 1;
    }
    (1_075 + dropped - raised) * 0x10_0000_0000_0000 + (whole - 0x10_0000_0000_0000)
}

/// The bits of the double next to a whole number, with its sign.
pub fn signed_double_of(value: i64) -> (bits: u64)
    ensures
        bits == signed_bits(value as int),
{
    if value < 0 {
        let magnitude: u64 = (-(value as i128)) as u64;
        0x8000_0000_0000_0000 + double_of(magnitude)
    } else {
        double_of(value as u64)
    }
}

/// A double that is not below zero, times a whole number, rounded to a whole number.
pub fn multiply(bits: u64, factor: u32) -> (result: Option<u64>)
    requires
        is_non_negative(bits),
        factor <= 1_000_000,
    ensures
        match result {
            Some(value) => product(bits, factor as int) == Some(value as int) && value <= 0x8000_0000_0000_0000,
            None => product(bits, factor as int) is None,
        },
        step_exponent(bits) < -28 ==> result is Some,
{
    let magnitude: u64 = bits % 0x8000_0000_0000_0000;
    let field: u64 = magnitude / 0x10_0000_0000_0000;
    let fraction: u64 = magnitude % 0x10_0000_0000_0000;
    let count: u64 = if field == 0 {
        fraction
    } else {
        fraction + 0x10_0000_0000_0000
    };
    let base: i64 = if field == 0 {
        -1_074
    } else {
        field as i64 - 1_075
    };
    assert(count * factor <= 0x20_0000_0000_0000 * 1_000_000) by (nonlinear_arith)
        requires
            count <= 0x20_0000_0000_0000,
            factor <= 1_000_000,
    ;
    let exact: u128 = count as u128 * factor as u128;
    let held: (u128, u64) = hold(exact);
    let exponent: i64 = base + held.1 as i64;
    if exponent < 0 {
        let below: u64 = (-exponent) as u64;
        if below > 64 {
            proof {
                lemma_powers();
                lemma_power_grows(64, below as int);
                vstd::arithmetic::div_mod::lemma_basic_div(held.0 as int, power(below as int));
                vstd::arithmetic::div_mod::lemma_small_mod(held.0 as nat, power(below as int) as nat);
            }
            return Some(0);
        }
        let unit: u128 = raise(below);
        let whole: u128 = held.0 / unit;
        let rest: u128 = held.0 % unit;
        assert(whole <= held.0 && rest < unit) by (nonlinear_arith)
            requires
                whole == (held.0 as int) / (unit as int),
                rest == (held.0 as int) % (unit as int),
                unit >= 1,
        ;
        if 2 * rest >= unit {
            Some((whole + 1) as u64)
        } else {
            Some(whole as u64)
        }
    } else {
        let mut value: u128 = held.0;
        let mut done: i64 = 0;
        assert(power(0) == 1);
        assert(value * 1 == value);
        while done < exponent
            invariant
                0 <= done <= exponent,
                exponent == step_exponent(bits) + held.1,
                held.1 <= 28,
                value == held.0 * power(done as int),
                value <= 0x8000_0000_0000_0000,
                product(bits, factor as int) == (if held.0 * power(exponent as int) <= 0x8000_0000_0000_0000 {
                    Some(held.0 * power(exponent as int))
                } else {
                    None
                }),
            decreases exponent - done,
        {
            proof {
                lemma_power(done as int);
                lemma_power_grows(done as int + 1, exponent as int);
                assert(held.0 * (2 * power(done as int)) == 2 * (held.0 * power(done as int))) by (nonlinear_arith);
                assert(held.0 * power(done as int + 1) <= held.0 * power(exponent as int)) by (nonlinear_arith)
                    requires
                        power(done as int + 1) <= power(exponent as int),
                ;
            }
            value = 2 * value;
            if value > 0x8000_0000_0000_0000 {
                return None;
            }
            done += 1;
        }
        Some(value as u64)
    }
}

} // verus!
