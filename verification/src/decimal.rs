//! Exact fractions and their decimal print.
//!
//! A fraction is printed to a number of decimal places the way the nearest
//! 64-bit binary float is: to the nearest decimal, where a fraction that lies
//! exactly between two decimals goes to the side on which that float lies, and
//! to the even one where the float is the fraction itself.

use crate::text::{decimal, decimal_digits, decimal_digits_text, decimal_text};
use crate::wide::{limb, Wide};
use vstd::prelude::*;
use vstd::string::StringExecFns;

verus! {

/// The non-negative fraction `num / den`.
#[derive(Debug, Clone, Copy, PartialEq, Eq, Structural)]
pub struct Ratio {
    pub num: u128,
    pub den: u128,
}

impl Ratio {
    pub fn whole(n: u128) -> (r: Ratio)
        ensures
            r == (Ratio { num: n, den: 1 }),
    {
        Ratio { num: n, den: 1 }
    }
}

pub open spec fn pow10(places: nat) -> nat
    decreases places,
{
    if places == 0 {
        1
    } else {
        10 * pow10((places - 1) as nat)
    }
}

/// 2^52: a float's fraction times this is where its last bit counts one.
pub open spec fn mantissa() -> nat {
    0x10_0000_0000_0000
}

/// `a` doubled until `a / b` takes the full width of a float's mantissa.
pub open spec fn at_full_width(a: nat, b: nat) -> nat
    decreases (if a < b * mantissa() { b * mantissa() - a } else { 0 }),
{
    if a == 0 || a >= b * mantissa() {
        a
    } else {
        at_full_width(a + a, b)
    }
}

/// Whether the value halfway between `k` and `k + 1` units of the last decimal
/// place is printed as `k + 1`.
pub open spec fn half_goes_up(k: nat, places: nat) -> bool {
    let b = 2 * pow10(places);
    let a = at_full_width(2 * k + 1, b);
    if a % b == 0 {
        k % 2 == 1
    } else {
        2 * (a % b) > b || (2 * (a % b) == b && (a / b) % 2 == 1)
    }
}

/// `num / den` in units of the last of `places` decimal places, as printed.
pub open spec fn printed(num: nat, den: nat, places: nat) -> nat {
    let scaled = num * pow10(places);
    let k = scaled / den;
    let rest = scaled % den;
    if 2 * rest < den || (2 * rest == den && !half_goes_up(k, places)) {
        k
    } else {
        k + 1
    }
}

/// The text of `units` in units of the last of `places` decimal places.
pub open spec fn fixed(units: nat, places: nat) -> Seq<char> {
    if places == 0 {
        decimal(units)
    } else {
        decimal(units / pow10(places)) + "."@ + decimal_digits(units % pow10(places), places)
    }
}

/// `num / den` to `places` decimal places.
pub open spec fn fraction(num: nat, den: nat, places: nat) -> Seq<char> {
    fixed(printed(num, den, places), places)
}

fn power_of_ten(places: u32) -> (p: u128)
    requires
        places <= 3,
    ensures
        p == pow10(places as nat),
{
    reveal_with_fuel(pow10, 4);
    if places == 0 {
        1
    } else if places == 1 {
        10
    } else if places == 2 {
        100
    } else {
        1000
    }
}

fn is_half_going_up(k: u128, places: u32) -> (up: bool)
    requires
        places <= 3,
        k < 0x4000_0000_0000_0000_0000_0000_0000_0000,
    ensures
        up == half_goes_up(k as nat, places as nat),
{
    reveal_with_fuel(pow10, 4);
    let b: u128 = 2 * power_of_ten(places);
    let mut a: u128 = 2 * k + 1;
    let ghost start = a;
    while a < b * 0x10_0000_0000_0000
        invariant
            0 < b <= 2000,
            a > 0,
            at_full_width(a as nat, b as nat) == at_full_width(start as nat, b as nat),
        decreases (if a < b * 0x10_0000_0000_0000 { b * 0x10_0000_0000_0000 - a } else { 0 }),
    {
        a = a + a;
    }
    let rest: u128 = a % b;
    if rest == 0 {
        k % 2 == 1
    } else {
        2 * rest > b || (2 * rest == b && (a / b) % 2 == 1)
    }
}

/// Whether a fraction is small enough to be printed to three decimal places.
pub open spec fn printable(num: nat, den: nat) -> bool {
    &&& num * 1000 < limb() * limb()
    &&& num * 1000 < den * 0x4000_0000_0000_0000_0000_0000_0000_0000
}

/// The units of the last decimal place that `num / den` is printed with.
pub fn printed_units(num: Wide, den: Wide, places: u32) -> (units: u128)
    requires
        places <= 3,
        den@ > 0,
        printable(num@, den@),
    ensures
        units == printed(num@, den@, places as nat),
{
    let unit = power_of_ten(places);
    proof {
        reveal_with_fuel(pow10, 4);
        let (n, u) = (num@, unit as nat);
        assert(n * u <= n * 1000) by (nonlinear_arith)
            requires
                u <= 1000,
        ;
    }
    let scaled = num.times(unit);
    let (q, rest) = scaled.div_rem(den);
    let gap = den.minus(rest);
    proof {
        let (s, d, qq, r) = (scaled@ as int, den@ as int, q@ as int, rest@ as int);
        vstd::arithmetic::div_mod::lemma_fundamental_div_mod_converse(s, d, qq, r);
        assert(qq < 0x4000_0000_0000_0000_0000_0000_0000_0000) by (nonlinear_arith)
            requires
                qq * d + r == s,
                s < d * 0x4000_0000_0000_0000_0000_0000_0000_0000,
                r >= 0,
                d > 0,
        ;
        assert(q.hi == 0) by (nonlinear_arith)
            requires
                q.hi * limb() + q.lo == qq,
                qq < 0x4000_0000_0000_0000_0000_0000_0000_0000,
                q.hi >= 0,
                q.lo >= 0,
                limb() > 0x4000_0000_0000_0000_0000_0000_0000_0000,
        ;
    }
    if rest.less(gap) || (!gap.less(rest) && !is_half_going_up(q.lo, places)) {
        q.lo
    } else {
        q.lo + 1
    }
}

pub fn fixed_text(units: u128, places: u32) -> (text: String)
    requires
        places <= 3,
    ensures
        text@ == fixed(units as nat, places as nat),
{
    if places == 0 {
        return decimal_text(units);
    }
    let unit = power_of_ten(places);
    reveal_with_fuel(pow10, 4);
    let mut text = decimal_text(units / unit);
    text.append(".");
    let tail = decimal_digits_text(units % unit, places);
    text.append(tail.as_str());
    text
}

pub fn fraction_text(num: Wide, den: Wide, places: u32) -> (text: String)
    requires
        places <= 3,
        den@ > 0,
        printable(num@, den@),
    ensures
        text@ == fraction(num@, den@, places as nat),
{
    fixed_text(printed_units(num, den, places), places)
}

} // verus!
