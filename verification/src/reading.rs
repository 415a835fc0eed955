//! What the printed numbers say when they are read back.

use crate::decimal::{
    at_full_width, fixed, fraction, half_goes_up, mantissa, pow10, printed,
};
use crate::spread::{law_quarters_compare_as_the_root, quarters_of, Deviation};
use crate::stats::{deviation_text, nanos_text, whole_nanos};
use crate::text::{
    decimal, decimal_digits, hex, hex_at_least_8, hex_bytes, hex_digits, pad_left, pad_right,
};
use vstd::arithmetic::div_mod::lemma_mod_breakdown;
use vstd::prelude::*;

verus! {

/// The number that a digit stands for; no other character stands for one.
pub open spec fn digit_value(c: char) -> nat {
    if '0' <= c <= '9' {
        (c as nat - 48) as nat
    } else if 'a' <= c <= 'f' {
        (c as nat - 87) as nat
    } else {
        1000
    }
}

/// The number that a text of digits stands for, the most significant first.
pub open spec fn value_of(text: Seq<char>, base: nat) -> nat
    decreases text.len(),
{
    if text.len() == 0 {
        0
    } else {
        value_of(text.drop_last(), base) * base + digit_value(text.last())
    }
}

pub open spec fn power(base: nat, e: nat) -> nat
    decreases e,
{
    if e == 0 {
        1
    } else {
        base * power(base, (e - 1) as nat)
    }
}

proof fn lemma_power_positive(base: nat, e: nat)
    requires
        base > 0,
    ensures
        power(base, e) > 0,
    decreases e,
{
    if e > 0 {
        lemma_power_positive(base, (e - 1) as nat);
        let p = power(base, (e - 1) as nat);
        assert(base * p > 0) by (nonlinear_arith)
            requires
                base > 0,
                p > 0,
        ;
    }
}

/// A decimal number reads back as the number, and has no leading zero.
pub proof fn law_decimal_reads_back(n: nat)
    ensures
        value_of(decimal(n), 10) == n,
        decimal(n).len() > 0,
        n > 0 ==> decimal(n)[0] != '0',
        forall|i: int| 0 <= i < decimal(n).len() ==> digit_value(#[trigger] decimal(n)[i]) < 10,
    decreases n,
{
    let text = decimal(n);
    if n < 10 {
        assert(text.drop_last() =~= Seq::<char>::empty());
        assert(value_of(Seq::<char>::empty(), 10) == 0);
    } else {
        law_decimal_reads_back(n / 10);
        let head = decimal(n / 10);
        assert(text.drop_last() =~= head);
        assert(text[0] == head[0]);
        assert forall|i: int| 0 <= i < text.len() implies digit_value(#[trigger] text[i]) < 10 by {
            if i < head.len() {
                assert(text[i] == head[i]);
            }
        }
    }
}

/// A hexadecimal number reads back as the number, and has no leading zero.
pub proof fn law_hex_reads_back(n: nat)
    ensures
        value_of(hex(n), 16) == n,
        hex(n).len() > 0,
        n > 0 ==> hex(n)[0] != '0',
        forall|i: int| 0 <= i < hex(n).len() ==> digit_value(#[trigger] hex(n)[i]) < 16,
    decreases n,
{
    let text = hex(n);
    if n < 16 {
        assert(text.drop_last() =~= Seq::<char>::empty());
        assert(value_of(Seq::<char>::empty(), 16) == 0);
    } else {
        law_hex_reads_back(n / 16);
        let head = hex(n / 16);
        assert(text.drop_last() =~= head);
        assert(text[0] == head[0]);
        assert forall|i: int| 0 <= i < text.len() implies digit_value(#[trigger] text[i]) < 16 by {
            if i < head.len() {
                assert(text[i] == head[i]);
            }
        }
    }
}

/// Digits of a given width are as many as asked for, and read back as the
/// number but for what the width cannot hold.
pub proof fn law_decimal_digits_read_back(n: nat, width: nat)
    ensures
        decimal_digits(n, width).len() == width,
        value_of(decimal_digits(n, width), 10) == n % power(10, width),
        forall|i: int|
            0 <= i < width ==> digit_value(#[trigger] decimal_digits(n, width)[i]) < 10,
    decreases width,
{
    if width > 0 {
        let text = decimal_digits(n, width);
        let head = decimal_digits(n / 10, (width - 1) as nat);
        law_decimal_digits_read_back(n / 10, (width - 1) as nat);
        assert(text.drop_last() =~= head);
        lemma_power_positive(10, (width - 1) as nat);
        lemma_mod_breakdown(n as int, 10, power(10, (width - 1) as nat) as int);
        assert forall|i: int| 0 <= i < width implies digit_value(#[trigger] text[i]) < 10 by {
            if i < width - 1 {
                assert(text[i] == head[i]);
            }
        }
    }
}

/// Hexadecimal digits of a given width are as many as asked for, and read back
/// as the number but for what the width cannot hold.
pub proof fn law_hex_digits_read_back(n: nat, width: nat)
    ensures
        hex_digits(n, width).len() == width,
        value_of(hex_digits(n, width), 16) == n % power(16, width),
        forall|i: int| 0 <= i < width ==> digit_value(#[trigger] hex_digits(n, width)[i]) < 16,
    decreases width,
{
    if width > 0 {
        let text = hex_digits(n, width);
        let head = hex_digits(n / 16, (width - 1) as nat);
        law_hex_digits_read_back(n / 16, (width - 1) as nat);
        assert(text.drop_last() =~= head);
        lemma_power_positive(16, (width - 1) as nat);
        lemma_mod_breakdown(n as int, 16, power(16, (width - 1) as nat) as int);
        assert forall|i: int| 0 <= i < width implies digit_value(#[trigger] text[i]) < 16 by {
            if i < width - 1 {
                assert(text[i] == head[i]);
            }
        }
    }
}

proof fn lemma_value_bound(text: Seq<char>, base: nat)
    requires
        base > 0,
        forall|i: int| 0 <= i < text.len() ==> digit_value(#[trigger] text[i]) < base,
    ensures
        value_of(text, base) < power(base, text.len()),
    decreases text.len(),
{
    if text.len() > 0 {
        let head = text.drop_last();
        assert forall|i: int| 0 <= i < head.len() implies digit_value(#[trigger] head[i])
            < base by {
            assert(head[i] == text[i]);
        }
        lemma_value_bound(head, base);
        assert(digit_value(text[text.len() - 1]) < base);
        let (v, d, p) = (value_of(head, base), digit_value(text.last()), power(base, head.len()));
        assert(v * base + d < base * p) by (nonlinear_arith)
            requires
                v + 1 <= p,
                d < base,
        ;
    }
}

/// A code is printed with at least eight hexadecimal digits, with more only
/// where it needs them, and reads back as the code.
pub proof fn law_codes_read_back(n: nat)
    ensures
        value_of(hex_at_least_8(n), 16) == n,
        hex_at_least_8(n).len() >= 8,
        hex_at_least_8(n).len() > 8 ==> hex_at_least_8(n)[0] != '0',
{
    assert(power(16, 8) == 0x1_0000_0000) by {
        reveal_with_fuel(power, 9);
    }
    law_hex_digits_read_back(n, 8);
    law_hex_reads_back(n);
    if n >= 0x1_0000_0000 {
        lemma_value_bound(hex(n), 16);
        if hex(n).len() < 8 {
            lemma_power_grows(16, hex(n).len(), 8);
        }
    }
}

proof fn lemma_power_grows(base: nat, a: nat, b: nat)
    requires
        base > 0,
        a <= b,
    ensures
        power(base, a) <= power(base, b),
    decreases b - a,
{
    if a < b {
        lemma_power_grows(base, a, (b - 1) as nat);
        let p = power(base, (b - 1) as nat);
        assert(p <= base * p) by (nonlinear_arith)
            requires
                base >= 1,
        ;
    }
}

/// Every byte is dumped as two digits that read back as it.
pub proof fn law_dump_reads_back(bytes: Seq<u8>, i: int)
    requires
        0 <= i < bytes.len(),
    ensures
        hex_bytes(bytes).len() == 2 * bytes.len(),
        value_of(hex_bytes(bytes).subrange(2 * i, 2 * i + 2), 16) == bytes[i],
    decreases bytes.len(),
{
    let rest = bytes.drop_last();
    let last = hex_digits(bytes.last() as nat, 2);
    assert(power(16, 2) == 256) by {
        reveal_with_fuel(power, 3);
    }
    law_hex_digits_read_back(bytes.last() as nat, 2);
    if rest.len() > 0 {
        law_dump_reads_back(rest, 0);
    } else {
        assert(hex_bytes(rest) =~= Seq::<char>::empty());
    }
    if i < rest.len() {
        law_dump_reads_back(rest, i);
        assert(hex_bytes(bytes).subrange(2 * i, 2 * i + 2) =~= hex_bytes(rest).subrange(
            2 * i,
            2 * i + 2,
        ));
    } else {
        assert(hex_bytes(bytes).subrange(2 * i, 2 * i + 2) =~= last);
    }
}

/// A padded field holds the text at its one end and blanks at the other, and is
/// as wide as asked for or as the text.
pub proof fn law_padding_keeps_the_text(text: Seq<char>, width: nat, i: int)
    ensures
        pad_right(text, width).len() == (if text.len() < width {
            width
        } else {
            text.len()
        }),
        pad_left(text, width).len() == pad_right(text, width).len(),
        pad_right(text, width).subrange(0, text.len() as int) == text,
        pad_left(text, width).skip(pad_left(text, width).len() - text.len()) == text,
        text.len() <= i < width ==> pad_right(text, width)[i] == ' ',
        0 <= i < width - text.len() ==> pad_left(text, width)[i] == ' ',
{
    assert(pad_right(text, width).subrange(0, text.len() as int) =~= text);
    assert(pad_left(text, width).skip(pad_left(text, width).len() - text.len()) =~= text);
}

/// A fraction is printed to the nearest of the decimals, never further off than
/// half a unit of the last place.
pub proof fn law_printed_is_nearest(num: nat, den: nat, places: nat)
    requires
        den > 0,
    ensures
        2 * (printed(num, den, places) * den) <= 2 * (num * pow10(places)) + den,
        2 * (num * pow10(places)) <= 2 * (printed(num, den, places) * den) + den,
{
    let scaled = num * pow10(places);
    let (k, r) = (scaled / den, scaled % den);
    assert(scaled == k * den + r && 0 <= r < den) by (nonlinear_arith)
        requires
            k == scaled / den,
            r == scaled % den,
            den > 0,
    ;
    assert((k + 1) * den == k * den + den) by (nonlinear_arith);
}

/// What is printed of a fraction is a number of units of the last decimal
/// place, the nearest there is.
pub proof fn law_fraction_is_nearest(num: nat, den: nat, places: nat)
    requires
        den > 0,
    ensures
        exists|u: nat|
            fraction(num, den, places) == #[trigger] fixed(u, places) && 2 * (u * den) <= 2 * (num
                * power(10, places)) + den && 2 * (num * power(10, places)) <= 2 * (u * den) + den,
{
    law_printed_is_nearest(num, den, places);
    lemma_pow10(places);
    let u = printed(num, den, places);
    assert(fraction(num, den, places) == fixed(u, places));
}

/// The print of a number of units has a point before its last places, the whole
/// part before it and the rest behind it; without places there is none.
pub proof fn law_fixed_reads_back(units: nat, places: nat)
    ensures
        places == 0 ==> value_of(fixed(units, 0), 10) == units,
        places > 0 ==> ({
            let text = fixed(units, places);
            let point = text.len() - places - 1;
            &&& 0 < point
            &&& text[point] == '.'
            &&& value_of(text.subrange(0, point), 10) == units / power(10, places)
            &&& value_of(text.skip(point + 1), 10) == units % power(10, places)
        }),
{
    law_decimal_reads_back(units);
    if places > 0 {
        lemma_pow10(places);
        reveal_strlit(".");
        let text = fixed(units, places);
        let whole = decimal(units / pow10(places));
        let rest = decimal_digits(units % pow10(places), places);
        law_decimal_reads_back(units / pow10(places));
        law_decimal_digits_read_back(units % pow10(places), places);
        lemma_power_positive(10, places);
        vstd::arithmetic::div_mod::lemma_mod_twice(units as int, pow10(places) as int);
        let point = text.len() - places - 1;
        assert(text.subrange(0, point) =~= whole);
        assert(text.skip(point + 1) =~= rest);
    }
}

proof fn lemma_pow10(places: nat)
    ensures
        pow10(places) == power(10, places),
    decreases places,
{
    if places > 0 {
        lemma_pow10((places - 1) as nat);
    }
}

proof fn lemma_stays_even(a: nat)
    requires
        a % 2 == 0,
    ensures
        at_full_width(a, 2) % 2 == 0,
    decreases (if a < 2 * mantissa() { 2 * mantissa() - a } else { 0 }),
{
    if !(a == 0 || a >= 2 * mantissa()) {
        lemma_stays_even(a + a);
    }
}

/// Halfway between two whole numbers the even one is printed, as long as a
/// float holds the half exactly.
pub proof fn law_halves_go_to_even(k: nat)
    requires
        k < mantissa(),
    ensures
        half_goes_up(k, 0) <==> k % 2 == 1,
{
    reveal_with_fuel(pow10, 1);
    assert(pow10(0) == 1);
    let a = 2 * k + 1;
    lemma_stays_even(a + a);
    assert(at_full_width(a, 2) == at_full_width(a + a, 2));
}

/// Whether a text gives `num / den` nanoseconds to the nearest `unit` of them,
/// which counts one in the last of `places` decimal places before the suffix.
pub open spec fn gives_time(
    text: Seq<char>,
    num: nat,
    den: nat,
    places: nat,
    unit: nat,
    suffix: Seq<char>,
) -> bool {
    exists|u: nat|
        text == #[trigger] fixed(u, places) + suffix && 2 * (u * (unit * den)) <= 2 * num + unit
            * den && 2 * num <= 2 * (u * (unit * den)) + unit * den
}

/// A time is printed in nanoseconds below a thousand of them, in microseconds
/// below a million, in milliseconds below a thousand million and in seconds
/// from there on; to the nearest nanosecond, ten nanoseconds, microsecond and
/// millisecond.
pub proof fn law_time_is_printed_to_the_nearest(num: nat, den: nat)
    requires
        den > 0,
    ensures
        num < 1_000 * den ==> gives_time(nanos_text(num, den), num, den, 0, 1, " ns"@),
        1_000 * den <= num < 1_000_000 * den ==> gives_time(
            nanos_text(num, den),
            num,
            den,
            2,
            10,
            " µs"@,
        ),
        1_000_000 * den <= num < 1_000_000_000 * den ==> gives_time(
            nanos_text(num, den),
            num,
            den,
            3,
            1_000,
            " ms"@,
        ),
        1_000_000_000 * den <= num ==> gives_time(
            nanos_text(num, den),
            num,
            den,
            3,
            1_000_000,
            " s"@,
        ),
{
    assert(pow10(0) == 1 && pow10(2) == 100 && pow10(3) == 1_000) by {
        reveal_with_fuel(pow10, 4);
    }
    assert(pow10(0) * (1 * den) == den);
    assert(pow10(2) * (10 * den) == 1_000 * den);
    assert(pow10(3) * (1_000 * den) == 1_000_000 * den);
    assert(pow10(3) * (1_000_000 * den) == 1_000_000_000 * den);
    if num < 1_000 * den {
        lemma_gives(num, den, den, 0, 1, " ns"@);
    } else if num < 1_000_000 * den {
        lemma_gives(num, den, 1_000 * den, 2, 10, " µs"@);
    } else if num < 1_000_000_000 * den {
        lemma_gives(num, den, 1_000_000 * den, 3, 1_000, " ms"@);
    } else {
        lemma_gives(num, den, 1_000_000_000 * den, 3, 1_000_000, " s"@);
    }
}

proof fn lemma_gives(num: nat, den: nat, scale: nat, places: nat, unit: nat, suffix: Seq<char>)
    requires
        den > 0,
        unit > 0,
        scale == pow10(places) * (unit * den),
        pow10(places) > 0,
    ensures
        gives_time(fraction(num, scale, places) + suffix, num, den, places, unit, suffix),
{
    let p = pow10(places);
    let w = unit * den;
    assert(w > 0) by (nonlinear_arith)
        requires
            w == unit * den,
            unit > 0,
            den > 0,
    ;
    assert(scale > 0) by (nonlinear_arith)
        requires
            scale == p * w,
            p > 0,
            w > 0,
    ;
    law_printed_is_nearest(num, scale, places);
    let u = printed(num, scale, places);
    assert(2 * (u * w) <= 2 * num + w && 2 * num <= 2 * (u * w) + w) by (nonlinear_arith)
        requires
            2 * (u * (p * w)) <= 2 * (num * p) + p * w,
            2 * (num * p) <= 2 * (u * (p * w)) + p * w,
            p > 0,
    ;
    assert(fraction(num, scale, places) + suffix == fixed(u, places) + suffix);
}

/// Whole nanoseconds are printed like any other time.
pub proof fn law_whole_times_are_times(n: nat)
    ensures
        whole_nanos(n) == nanos_text(n, 1),
{
}

/// Whether a text gives the root of `square`, divided by `den`, to the nearest
/// `unit` nanoseconds, which counts one in the last of `places` decimal places
/// before the suffix.
pub open spec fn gives_root(
    text: Seq<char>,
    square: nat,
    den: nat,
    places: nat,
    unit: nat,
    suffix: Seq<char>,
) -> bool {
    exists|u: nat|
        text == #[trigger] fixed(u, places) + suffix && nearest_root(u, square, den, unit)
}

/// Whether `u` units are no further than half a unit from a root.
pub open spec fn nearest_root(u: nat, square: nat, den: nat, unit: nat) -> bool {
    let above = ((2 * u + 1) * unit) as int;
    let below = (2 * u - 1) * unit;
    &&& 4 * square <= above * above * (den * den)
    &&& below > 0 ==> below * below * (den * den) <= 4 * square
}

proof fn lemma_gives_root(
    text: Seq<char>,
    square: nat,
    den: nat,
    places: nat,
    unit: nat,
    suffix: Seq<char>,
)
    requires
        den > 0,
        gives_time(text, quarters_of(square, den), 4, places, unit, suffix),
    ensures
        gives_root(text, square, den, places, unit, suffix),
{
    let q = quarters_of(square, den);
    let u = choose|u: nat|
        text == #[trigger] fixed(u, places) + suffix && 2 * (u * (unit * 4)) <= 2 * q + unit * 4
            && 2 * q <= 2 * (u * (unit * 4)) + unit * 4;
    let above = (2 * u + 1) * unit;
    let below = (2 * u - 1) * unit;
    assert(2 * above == (u * (unit * 4)) + 2 * unit) by (nonlinear_arith)
        requires
            above == (2 * u + 1) * unit,
    ;
    assert(2 * below == (u * (unit * 4)) - 2 * unit) by (nonlinear_arith)
        requires
            below == (2 * u - 1) * unit,
    ;
    law_quarters_compare_as_the_root(square, den, above);
    if below > 0 {
        law_quarters_compare_as_the_root(square, den, below as nat);
    }
    assert(nearest_root(u, square, den, unit));
    assert(text == fixed(u, places) + suffix);
}

proof fn lemma_fourfold(square: nat, dd: nat)
    ensures
        square < 1_000_000 * dd <==> 4 * square < 4_000_000 * dd,
        square < 1_000_000_000_000 * dd <==> 4 * square < 4_000_000_000_000 * dd,
        square < 1_000_000_000_000_000_000 * dd <==> 4 * square < 4_000_000_000_000_000_000 * dd,
{
}

/// A deviation is printed like a time, in the unit that its size asks for and
/// to the nearest of what the unit's decimals can say.
pub proof fn law_deviation_is_printed_to_the_nearest(d: Deviation)
    requires
        d.den > 0,
    ensures
        ({
            let square = d.square@;
            let den = d.den as nat;
            let text = deviation_text(d);
            &&& square < 1_000_000 * (den * den) ==> gives_root(text, square, den, 0, 1, " ns"@)
            &&& 1_000_000 * (den * den) <= square < 1_000_000_000_000 * (den * den) ==> gives_root(
                text,
                square,
                den,
                2,
                10,
                " µs"@,
            )
            &&& 1_000_000_000_000 * (den * den) <= square < 1_000_000_000_000_000_000 * (den * den)
                ==> gives_root(text, square, den, 3, 1_000, " ms"@)
            &&& 1_000_000_000_000_000_000 * (den * den) <= square ==> gives_root(
                text,
                square,
                den,
                3,
                1_000_000,
                " s"@,
            )
        }),
{
    let square = d.square@;
    let den = d.den as nat;
    let q = quarters_of(square, den);
    law_time_is_printed_to_the_nearest(q, 4);
    law_quarters_compare_as_the_root(square, den, 2_000);
    law_quarters_compare_as_the_root(square, den, 2_000_000);
    law_quarters_compare_as_the_root(square, den, 2_000_000_000);
    let dd = den * den;
    assert(dd > 0) by (nonlinear_arith)
        requires
            dd == den * den,
            den > 0,
    ;
    assert(2_000nat * 2_000nat == 4_000_000 && 2_000_000nat * 2_000_000nat == 4_000_000_000_000
        && 2_000_000_000nat * 2_000_000_000nat == 4_000_000_000_000_000_000);
    assert(q < 4_000 <==> 4 * square < 4_000_000 * dd);
    assert(q < 4_000_000 <==> 4 * square < 4_000_000_000_000 * dd);
    assert(q < 4_000_000_000 <==> 4 * square < 4_000_000_000_000_000_000 * dd);
    lemma_fourfold(square, dd);
    let text = deviation_text(d);
    if square < 1_000_000 * dd {
        lemma_gives_root(text, square, den, 0, 1, " ns"@);
        assert(square < 1_000_000_000_000 * dd && square < 1_000_000_000_000_000_000 * dd);
    } else if square < 1_000_000_000_000 * dd {
        lemma_gives_root(text, square, den, 2, 10, " µs"@);
        assert(square < 1_000_000_000_000_000_000 * dd);
    } else if square < 1_000_000_000_000_000_000 * dd {
        lemma_gives_root(text, square, den, 3, 1_000, " ms"@);
    } else {
        lemma_gives_root(text, square, den, 3, 1_000_000, " s"@);
    }
}

proof fn lemma_full_width(a: nat, b: nat) -> (e: nat)
    requires
        0 < a < 2 * (b * mantissa()),
    ensures
        at_full_width(a, b) == a * power(2, e),
        b * mantissa() <= at_full_width(a, b) < 2 * (b * mantissa()),
    decreases (if a < b * mantissa() { b * mantissa() - a } else { 0 }),
{
    if a >= b * mantissa() {
        assert(power(2, 0) == 1);
        0
    } else {
        let e = lemma_full_width(a + a, b);
        let p = power(2, e);
        assert((a + a) * p == a * (2 * p)) by (nonlinear_arith);
        assert(power(2, e + 1) == 2 * p);
        e + 1
    }
}

/// Whether a float with mantissa `m` and exponent `-e` is the one nearest to
/// `a / b`, the even one where two are.
pub open spec fn nearest_float(a: nat, b: nat, e: nat, m: nat) -> bool {
    let scaled = a * power(2, e);
    &&& b * 0x10_0000_0000_0000 <= scaled < 2 * (b * 0x10_0000_0000_0000)
    &&& 2 * (m * b) <= 2 * scaled + b
    &&& 2 * scaled <= 2 * (m * b) + b
    &&& 2 * (m * b) == 2 * scaled + b || 2 * scaled == 2 * (m * b) + b ==> m % 2 == 0
}

/// A value halfway between two decimals is printed as the float nearest to it
/// is: upwards where that float is above, downwards where it is below, and to
/// the even one where it is the value itself.
pub proof fn law_halves_go_with_the_float(k: nat, places: nat)
    requires
        2 * k + 1 < 2 * (2 * power(10, places) * 0x10_0000_0000_0000),
    ensures
        exists|e: nat, m: nat|
            #![trigger nearest_float(2 * k + 1, 2 * power(10, places), e, m)]
            nearest_float(2 * k + 1, 2 * power(10, places), e, m) && (half_goes_up(k, places)
                <==> m * (2 * power(10, places)) > (2 * k + 1) * power(2, e) || (m * (2 * power(
                10,
                places,
            )) == (2 * k + 1) * power(2, e) && k % 2 == 1)),
{
    lemma_pow10(places);
    lemma_power_positive(10, places);
    let b = 2 * power(10, places);
    let e = lemma_full_width(2 * k + 1, b);
    let a = at_full_width(2 * k + 1, b);
    let (q, r) = (a / b, a % b);
    assert(a == q * b + r && 0 <= r < b) by (nonlinear_arith)
        requires
            q == a / b,
            r == a % b,
            b > 0,
    ;
    assert((q + 1) * b == q * b + b) by (nonlinear_arith);
    let m = if r == 0 || 2 * r < b || (2 * r == b && q % 2 == 0) {
        q
    } else {
        q + 1
    };
    assert(nearest_float(2 * k + 1, b, e, m));
}

} // verus!
