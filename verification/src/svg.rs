//! Pieces that every part of the chart is made of.
//!
//! The picture is 960 wide with margins of 88 on the left and 28 on the right,
//! which leaves 844 for the plots. Vertical positions are whole numbers but
//! for what depends on a sample; those, and all horizontal ones, are exact
//! fractions up to where they are printed.

use crate::decimal::{fixed, fraction, fraction_text, pow10};
use crate::reading::{law_fraction_is_nearest, power};
use crate::stats::{whole_nanos, format_whole_nanos, Phase};
use crate::text::{chars_of, decimal, decimal_digits, decimal_text};
use crate::wide::{lemma_limb_square, limb, Wide};
use vstd::prelude::*;
use vstd::string::StringExecFns;

verus! {

/// A bound on vertical positions, far beyond any chart.
pub const MAX_Y: u128 = 0x1_0000_0000_0000_0000_0000;

pub open spec fn colour_of(phase: Phase) -> Seq<char> {
    match phase {
        Phase::SignInit => "#7c8cf8"@,
        Phase::Sign => "#e8734a"@,
        Phase::Verify => "#4fb286"@,
        Phase::Total => "#8a8f98"@,
    }
}

pub fn phase_colour(phase: Phase) -> (colour: &'static str)
    ensures
        colour@ == colour_of(phase),
{
    match phase {
        Phase::SignInit => "#7c8cf8",
        Phase::Sign => "#e8734a",
        Phase::Verify => "#4fb286",
        Phase::Total => "#8a8f98",
    }
}

/// A character as it may stand in the text of a markup document.
pub open spec fn escaped_char(c: char) -> Seq<char> {
    if c == '&' {
        "&amp;"@
    } else if c == '<' {
        "&lt;"@
    } else if c == '>' {
        "&gt;"@
    } else {
        seq![c]
    }
}

/// A text with its markup characters escaped.
pub open spec fn escaped(text: Seq<char>) -> Seq<char>
    decreases text.len(),
{
    if text.len() == 0 {
        Seq::empty()
    } else {
        escaped(text.drop_last()) + escaped_char(text.last())
    }
}

pub fn escape(text: &str) -> (out: String)
    ensures
        out@ == escaped(text@),
{
    let chars = chars_of(text);
    let mut out = String::new();
    let mut i: usize = 0;
    assert(chars@.take(0) == Seq::<char>::empty());
    while i < chars.len()
        invariant
            i <= chars.len(),
            out@ == escaped(chars@.take(i as int)),
        decreases chars.len() - i,
    {
        let ghost before = out@;
        let c = chars[i];
        assert(chars@.take(i + 1).drop_last() == chars@.take(i as int));
        if c == '&' {
            out.append("&amp;");
        } else if c == '<' {
            out.append("&lt;");
        } else if c == '>' {
            out.append("&gt;");
        } else {
            out.push(c);
            assert(out@ == before + seq![c]);
        }
        i = i + 1;
    }
    assert(chars@.take(chars.len() as int) == chars@);
    out
}

proof fn lemma_escaped_char(c: char, i: int)
    requires
        0 <= i < escaped_char(c).len(),
    ensures
        escaped_char(c)[i] != '<' && escaped_char(c)[i] != '>',
{
    reveal_strlit("&amp;");
    reveal_strlit("&lt;");
    reveal_strlit("&gt;");
}

/// Escaped text holds no bracket that could open or close a tag.
pub proof fn law_escaped_has_no_tags(text: Seq<char>)
    ensures
        !escaped(text).contains('<'),
        !escaped(text).contains('>'),
    decreases text.len(),
{
    if text.len() > 0 {
        let head = escaped(text.drop_last());
        let tail = escaped_char(text.last());
        law_escaped_has_no_tags(text.drop_last());
        assert forall|i: int| 0 <= i < (head + tail).len() implies #[trigger] (head + tail)[i]
            != '<' && (head + tail)[i] != '>' by {
            if i < head.len() {
                assert(head.contains(head[i]));
            } else {
                lemma_escaped_char(text.last(), i - head.len());
            }
        }
    }
}

/// Text without markup characters is left as it is.
pub proof fn law_plain_text_is_kept(text: Seq<char>)
    requires
        forall|i: int|
            0 <= i < text.len() ==> #[trigger] text[i] != '&' && text[i] != '<' && text[i] != '>',
    ensures
        escaped(text) == text,
    decreases text.len(),
{
    if text.len() > 0 {
        law_plain_text_is_kept(text.drop_last());
        assert(text[text.len() - 1] == text.last());
        assert(text.drop_last() + seq![text.last()] =~= text);
    }
}

/// A whole number to one decimal place.
pub open spec fn tenths(n: nat) -> Seq<char> {
    decimal(n) + ".0"@
}

pub fn tenths_text(n: u128) -> (text: String)
    ensures
        text@ == tenths(n as nat),
{
    let mut text = decimal_text(n);
    text.append(".0");
    text
}

/// Nanoseconds, formatted and escaped.
pub open spec fn nanos(n: nat) -> Seq<char> {
    escaped(whole_nanos(n))
}

pub fn nanos_label(n: u128) -> (text: String)
    ensures
        text@ == nanos(n as nat),
{
    let plain = format_whole_nanos(n);
    escape(plain.as_str())
}

/// `base + num / den` to `places` decimal places.
pub open spec fn above(base: nat, num: nat, den: nat, places: nat) -> Seq<char> {
    fraction(base * den + num, den, places)
}

/// `base - num / den` to `places` decimal places.
pub open spec fn below(base: nat, num: nat, den: nat, places: nat) -> Seq<char> {
    fraction((base * den - num) as nat, den, places)
}

proof fn lemma_placed(base: int, num: int, den: int)
    requires
        0 <= base <= 2 * MAX_Y,
        0 < den <= 0x2_0000_0000_0000_0000,
        0 <= num <= 1000 * den,
    ensures
        0 <= base * den,
        (base * den + num) * 1000 < limb() * limb(),
        (base * den + num) * 1000 < den * 0x4000_0000_0000_0000_0000_0000_0000_0000,
{
    assert(0 <= base * den && base * den <= 0x2_0000_0000_0000_0000_0000 * den)
        by (nonlinear_arith)
        requires
            0 <= base <= 0x2_0000_0000_0000_0000_0000,
            0 < den,
    ;
    lemma_limb_square();
}

pub fn above_text(base: u128, num: u128, den: u128, places: u32) -> (text: String)
    requires
        places <= 3,
        base <= 2 * MAX_Y,
        0 < den <= 0x2_0000_0000_0000_0000,
        num <= 1000 * den,
    ensures
        text@ == above(base as nat, num as nat, den as nat, places as nat),
{
    proof {
        lemma_placed(base as int, num as int, den as int);
    }
    fraction_text(Wide::product(base, den).plus(Wide::of(num)), Wide::of(den), places)
}

pub fn below_text(base: u128, num: u128, den: u128, places: u32) -> (text: String)
    requires
        places <= 3,
        base <= 2 * MAX_Y,
        0 < den <= 0x2_0000_0000_0000_0000,
        num <= 1000 * den,
        num <= base * den,
    ensures
        text@ == below(base as nat, num as nat, den as nat, places as nat),
{
    proof {
        lemma_placed(base as int, num as int, den as int);
    }
    fraction_text(Wide::product(base, den).minus(Wide::of(num)), Wide::of(den), places)
}

/// Where an axis ends: at `top`, but at least one above its start.
pub open spec fn axis_end(min: u64, top: u64) -> nat {
    if top > min {
        top as nat
    } else {
        min as nat + 1
    }
}

pub fn axis_end_of(min: u64, top: u64) -> (end: u128)
    ensures
        end == axis_end(min, top),
{
    if top > min {
        top as u128
    } else {
        min as u128 + 1
    }
}

/// The escapes of two texts are joined as the texts are, and of a single
/// character only the three of markup are replaced.
pub proof fn law_escapes_join(a: Seq<char>, b: Seq<char>, c: char)
    ensures
        escaped(a + b) == escaped(a) + escaped(b),
        escaped(seq!['&']) == "&amp;"@,
        escaped(seq!['<']) == "&lt;"@,
        escaped(seq!['>']) == "&gt;"@,
        c != '&' && c != '<' && c != '>' ==> escaped(seq![c]) == seq![c],
    decreases b.len(),
{
    lemma_escaped_single('&');
    lemma_escaped_single('<');
    lemma_escaped_single('>');
    lemma_escaped_single(c);
    if b.len() == 0 {
        assert(a + b =~= a);
        assert(escaped(a) + escaped(b) =~= escaped(a));
    } else {
        assert((a + b).drop_last() =~= a + b.drop_last());
        law_escapes_join(a, b.drop_last(), c);
        assert(escaped(a) + escaped(b.drop_last()) + escaped_char(b.last()) =~= escaped(a) + (
        escaped(b.drop_last()) + escaped_char(b.last())));
    }
}

proof fn lemma_escaped_single(c: char)
    ensures
        escaped(seq![c]) == escaped_char(c),
{
    let one = seq![c];
    assert(one.drop_last() =~= Seq::empty());
    assert(one.last() == c);
    assert(escaped(one.drop_last()) =~= Seq::empty());
    assert(Seq::<char>::empty() + escaped_char(c) =~= escaped_char(c));
}

/// A whole number to one decimal place is ten times as many tenths.
pub proof fn law_tenths(n: nat)
    ensures
        tenths(n) == fixed(10 * n, 1),
{
    assert(pow10(1) == 10) by {
        reveal_with_fuel(pow10, 2);
    }
    assert((10 * n) / 10 == n && (10 * n) % 10 == 0);
    assert(decimal_digits(0, 1) =~= seq!['0']) by {
        reveal_with_fuel(decimal_digits, 2);
    }
    reveal_strlit(".0");
    reveal_strlit(".");
    assert(tenths(n) =~= fixed(10 * n, 1));
}

/// A position is printed to the nearest of its decimals: the base and a
/// fraction above it, or a fraction below it.
pub proof fn law_positions_are_nearest(base: nat, num: nat, den: nat, places: nat)
    requires
        den > 0,
    ensures
        exists|u: nat|
            above(base, num, den, places) == #[trigger] fixed(u, places) && 2 * (u * den) <= 2 * ((
            base * den + num) * power(10, places)) + den && 2 * ((base * den + num) * power(
                10,
                places,
            )) <= 2 * (u * den) + den,
        num <= base * den ==> exists|u: nat|
            below(base, num, den, places) == #[trigger] fixed(u, places) && 2 * (u * den) <= 2 * ((
            base * den - num) * power(10, places)) + den && 2 * ((base * den - num) * power(
                10,
                places,
            )) <= 2 * (u * den) + den,
{
    law_fraction_is_nearest(base * den + num, den, places);
    if num <= base * den {
        law_fraction_is_nearest((base * den - num) as nat, den, places);
    }
}

/// An axis is never without length, and ends at the top where that is above its
/// start.
pub proof fn law_axis_has_length(min: u64, top: u64)
    ensures
        min < axis_end(min, top),
        top > min ==> axis_end(min, top) == top,
        top <= min ==> axis_end(min, top) == min + 1,
{
}

/// Phases are told apart by their colours.
pub proof fn law_colours_differ(a: Phase, b: Phase)
    requires
        a != b,
    ensures
        colour_of(a) != colour_of(b),
{
    reveal_strlit("#7c8cf8");
    reveal_strlit("#e8734a");
    reveal_strlit("#4fb286");
    reveal_strlit("#8a8f98");
    assert(colour_of(a)[1] != colour_of(b)[1] || colour_of(a)[2] != colour_of(b)[2]);
}

} // verus!
