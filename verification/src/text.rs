//! Text building blocks: decimal, hexadecimal and padded fields.

use vstd::prelude::*;
use vstd::string::StringExecFns;

verus! {

/// `String::push` of the standard library: the character is appended.
pub assume_specification[ String::push ](text: &mut String, c: char)
    ensures
        final(text)@ == old(text)@.push(c),
;

/// The character of one hexadecimal digit, in lower case.
pub open spec fn digit(d: nat) -> char {
    if d < 10 {
        (48 + d) as char
    } else {
        (87 + d) as char
    }
}

/// `n` in decimal, without leading zeros.
pub open spec fn decimal(n: nat) -> Seq<char>
    decreases n,
{
    if n < 10 {
        seq![digit(n)]
    } else {
        decimal(n / 10).push(digit(n % 10))
    }
}

/// The last `width` decimal digits of `n`, zeros included.
pub open spec fn decimal_digits(n: nat, width: nat) -> Seq<char>
    decreases width,
{
    if width == 0 {
        Seq::empty()
    } else {
        decimal_digits(n / 10, (width - 1) as nat).push(digit(n % 10))
    }
}

/// The last `width` hexadecimal digits of `n`, zeros included.
pub open spec fn hex_digits(n: nat, width: nat) -> Seq<char>
    decreases width,
{
    if width == 0 {
        Seq::empty()
    } else {
        hex_digits(n / 16, (width - 1) as nat).push(digit(n % 16))
    }
}

/// `n` in hexadecimal with as many digits as it needs.
pub open spec fn hex(n: nat) -> Seq<char>
    decreases n,
{
    if n < 16 {
        seq![digit(n)]
    } else {
        hex(n / 16).push(digit(n % 16))
    }
}

/// `n` in hexadecimal, zero-filled on the left to eight digits.
pub open spec fn hex_at_least_8(n: nat) -> Seq<char> {
    if n < 0x1_0000_0000 {
        hex_digits(n, 8)
    } else {
        hex(n)
    }
}

/// Two hexadecimal digits per byte.
pub open spec fn hex_bytes(bytes: Seq<u8>) -> Seq<char>
    decreases bytes.len(),
{
    if bytes.len() == 0 {
        Seq::empty()
    } else {
        hex_bytes(bytes.drop_last()) + hex_digits(bytes.last() as nat, 2)
    }
}

pub open spec fn spaces(n: nat) -> Seq<char> {
    Seq::new(n, |i: int| ' ')
}

/// Left-aligned in a field of `width` characters; longer text is kept whole.
pub open spec fn pad_right(text: Seq<char>, width: nat) -> Seq<char> {
    if text.len() < width {
        text + spaces((width - text.len()) as nat)
    } else {
        text
    }
}

/// Right-aligned in a field of `width` characters; longer text is kept whole.
pub open spec fn pad_left(text: Seq<char>, width: nat) -> Seq<char> {
    if text.len() < width {
        spaces((width - text.len()) as nat) + text
    } else {
        text
    }
}

fn digit_of(d: u8) -> (c: char)
    requires
        d < 16,
    ensures
        c == digit(d as nat),
{
    if d < 10 {
        (48 + d) as char
    } else {
        (87 + d) as char
    }
}

pub fn decimal_text(n: u128) -> (text: String)
    ensures
        text@ == decimal(n as nat),
    decreases n,
{
    let mut text = if n < 10 {
        String::new()
    } else {
        decimal_text(n / 10)
    };
    text.push(digit_of((n % 10) as u8));
    assert(n < 10 ==> text@ == seq![digit(n as nat)]);
    text
}

/// The characters from the last to the first.
fn text_of_reversed(chars: &Vec<char>) -> (text: String)
    ensures
        text@ == chars@.reverse(),
{
    let mut text = String::new();
    let mut left: usize = chars.len();
    while left > 0
        invariant
            left <= chars@.len(),
            text@ == chars@.reverse().take(chars@.len() - left),
        decreases left,
    {
        let ghost before = text@;
        left = left - 1;
        text.push(chars[left]);
        assert(text@ =~= chars@.reverse().take(chars@.len() - left));
    }
    assert(chars@.reverse().take(chars@.len() as int) =~= chars@.reverse());
    text
}

pub fn decimal_digits_text(n: u128, width: u32) -> (text: String)
    ensures
        text@ == decimal_digits(n as nat, width as nat),
{
    let mut digits: Vec<char> = Vec::new();
    let mut rest: u128 = n;
    let mut left: u32 = width;
    assert(decimal_digits(n as nat, width as nat) + digits@.reverse() =~= decimal_digits(
        n as nat,
        width as nat,
    ));
    while left > 0
        invariant
            decimal_digits(n as nat, width as nat) == decimal_digits(rest as nat, left as nat)
                + digits@.reverse(),
        decreases left,
    {
        let ghost before = digits@;
        digits.push(digit_of((rest % 10) as u8));
        assert(decimal_digits(rest as nat, left as nat) + before.reverse() =~= decimal_digits(
            rest as nat / 10,
            (left - 1) as nat,
        ) + digits@.reverse());
        rest = rest / 10;
        left = left - 1;
    }
    assert(decimal_digits(rest as nat, 0) + digits@.reverse() =~= digits@.reverse());
    text_of_reversed(&digits)
}

pub fn hex_digits_text(n: u128, width: u32) -> (text: String)
    ensures
        text@ == hex_digits(n as nat, width as nat),
{
    let mut digits: Vec<char> = Vec::new();
    let mut rest: u128 = n;
    let mut left: u32 = width;
    assert(hex_digits(n as nat, width as nat) + digits@.reverse() =~= hex_digits(
        n as nat,
        width as nat,
    ));
    while left > 0
        invariant
            hex_digits(n as nat, width as nat) == hex_digits(rest as nat, left as nat)
                + digits@.reverse(),
        decreases left,
    {
        let ghost before = digits@;
        digits.push(digit_of((rest % 16) as u8));
        assert(hex_digits(rest as nat, left as nat) + before.reverse() =~= hex_digits(
            rest as nat / 16,
            (left - 1) as nat,
        ) + digits@.reverse());
        rest = rest / 16;
        left = left - 1;
    }
    assert(hex_digits(rest as nat, 0) + digits@.reverse() =~= digits@.reverse());
    text_of_reversed(&digits)
}

fn hex_text(n: u128) -> (text: String)
    ensures
        text@ == hex(n as nat),
    decreases n,
{
    let mut text = if n < 16 {
        String::new()
    } else {
        hex_text(n / 16)
    };
    text.push(digit_of((n % 16) as u8));
    assert(n < 16 ==> text@ == seq![digit(n as nat)]);
    text
}

pub fn hex_at_least_8_text(n: u64) -> (text: String)
    ensures
        text@ == hex_at_least_8(n as nat),
{
    if n < 0x1_0000_0000 {
        hex_digits_text(n as u128, 8)
    } else {
        hex_text(n as u128)
    }
}

pub fn hex_bytes_text(bytes: &[u8]) -> (text: String)
    ensures
        text@ == hex_bytes(bytes@),
{
    let mut text = String::new();
    let mut i: usize = 0;
    assert(bytes@.take(0) == Seq::<u8>::empty());
    while i < bytes.len()
        invariant
            i <= bytes.len(),
            text@ == hex_bytes(bytes@.take(i as int)),
        decreases bytes.len() - i,
    {
        assert(bytes@.take(i + 1).drop_last() == bytes@.take(i as int));
        let pair = hex_digits_text(bytes[i] as u128, 2);
        text.append(pair.as_str());
        i = i + 1;
    }
    assert(bytes@.take(bytes.len() as int) == bytes@);
    text
}

/// The number of characters of a text.
pub fn char_count(text: &str) -> (n: usize)
    ensures
        n == text@.len(),
{
    chars_of(text).len()
}

/// The characters of a text.
pub fn chars_of(text: &str) -> (chars: Vec<char>)
    ensures
        chars@ == text@,
{
    let mut chars: Vec<char> = Vec::new();
    for c in it: text.chars()
        invariant
            it.seq() == text@,
            chars@ == text@.take(it.index() as int),
    {
        chars.push(c);
    }
    assert(text@.take(text@.len() as int) == text@);
    chars
}

fn spaces_text(n: usize) -> (text: String)
    ensures
        text@ == spaces(n as nat),
{
    let mut text = String::new();
    let mut i: usize = 0;
    while i < n
        invariant
            i <= n,
            text@ == spaces(i as nat),
        decreases n - i,
    {
        text.push(' ');
        i = i + 1;
    }
    text
}

pub fn pad_right_text(text: &str, width: usize) -> (padded: String)
    ensures
        padded@ == pad_right(text@, width as nat),
{
    let n = char_count(text);
    let mut padded = String::from_str(text);
    if n < width {
        let fill = spaces_text(width - n);
        padded.append(fill.as_str());
    }
    padded
}

pub fn pad_left_text(text: &str, width: usize) -> (padded: String)
    ensures
        padded@ == pad_left(text@, width as nat),
{
    let n = char_count(text);
    if n < width {
        let mut padded = spaces_text(width - n);
        padded.append(text);
        padded
    } else {
        String::from_str(text)
    }
}

} // verus!
