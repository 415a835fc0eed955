//! What the tool draws at random: labels for fresh keys, and salt for payloads.

use crate::reading::{law_hex_digits_read_back, power, value_of};
use crate::text::{digit, hex_digits};
use vstd::prelude::*;
use vstd::string::StringExecFns;

verus! {

/// Whether bits are those of a random UUID: version 4, in the standard variant.
pub open spec fn is_random_uuid(bits: u128) -> bool {
    &&& (bits as nat / 0x1000_0000_0000_0000_0000) % 16 == 4
    &&& (bits as nat / 0x4000_0000_0000_0000) % 4 == 2
}

/// `uuid::Uuid::new_v4` and `as_u128`: the bits of a random UUID. Which one is
/// left open, as it is drawn anew for each call. The call panics where the
/// system has no source of randomness.
#[verifier::external_body]
pub(crate) fn random_bits() -> (bits: u128)
    ensures
        is_random_uuid(bits),
{
    uuid::Uuid::new_v4().as_u128()
}

/// The bits of a UUID in its hyphenated form: groups of 8, 4, 4, 4 and 12
/// lower-case hexadecimal digits.
pub open spec fn uuid_text(bits: u128) -> Seq<char> {
    let digits = hex_digits(bits as nat, 32);
    digits.subrange(0, 8) + "-"@ + digits.subrange(8, 12) + "-"@ + digits.subrange(12, 16) + "-"@
        + digits.subrange(16, 20) + "-"@ + digits.subrange(20, 32)
}

/// `uuid::Uuid::from_u128` and its `Display`: the hyphenated form of the bits.
#[verifier::external_body]
fn hyphenated(bits: u128) -> (text: String)
    ensures
        text@ == uuid_text(bits),
{
    uuid::Uuid::from_u128(bits).to_string()
}

/// The label of a key that is generated for one run.
pub open spec fn key_label(bits: u128) -> Seq<char> {
    "bench-"@ + uuid_text(bits)
}

/// The label for given bits.
pub fn label_of(bits: u128) -> (label: String)
    ensures
        label@ == key_label(bits),
{
    let mut label = String::from_str("bench-");
    let id = hyphenated(bits);
    label.append(id.as_str());
    label
}

/// The hyphenated form has 36 characters with hyphens behind the eighth, the
/// twelfth, the sixteenth and the twentieth digit, and the digits read back as
/// the bits.
pub proof fn law_uuid_reads_back(bits: u128)
    ensures
        ({
            let text = uuid_text(bits);
            &&& text.len() == 36
            &&& text[8] == '-' && text[13] == '-' && text[18] == '-' && text[23] == '-'
            &&& value_of(
                text.subrange(0, 8) + text.subrange(9, 13) + text.subrange(14, 18) + text.subrange(
                    19,
                    23,
                ) + text.subrange(24, 36),
                16,
            ) == bits
        }),
{
    reveal_strlit("-");
    let text = uuid_text(bits);
    let digits = hex_digits(bits as nat, 32);
    law_hex_digits_read_back(bits as nat, 32);
    assert(power(16, 32) == 0x1_0000_0000_0000_0000_0000_0000_0000_0000) by {
        reveal_with_fuel(power, 33);
    }
    assert(text.subrange(0, 8) + text.subrange(9, 13) + text.subrange(14, 18) + text.subrange(
        19,
        23,
    ) + text.subrange(24, 36) =~= digits);
}

/// A label is the word and the form of its bits, so labels of different bits
/// differ.
pub proof fn law_labels_differ(a: u128, b: u128)
    ensures
        "bench-"@.is_prefix_of(key_label(a)),
        key_label(a).skip(6) == uuid_text(a),
        a != b ==> key_label(a) != key_label(b),
{
    reveal_strlit("bench-");
    assert("bench-"@ =~= key_label(a).subrange(0, 6));
    assert(key_label(a).skip(6) =~= uuid_text(a));
    assert(key_label(b).skip(6) =~= uuid_text(b));
    law_uuid_reads_back(a);
    law_uuid_reads_back(b);
}

proof fn lemma_hex_digit_at(n: nat, width: nat, i: int)
    requires
        0 <= i < width,
    ensures
        hex_digits(n, width).len() == width,
        power(16, (width - 1 - i) as nat) > 0,
        hex_digits(n, width)[i] == digit((n / power(16, (width - 1 - i) as nat)) % 16),
    decreases width,
{
    law_hex_digits_read_back(n, width);
    if i == width - 1 {
        assert(power(16, 0) == 1);
        assert(n / 1 == n);
        law_hex_digits_read_back(n / 16, (width - 1) as nat);
    } else {
        lemma_hex_digit_at(n / 16, (width - 1) as nat, i);
        let p = power(16, (width - 2 - i) as nat);
        assert(power(16, (width - 1 - i) as nat) == 16 * p);
        vstd::arithmetic::div_mod::lemma_div_denominator(n as int, 16, p as int);
    }
}

/// The form of a random UUID shows its version, a 4 behind the second hyphen,
/// and its variant, one of 8, 9, a and b behind the third.
pub proof fn law_random_uuid_shows_its_version(bits: u128)
    requires
        is_random_uuid(bits),
    ensures
        uuid_text(bits)[14] == '4',
        uuid_text(bits)[19] == '8' || uuid_text(bits)[19] == '9' || uuid_text(bits)[19] == 'a'
            || uuid_text(bits)[19] == 'b',
{
    reveal_strlit("-");
    let n = bits as nat;
    let digits = hex_digits(n, 32);
    lemma_hex_digit_at(n, 32, 12);
    lemma_hex_digit_at(n, 32, 16);
    assert(power(16, 19) == 0x1000_0000_0000_0000_0000 && power(16, 15) == 0x1000_0000_0000_0000)
        by {
        reveal_with_fuel(power, 20);
    }
    assert(uuid_text(bits)[14] == digits[12]);
    assert(uuid_text(bits)[19] == digits[16]);
    let d = (n / 0x1000_0000_0000_0000) % 16;
    assert(d / 4 == (n / 0x4000_0000_0000_0000) % 4);
    assert(d == 8 || d == 9 || d == 10 || d == 11);
}

} // verus!
