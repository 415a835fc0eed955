use sign_tx::decimal::{fixed_text, fraction_text, printed_units};
use sign_tx::spread::{spread_sums, Deviation};
use sign_tx::text::{
    char_count, decimal_digits_text, decimal_text, hex_at_least_8_text, hex_bytes_text,
    hex_digits_text, pad_left_text, pad_right_text,
};
use sign_tx::wide::Wide;

fn wide(hi: u128, lo: u128) -> Wide {
    Wide { hi, lo }
}

#[test]
fn wide_numbers_carry_and_borrow() {
    let sum = Wide::of(u128::MAX).plus(Wide::of(1));
    assert_eq!((sum.hi, sum.lo), (1, 0));
    let back = sum.minus(Wide::of(1));
    assert_eq!((back.hi, back.lo), (0, u128::MAX));
    assert!(back.less(sum));
    assert!(!sum.less(back));
    assert!(!sum.less(sum));
}

#[test]
fn wide_products_are_exact() {
    let p = Wide::product(u128::MAX, u128::MAX);
    assert_eq!((p.hi, p.lo), (u128::MAX - 1, 1));
    let q = wide(1, u128::MAX).times(3);
    assert_eq!((q.hi, q.lo), (5, u128::MAX - 2));
}

#[test]
fn wide_quotients_are_exact() {
    let (q, r) = Wide::product(u128::MAX, 12345).plus(Wide::of(77)).div_rem(Wide::of(u128::MAX));
    assert_eq!((q.hi, q.lo), (0, 12345));
    assert_eq!((r.hi, r.lo), (0, 77));
}

#[test]
fn fractions_print_like_floats() {
    let mut x: u64 = 3;
    for _ in 0..2000 {
        x = x.wrapping_mul(6364136223846793005).wrapping_add(1442695040888963407);
        let num = (x >> 33) as u128;
        let den = (x % 9973 + 1) as u128;
        let v = num as f64 / den as f64;
        let print = |places| fraction_text(Wide::of(num), Wide::of(den), places);
        assert_eq!(print(0), format!("{v:.0}"));
        assert_eq!(print(1), format!("{v:.1}"));
        assert_eq!(print(2), format!("{v:.2}"));
        assert_eq!(print(3), format!("{v:.3}"));
    }
}

#[test]
fn halves_print_like_floats() {
    for n in 0..4000u128 {
        let v = n as f64 / 1000.0;
        assert_eq!(fraction_text(Wide::of(n), Wide::of(1000), 2), format!("{v:.2}"));
        let v = n as f64 / 8.0;
        assert_eq!(fraction_text(Wide::of(n), Wide::of(8), 2), format!("{v:.2}"));
    }
}

#[test]
fn units_and_their_text() {
    assert_eq!(printed_units(Wide::of(2), Wide::of(3), 2), 67);
    assert_eq!(fixed_text(67, 2), "0.67");
    assert_eq!(fixed_text(1234, 0), "1234");
    assert_eq!(fixed_text(5, 3), "0.005");
}

#[test]
fn spreads_are_the_variance_times_the_squared_count() {
    assert_eq!(spread_sums(&[2, 4, 4, 4, 5, 5, 7, 9]), (40, Wide::of(256)));
    assert_eq!(spread_sums(&[1, 2, 3]), (6, Wide::of(6)));
    assert_eq!(spread_sums(&[7]), (7, Wide::of(0)));
}

#[test]
fn deviations_in_quarters() {
    let quarters = |square, den| Deviation { square: Wide::of(square), den }.quarters();
    assert_eq!(quarters(256, 8), 8); // exactly 2
    assert_eq!(quarters(1, 2), 2); // exactly one half
    assert_eq!(quarters(6, 3), 3); // about 0.816
    assert_eq!(quarters(0, 9), 0);
    assert_eq!(quarters(2, 1), 5); // about 1.414
    assert_eq!(quarters(3, 1), 7); // about 1.732
}

#[test]
fn many_digits_are_no_burden() {
    let text = decimal_digits_text(42, 1_000_000);
    assert_eq!(text.len(), 1_000_000);
    assert!(text.ends_with("00042"));
    let text = hex_digits_text(0xbeef, 1_000_000);
    assert_eq!(text.len(), 1_000_000);
    assert!(text.ends_with("0beef"));
    assert_eq!(decimal_digits_text(12345, 3), "345");
    assert_eq!(hex_digits_text(0xbeef, 0), "");
}

#[test]
fn texts_of_numbers() {
    assert_eq!(decimal_text(0), "0");
    assert_eq!(decimal_text(u128::MAX), u128::MAX.to_string());
    assert_eq!(hex_at_least_8_text(0xbeef), "0000beef");
    assert_eq!(hex_bytes_text(&[0, 0x1f, 0xa0]), "001fa0");
}

#[test]
fn texts_are_padded_by_characters() {
    assert_eq!(char_count("µs"), 2);
    assert_eq!(pad_left_text("µs", 4), "  µs");
    assert_eq!(pad_right_text("µs", 4), "µs  ");
    assert_eq!(pad_right_text("longer", 4), "longer");
    assert_eq!(pad_left_text("longer", 4), "longer");
}
