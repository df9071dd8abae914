use spreadterm::text::{
    append_decimal, append_signed_decimal, byte_len, char_width, chars_of, parse_i32,
};

#[test]
fn characters_of_a_text() {
    assert_eq!(chars_of(""), Vec::<char>::new());
    assert_eq!(chars_of("a\u{e9}\u{1F600}"), vec!['a', '\u{e9}', '\u{1F600}']);
}

#[test]
fn widths_in_bytes() {
    assert_eq!(char_width('a'), 1);
    assert_eq!(char_width('\u{7f}'), 1);
    assert_eq!(char_width('\u{80}'), 2);
    assert_eq!(char_width('\u{7ff}'), 2);
    assert_eq!(char_width('\u{800}'), 3);
    assert_eq!(char_width('\u{ffff}'), 3);
    assert_eq!(char_width('\u{10000}'), 4);
    assert_eq!(char_width('\u{10ffff}'), 4);
    assert_eq!(byte_len(""), 0);
    assert_eq!(byte_len("a\u{e9}\u{20ac}\u{1F600}"), 10);
}

#[test]
fn decimal_numerals() {
    let mut text = String::from("n=");
    append_decimal(&mut text, 0);
    append_decimal(&mut text, 7);
    append_decimal(&mut text, 1203);
    assert_eq!(text, "n=071203");
    let mut eager = String::new();
    append_decimal(&mut eager, u64::MAX);
    assert_eq!(eager, "18446744073709551615");
    let mut signed = String::new();
    append_signed_decimal(&mut signed, -45);
    append_signed_decimal(&mut signed, 0);
    append_signed_decimal(&mut signed, 45);
    assert_eq!(signed, "-45045");
    let mut least = String::new();
    append_signed_decimal(&mut least, i64::MIN);
    assert_eq!(least, "-9223372036854775808");
}

#[test]
fn integers_of_32_bits() {
    assert_eq!(parse_i32("0"), Some(0));
    assert_eq!(parse_i32("-0"), Some(0));
    assert_eq!(parse_i32("+17"), Some(17));
    assert_eq!(parse_i32("-17"), Some(-17));
    assert_eq!(parse_i32("0017"), Some(17));
    assert_eq!(parse_i32("2147483647"), Some(i32::MAX));
    assert_eq!(parse_i32("-2147483648"), Some(i32::MIN));
    assert_eq!(parse_i32("2147483648"), None);
    assert_eq!(parse_i32("-2147483649"), None);
    assert_eq!(parse_i32("00000000000000000000000000000000000012"), Some(12));
    assert_eq!(parse_i32("99999999999999999999999999999999999999"), None);
    assert_eq!(parse_i32(""), None);
    assert_eq!(parse_i32("-"), None);
    assert_eq!(parse_i32("+"), None);
    assert_eq!(parse_i32("1 "), None);
    assert_eq!(parse_i32(" 1"), None);
    assert_eq!(parse_i32("1.0"), None);
    assert_eq!(parse_i32("--1"), None);
    assert_eq!(parse_i32("1e3"), None);
    assert_eq!(parse_i32("\u{663}"), None);
}
