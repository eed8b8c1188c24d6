use unearth::number::{pad_left_chars, parse_unsigned, u64_to_decimal, IntErrorKind};
use unearth::options::int_error_message;
use unearth::text::{chars_of, lines_of, split_on_char, split_whitespace_chars, string_of, trim_whitespace};

fn s(v: &[char]) -> String {
    string_of(v)
}

#[test]
fn unsigned_parsing() {
    assert_eq!(parse_unsigned(chars_of("42").as_slice(), 100), Ok(42));
    assert_eq!(parse_unsigned(chars_of("+7").as_slice(), 100), Ok(7));
    assert_eq!(parse_unsigned(chars_of("").as_slice(), 100), Err(IntErrorKind::Empty));
    assert_eq!(parse_unsigned(chars_of("-").as_slice(), 100), Err(IntErrorKind::InvalidDigit));
    assert_eq!(parse_unsigned(chars_of("1x").as_slice(), 100), Err(IntErrorKind::InvalidDigit));
    assert_eq!(parse_unsigned(chars_of("101").as_slice(), 100), Err(IntErrorKind::PosOverflow));
}

#[test]
fn integer_error_texts() {
    assert_eq!(int_error_message(IntErrorKind::Empty), "cannot parse integer from empty string");
    assert_eq!(int_error_message(IntErrorKind::InvalidDigit), "invalid digit found in string");
    assert_eq!(int_error_message(IntErrorKind::PosOverflow), "number too large to fit in target type");
}

#[test]
fn decimals_and_padding() {
    assert_eq!(s(&u64_to_decimal(0)), "0");
    assert_eq!(s(&u64_to_decimal(18446744073709551615)), "18446744073709551615");
    assert_eq!(s(&pad_left_chars(chars_of("12").as_slice(), 5)), "   12");
    assert_eq!(s(&pad_left_chars(chars_of("123456").as_slice(), 3)), "123456");
}

#[test]
fn splitting() {
    let parts: Vec<String> = split_on_char(chars_of("a::b").as_slice(), ':').iter().map(|p| s(p)).collect();
    assert_eq!(parts, vec!["a", "", "b"]);
    let words: Vec<String> = split_whitespace_chars(chars_of("  a \t b\n").as_slice()).iter().map(|p| s(p)).collect();
    assert_eq!(words, vec!["a", "b"]);
    let lines: Vec<String> = lines_of(chars_of("x\r\ny\n\nz\n").as_slice()).iter().map(|p| s(p)).collect();
    assert_eq!(lines, vec!["x", "y", "", "z"]);
    assert_eq!(s(&trim_whitespace(chars_of("  q r  ").as_slice())), "q r");
}
