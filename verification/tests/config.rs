use emvision::config::{parse_color, parse_number, ParseError, DEFAULT_IMAGE_SIZE, DEFAULT_ITERATIONS, DEFAULT_SCALE};
use std::num::IntErrorKind;

fn by_std(parsed: Result<u32, std::num::ParseIntError>) -> Result<u32, ParseError> {
    parsed.map_err(|error| match error.kind() {
        IntErrorKind::Empty => ParseError::Empty,
        IntErrorKind::InvalidDigit => ParseError::InvalidDigit,
        IntErrorKind::PosOverflow => ParseError::TooLarge,
        other => panic!("unexpected {:?}", other),
    })
}

#[test]
fn decimal_numbers_are_read() {
    assert_eq!(parse_number("0"), Ok(0));
    assert_eq!(parse_number("7"), Ok(7));
    assert_eq!(parse_number("500000"), Ok(500000));
    assert_eq!(parse_number("4294967295"), Ok(u32::MAX));
    assert_eq!(parse_number("+12"), Ok(12));
    assert_eq!(parse_number("000000000000012"), Ok(12));
}

#[test]
fn what_is_no_number_is_refused() {
    assert_eq!(parse_number(""), Err(ParseError::Empty));
    assert_eq!(parse_number("+"), Err(ParseError::InvalidDigit));
    assert_eq!(parse_number("-1"), Err(ParseError::InvalidDigit));
    assert_eq!(parse_number("12a"), Err(ParseError::InvalidDigit));
    assert_eq!(parse_number(" 12"), Err(ParseError::InvalidDigit));
    assert_eq!(parse_number("1_000"), Err(ParseError::InvalidDigit));
    assert_eq!(parse_number("ff"), Err(ParseError::InvalidDigit));
    assert_eq!(parse_number("4294967296"), Err(ParseError::TooLarge));
    assert_eq!(parse_number("99999999999999999999"), Err(ParseError::TooLarge));
}

#[test]
fn the_first_obstacle_decides() {
    assert_eq!(parse_number("99999999999x"), Err(ParseError::TooLarge));
    assert_eq!(parse_number("9x99999999999"), Err(ParseError::InvalidDigit));
    assert_eq!(parse_number("429496729x"), Err(ParseError::InvalidDigit));
}

#[test]
fn colors_are_read_in_hexadecimal_and_decimal() {
    assert_eq!(parse_color("#FFFFFFFF"), Ok(0xFFFFFFFF));
    assert_eq!(parse_color("#ff8040c0"), Ok(0xFF8040C0));
    assert_eq!(parse_color("#0"), Ok(0));
    assert_eq!(parse_color("#1A2b"), Ok(0x1A2B));
    assert_eq!(parse_color("#+ff"), Ok(255));
    assert_eq!(parse_color("255"), Ok(255));
    assert_eq!(parse_color("4294967295"), Ok(u32::MAX));
}

#[test]
fn what_is_no_color_is_refused() {
    assert_eq!(parse_color(""), Err(ParseError::Empty));
    assert_eq!(parse_color("#"), Err(ParseError::Empty));
    assert_eq!(parse_color("#+"), Err(ParseError::InvalidDigit));
    assert_eq!(parse_color("#xyz"), Err(ParseError::InvalidDigit));
    assert_eq!(parse_color("##00"), Err(ParseError::InvalidDigit));
    assert_eq!(parse_color("ff"), Err(ParseError::InvalidDigit));
    assert_eq!(parse_color("#100000000"), Err(ParseError::TooLarge));
    assert_eq!(parse_color("white"), Err(ParseError::InvalidDigit));
}

#[test]
fn numbers_are_read_as_the_standard_library_reads_them() {
    let texts = [
        "", "0", "1", "+", "+0", "++1", "-", "-0", "42", "0042", "4294967295", "4294967296", "42949672950",
        "12345678901234567890", "1e3", "0x10", " 1", "1 ", "٣", "１２", "9999999999a", "a9999999999", "+4294967295",
        "+4294967296", "#12", "12#",
    ];
    for text in texts {
        assert_eq!(parse_number(text), by_std(text.parse::<u32>()), "{:?}", text);
        let hexadecimal = format!("#{}", text);
        assert_eq!(parse_color(&hexadecimal), by_std(u32::from_str_radix(text, 16)), "{:?}", hexadecimal);
        if !text.starts_with('#') {
            assert_eq!(parse_color(text), by_std(text.parse::<u32>()), "{:?}", text);
        }
    }
    for text in ["ff", "FF", "fFfFfFfF", "100000000", "abcdefg", "G", "+ff", "deadbeef", "DEADBEEF0", "-ff"] {
        let hexadecimal = format!("#{}", text);
        assert_eq!(parse_color(&hexadecimal), by_std(u32::from_str_radix(text, 16)), "{:?}", hexadecimal);
    }
}

#[test]
fn defaults_of_a_run() {
    assert_eq!(DEFAULT_ITERATIONS, 500000);
    assert_eq!(DEFAULT_IMAGE_SIZE, 20);
    assert_eq!(DEFAULT_SCALE, 1);
    assert_eq!(emvision::canvas::DEFAULT_BACKGROUND, 0xFFFFFFFF);
}
