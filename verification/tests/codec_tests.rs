use container_rack_web::codec::{decode_decimal, decode_integer, format_integer, parse_integer};
use container_rack_web::decimal::{parse_decimal, Decimal};

#[test]
fn parse_integer_reads_plain_digits() {
    assert_eq!(parse_integer("5"), Some(5));
    assert_eq!(parse_integer("0"), Some(0));
    assert_eq!(parse_integer("12"), Some(12));
    assert_eq!(parse_integer("007"), Some(7));
    assert_eq!(parse_integer("+5"), Some(5));
    assert_eq!(parse_integer("2147483647"), Some(2147483647));
}

#[test]
fn parse_integer_reads_negative_numbers() {
    assert_eq!(parse_integer("-3"), Some(-3));
    assert_eq!(parse_integer("-0"), Some(0));
    assert_eq!(parse_integer("-007"), Some(-7));
    assert_eq!(parse_integer("-2147483648"), Some(-2147483648));
}

#[test]
fn parse_integer_rejects_malformed_text() {
    assert_eq!(parse_integer(""), None);
    assert_eq!(parse_integer("+"), None);
    assert_eq!(parse_integer("-"), None);
    assert_eq!(parse_integer("--5"), None);
    assert_eq!(parse_integer("+-5"), None);
    assert_eq!(parse_integer("++5"), None);
    assert_eq!(parse_integer("5-"), None);
    assert_eq!(parse_integer("abc"), None);
    assert_eq!(parse_integer(" 5"), None);
    assert_eq!(parse_integer("5 "), None);
    assert_eq!(parse_integer("5.0"), None);
    assert_eq!(parse_integer("1e3"), None);
    assert_eq!(parse_integer("٣"), None);
    assert_eq!(parse_integer("5٣"), None);
}

#[test]
fn parse_integer_stops_at_the_ends_of_the_machine_integer() {
    let largest = isize::MAX.to_string();
    assert_eq!(parse_integer(&largest), Some(isize::MAX));
    let smallest = isize::MIN.to_string();
    assert_eq!(parse_integer(&smallest), Some(isize::MIN));
    let mut beyond = largest.clone();
    beyond.push('0');
    assert_eq!(parse_integer(&beyond), None);
    let mut below = smallest.clone();
    below.push('0');
    assert_eq!(parse_integer(&below), None);
    assert_eq!(parse_integer("99999999999999999999999999999999"), None);
    assert_eq!(parse_integer("-99999999999999999999999999999999"), None);
    if isize::MAX as i128 == i64::MAX as i128 {
        assert_eq!(parse_integer("9223372036854775808"), None);
        assert_eq!(parse_integer("-9223372036854775809"), None);
        assert_eq!(parse_integer("18446744073709551615"), None);
    }
}

#[test]
fn parse_integer_agrees_with_the_standard_parser() {
    let samples = [
        "", "0", "1", "8", "2", "10", "0010", "+", "+0", "+12", "-", "-1", "-0", "-12", "--1",
        "-+1", "1-", "1 ", " 1", "1_000", "0x10", "12a", "a12", "1.5", "9223372036854775807",
        "9223372036854775808", "-9223372036854775808", "-9223372036854775809",
        "18446744073709551615", "18446744073709551616",
        "340282366920938463463374607431768211456", "٣", "1٣", "\u{ff11}",
    ];
    for sample in samples {
        assert_eq!(parse_integer(sample), sample.parse::<isize>().ok(), "{:?}", sample);
    }
}

#[test]
fn decode_integer_takes_the_parsed_value_of_well_formed_text() {
    assert_eq!(decode_integer(Some("5"), 8), 5);
    assert_eq!(decode_integer(Some("0"), 8), 0);
    assert_eq!(decode_integer(Some("+3"), 2), 3);
    assert_eq!(decode_integer(Some("8"), 8), 8);
}

#[test]
fn decode_integer_accepts_zero_and_negative_numbers() {
    assert_eq!(decode_integer(Some("-3"), 8), -3);
    assert_eq!(decode_integer(Some("-0"), 8), 0);
    assert_eq!(decode_integer(Some("0"), -8), 0);
    assert_eq!(decode_integer(Some("-12"), -8), -12);
}

#[test]
fn decode_integer_falls_back_to_the_default() {
    assert_eq!(decode_integer(None, 8), 8);
    assert_eq!(decode_integer(None, -8), -8);
    assert_eq!(decode_integer(Some(""), 8), 8);
    assert_eq!(decode_integer(Some("abc"), 2), 2);
    assert_eq!(decode_integer(Some("-"), 2), 2);
    assert_eq!(decode_integer(Some("2.5"), 7), 7);
    assert_eq!(decode_integer(Some("99999999999999999999999999"), 3), 3);
}

#[test]
fn format_integer_writes_the_shortest_digits() {
    assert_eq!(format_integer(0), "0");
    assert_eq!(format_integer(7), "7");
    assert_eq!(format_integer(10), "10");
    assert_eq!(format_integer(305), "305");
    assert_eq!(format_integer(-1), "-1");
    assert_eq!(format_integer(-305), "-305");
    assert_eq!(format_integer(isize::MAX), isize::MAX.to_string());
    assert_eq!(format_integer(isize::MIN), isize::MIN.to_string());
}

#[test]
fn format_integer_then_parse_integer_gives_the_number_back() {
    for n in [0isize, 1, 9, 10, 11, 99, 100, 12345, -1, -9, -10, -12345, isize::MAX - 1, isize::MAX, isize::MIN + 1, isize::MIN] {
        assert_eq!(parse_integer(&format_integer(n)), Some(n));
    }
}

#[test]
fn decode_decimal_takes_the_parsed_value_of_well_formed_text() {
    let default = Decimal::from_integer(4);
    assert_eq!(decode_decimal(Some("2.5"), default), Decimal::from_parts(false, 25, 1));
    assert_eq!(decode_decimal(Some("0"), default), Decimal::from_integer(0));
    assert_eq!(decode_decimal(Some("-1.5"), default), Decimal::from_parts(true, 15, 1));
    assert_eq!(decode_decimal(Some("3"), default), Decimal::from_integer(3));
    assert_eq!(decode_decimal(Some("1e3"), default), Decimal::from_integer(1000));
}

#[test]
fn decode_decimal_falls_back_to_the_default() {
    let default = Decimal::from_integer(4);
    assert_eq!(decode_decimal(None, default), default);
    assert_eq!(decode_decimal(Some(""), default), default);
    assert_eq!(decode_decimal(Some("thick"), default), default);
    assert_eq!(decode_decimal(Some("2,5"), default), default);
    assert_eq!(decode_decimal(Some("2.5mm"), default), default);
    assert_eq!(decode_decimal(Some("."), default), default);
    assert_eq!(decode_decimal(Some("inf"), default), default);
    assert_eq!(decode_decimal(Some("NaN"), default), default);
    assert_eq!(decode_decimal(Some("1e99"), default), default);
    assert_eq!(parse_decimal("thick"), None);
}
