use rat::numeral::{parse_u32, to_decimal, push_decimal};

#[test]
fn parse_u32_reads_plain_digits() {
    assert_eq!(parse_u32("9600"), Some(9600));
    assert_eq!(parse_u32("0"), Some(0));
    assert_eq!(parse_u32("19200"), Some(19200));
}

#[test]
fn parse_u32_takes_a_leading_plus_and_leading_zeros() {
    assert_eq!(parse_u32("+5"), Some(5));
    assert_eq!(parse_u32("007"), Some(7));
    assert_eq!(parse_u32("+000115200"), Some(115200));
    assert_eq!(parse_u32("00000000000000000000000000000042"), Some(42));
}

#[test]
fn parse_u32_refuses_what_is_no_number() {
    assert_eq!(parse_u32(""), None);
    assert_eq!(parse_u32("+"), None);
    assert_eq!(parse_u32("-"), None);
    assert_eq!(parse_u32("-1"), None);
    assert_eq!(parse_u32("++1"), None);
    assert_eq!(parse_u32("12a"), None);
    assert_eq!(parse_u32("a12"), None);
    assert_eq!(parse_u32(" 12"), None);
    assert_eq!(parse_u32("12 "), None);
    assert_eq!(parse_u32("1_000"), None);
    assert_eq!(parse_u32("9600,8"), None);
    assert_eq!(parse_u32("９６００"), None);
    assert_eq!(parse_u32("0x10"), None);
}

#[test]
fn parse_u32_stops_at_the_largest_u32() {
    assert_eq!(parse_u32("4294967295"), Some(u32::MAX));
    assert_eq!(parse_u32("4294967296"), None);
    assert_eq!(parse_u32("4294967300"), None);
    assert_eq!(parse_u32("99999999999999999999"), None);
    assert_eq!(parse_u32("42949672950"), None);
}

#[test]
fn parse_u32_agrees_with_the_standard_parser() {
    let samples = [
        "", "0", "1", "+1", "-1", "+", "-", "+-1", "10", "0010", "4294967295", "4294967296",
        "429496729", "5000000000", "1e3", "12.5", "١٢", "٣", "abc", "9600\n", "\t9600", "+0",
        "-0", "000", "1 2", "+4294967295", "+4294967296", "18446744073709551616",
    ];
    for sample in samples {
        assert_eq!(parse_u32(sample), sample.parse::<u32>().ok(), "for {:?}", sample);
    }
}

#[test]
fn to_decimal_writes_zero() {
    assert_eq!(to_decimal(0), "0");
}

#[test]
fn to_decimal_writes_every_digit_in_place() {
    assert_eq!(to_decimal(7), "7");
    assert_eq!(to_decimal(10), "10");
    assert_eq!(to_decimal(1234567890), "1234567890");
    assert_eq!(to_decimal(1700000000), "1700000000");
    assert_eq!(to_decimal(u64::MAX), "18446744073709551615");
}

#[test]
fn to_decimal_agrees_with_the_standard_formatter() {
    let mut n: u64 = 1;
    for _ in 0..64 {
        assert_eq!(to_decimal(n), n.to_string());
        assert_eq!(to_decimal(n - 1), (n - 1).to_string());
        n = n.wrapping_mul(2);
    }
    for n in 0u64..1200 {
        assert_eq!(to_decimal(n), format!("{}", n));
    }
}

#[test]
fn push_decimal_appends_behind_what_is_there() {
    let mut out = String::from("t=");
    push_decimal(&mut out, 305);
    assert_eq!(out, "t=305");
    push_decimal(&mut out, 0);
    assert_eq!(out, "t=3050");
}

#[test]
fn what_is_written_reads_back() {
    for n in [0u32, 1, 9, 10, 99, 100, 9600, 19200, 115200, u32::MAX - 1, u32::MAX] {
        assert_eq!(parse_u32(&to_decimal(n as u64)), Some(n));
    }
}
