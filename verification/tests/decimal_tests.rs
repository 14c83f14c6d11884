use spldcrdchlscrp::decimal::{chars_of, parse_u64, parse_u8, u64_to_string};

#[test]
fn parse_u64_reads_plain_digits() {
    assert_eq!(parse_u64("123"), Some(123));
    assert_eq!(parse_u64("0"), Some(0));
    assert_eq!(parse_u64("1098765432109876543"), Some(1098765432109876543));
}

#[test]
fn parse_u64_allows_a_plus_and_leading_zeros() {
    assert_eq!(parse_u64("+7"), Some(7));
    assert_eq!(parse_u64("007"), Some(7));
    assert_eq!(parse_u64("+000"), Some(0));
}

#[test]
fn parse_u64_rejects_what_is_no_numeral() {
    assert_eq!(parse_u64(""), None);
    assert_eq!(parse_u64("+"), None);
    assert_eq!(parse_u64("-1"), None);
    assert_eq!(parse_u64("12a"), None);
    assert_eq!(parse_u64(" 12"), None);
    assert_eq!(parse_u64("1+2"), None);
    assert_eq!(parse_u64("١٢"), None);
}

#[test]
fn parse_u64_stops_at_the_range_of_the_type() {
    assert_eq!(parse_u64("18446744073709551615"), Some(u64::MAX));
    assert_eq!(parse_u64("18446744073709551616"), None);
    assert_eq!(parse_u64("99999999999999999999999"), None);
}

#[test]
fn parse_u64_agrees_with_the_standard_parser() {
    for text in ["0", "42", "+42", "0042", "", "+", "-0", "4 2", "18446744073709551615", "18446744073709551616"] {
        assert_eq!(parse_u64(text), text.parse::<u64>().ok(), "on {:?}", text);
    }
}

#[test]
fn parse_u8_stops_at_255() {
    assert_eq!(parse_u8("0"), Some(0));
    assert_eq!(parse_u8("255"), Some(255));
    assert_eq!(parse_u8("256"), None);
    assert_eq!(parse_u8("+5"), Some(5));
    assert_eq!(parse_u8("x"), None);
}

#[test]
fn u64_to_string_writes_the_shortest_numeral() {
    assert_eq!(u64_to_string(0), "0");
    assert_eq!(u64_to_string(9), "9");
    assert_eq!(u64_to_string(10), "10");
    assert_eq!(u64_to_string(1234567890), "1234567890");
    assert_eq!(u64_to_string(u64::MAX), "18446744073709551615");
}

#[test]
fn a_numeral_reads_back_as_its_number() {
    for n in [0u64, 1, 9, 10, 99, 100, 4096, 1 << 40, u64::MAX - 1, u64::MAX] {
        assert_eq!(parse_u64(&u64_to_string(n)), Some(n));
    }
}

#[test]
fn the_characters_of_a_text_come_one_by_one() {
    assert_eq!(chars_of(""), Vec::<char>::new());
    assert_eq!(chars_of("a\u{e9}\u{1F600}"), vec!['a', '\u{e9}', '\u{1F600}']);
}
