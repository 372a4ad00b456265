//! Numbers and their texts.
use netlink_exporter::text::{chars_of, dec_text, parse_i64, parse_unsigned, signed_dec_text};

#[test]
fn signed_numbers_read_back() {
    for n in [0, 7, -7, 10, -100, 65_535, i64::MAX, i64::MIN] {
        let text = signed_dec_text(n);
        assert_eq!(text, n.to_string());
        assert_eq!(parse_i64(&chars_of(&text)), Some(n));
    }
}

#[test]
fn unsigned_numbers_read_back() {
    for n in [0, 9, 10, 12_345, u64::MAX] {
        let text = dec_text(n);
        assert_eq!(text, n.to_string());
        assert_eq!(parse_unsigned(&chars_of(&text), 10), Some(n));
    }
}

#[test]
fn numbers_out_of_range_are_refused() {
    let signed = |s: &str| parse_i64(&chars_of(s));
    let unsigned = |s: &str, base: u8| parse_unsigned(&chars_of(s), base);
    assert_eq!(signed("9223372036854775807"), Some(i64::MAX));
    assert_eq!(signed("9223372036854775808"), None);
    assert_eq!(signed("-9223372036854775808"), Some(i64::MIN));
    assert_eq!(signed("-9223372036854775809"), None);
    assert_eq!(signed("+5"), Some(5));
    assert_eq!(signed("-"), None);
    assert_eq!(signed(""), None);
    assert_eq!(signed("--1"), None);
    assert_eq!(unsigned("18446744073709551615", 10), Some(u64::MAX));
    assert_eq!(unsigned("18446744073709551616", 10), None);
    assert_eq!(unsigned("Ff", 16), Some(255));
    assert_eq!(unsigned("g", 16), None);
    assert_eq!(unsigned("-1", 10), None);
}
