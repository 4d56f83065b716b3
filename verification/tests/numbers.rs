use property_photos::numbers::{format_count, format_decimal, format_two_digits, parse_u32};

#[test]
fn parses_like_u32_from_str() {
    assert_eq!(parse_u32("0"), Some(0));
    assert_eq!(parse_u32("007"), Some(7));
    assert_eq!(parse_u32("+12"), Some(12));
    assert_eq!(parse_u32("4294967295"), Some(u32::MAX));
    assert_eq!(parse_u32("4294967296"), None);
    assert_eq!(parse_u32(""), None);
    assert_eq!(parse_u32("+"), None);
    assert_eq!(parse_u32("-1"), None);
    assert_eq!(parse_u32("1a"), None);
    for s in ["0", "007", "+12", "4294967295", "4294967296", "", "+", "-1", "1a", " 1"] {
        assert_eq!(parse_u32(s), s.parse::<u32>().ok(), "input {:?}", s);
    }
}

#[test]
fn formats_decimal() {
    assert_eq!(format_decimal(0), "0");
    assert_eq!(format_decimal(4294967295), "4294967295");
    assert_eq!(format_two_digits(7), "07");
    assert_eq!(format_two_digits(12), "12");
    assert_eq!(format_two_digits(123), "123");
    assert_eq!(format_count(1024), "1024");
}

#[test]
fn parse_after_format_gives_the_number() {
    for n in [0u32, 9, 10, 99, 100, 65535, u32::MAX] {
        assert_eq!(parse_u32(&format_decimal(n)), Some(n));
        assert_eq!(parse_u32(&format_two_digits(n)), Some(n));
    }
}
