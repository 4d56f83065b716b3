use property_photos::text::{ends_with, starts_with, str_equals, substring, trim};

#[test]
fn trim_matches_str_trim() {
    for s in ["  x ", "\t\n", "", "a b", "\u{3000}X\u{a0}", "\u{b}y\u{c}", "\u{85}z"] {
        assert_eq!(trim(s), s.trim(), "{:?}", s);
    }
}

#[test]
fn small_string_helpers() {
    assert!(str_equals("abc", "abc"));
    assert!(!str_equals("abc", "abd"));
    assert!(starts_with("opencv_world", "opencv"));
    assert!(ends_with("a.dll", ".dll"));
    assert!(!ends_with("dll", ".dll"));
    assert_eq!(substring("héllo", 1, 3), "él");
}

#[test]
fn white_space_matches_std_for_every_char() {
    for v in 0u32..=0x10ffff {
        if let Some(c) = char::from_u32(v) {
            let s = c.to_string();
            assert_eq!(trim(&s).is_empty(), c.is_whitespace(), "U+{:04X}", v);
        }
    }
}
