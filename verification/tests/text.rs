use foxguard::text::{contains_str, is_white_space_char, str_eq};

#[test]
fn white_space_agrees_with_char_is_whitespace() {
    for u in 0u32..=0x10FFFF {
        if let Some(c) = char::from_u32(u) {
            assert_eq!(is_white_space_char(c), c.is_whitespace(), "U+{:04X}", u);
        }
    }
}

#[test]
fn contains_str_agrees_with_str_contains() {
    let cases = [
        ("", ""),
        ("abc", ""),
        ("abc", "abc"),
        ("abc", "abcd"),
        ("a.min.js", ".min."),
        ("aaab", "aab"),
        ("λx.y", "x."),
        ("node_modules", "/node_modules/"),
    ];
    for (s, m) in cases {
        assert_eq!(contains_str(s, m), s.contains(m), "{:?} in {:?}", m, s);
    }
}

#[test]
fn str_eq_compares_characters() {
    assert!(str_eq("py/no-eval", "py/no-eval"));
    assert!(!str_eq("py/no-eval", "py/no-evaL"));
    assert!(!str_eq("abc", "ab"));
    assert!(str_eq("", ""));
}
