use zksolc_driver::text::{
    char_is_digit, chars_equal, chars_of, contains_char, has_prefix, push_chars, push_decimal,
    push_signed_decimal, push_str_chars, str_equal, string_of, string_of_range,
};

#[test]
fn chars_round_trip() {
    for s in ["", "a", "zksolc-v1.3.9", "h\u{e9}llo \u{1f600}"] {
        let chars = chars_of(s);
        assert_eq!(chars, s.chars().collect::<Vec<char>>());
        assert_eq!(string_of(&chars), s);
    }
}

#[test]
fn ranges() {
    let chars = chars_of("solc:1.3.9");
    assert_eq!(string_of_range(&chars, 5, 10), "1.3.9");
    assert_eq!(string_of_range(&chars, 0, 4), "solc");
    assert_eq!(string_of_range(&chars, 3, 3), "");
}

#[test]
fn comparing() {
    assert!(str_equal("", ""));
    assert!(str_equal("abc", "abc"));
    assert!(!str_equal("abc", "abd"));
    assert!(!str_equal("abc", "ab"));
    assert!(!str_equal("ab", "abc"));
    assert!(chars_equal(&chars_of("x"), &chars_of("x")));
    assert!(has_prefix(&chars_of("solc:1"), &chars_of("solc:")));
    assert!(has_prefix(&chars_of("solc:"), &chars_of("solc:")));
    assert!(has_prefix(&chars_of("abc"), &chars_of("")));
    assert!(!has_prefix(&chars_of("sol"), &chars_of("solc:")));
    assert!(!has_prefix(&chars_of("solx:1"), &chars_of("solc:")));
    assert!(contains_char(&chars_of("a\0b"), '\0'));
    assert!(!contains_char(&chars_of("ab"), '\0'));
    assert!(!contains_char(&chars_of(""), 'a'));
}

#[test]
fn digits() {
    assert!(char_is_digit('0'));
    assert!(char_is_digit('9'));
    assert!(!char_is_digit('/'));
    assert!(!char_is_digit(':'));
    assert!(!char_is_digit('a'));
    assert!(!char_is_digit('\u{660}'));
}

#[test]
fn decimals() {
    for n in [0u64, 1, 9, 10, 11, 99, 100, 4711, 1_000_000, u64::MAX] {
        let mut out = chars_of("n=");
        push_decimal(&mut out, n);
        assert_eq!(string_of(&out), format!("n={}", n));
    }
    for n in [0i32, 1, -1, 10, -10, 255, i32::MAX, i32::MIN] {
        let mut out = Vec::new();
        push_signed_decimal(&mut out, n);
        assert_eq!(string_of(&out), format!("{}", n));
    }
}

#[test]
fn appending() {
    let mut out = chars_of("a");
    push_str_chars(&mut out, "bc");
    push_chars(&mut out, &chars_of("de"));
    push_str_chars(&mut out, "");
    assert_eq!(string_of(&out), "abcde");
}
