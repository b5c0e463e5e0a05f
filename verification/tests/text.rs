use sat_core::text::{decimal_digit, decimal_string, push_decimal, push_signed_decimal, str_eq, white_space};

#[test]
fn decimal_text_of_numbers() {
    assert_eq!(decimal_string(0), "0");
    assert_eq!(decimal_string(7), "7");
    assert_eq!(decimal_string(10), "10");
    assert_eq!(decimal_string(1234567890), "1234567890");
    assert_eq!(decimal_string(u64::MAX), "18446744073709551615");
}

#[test]
fn decimal_text_is_appended() {
    let mut s = String::from("n=");
    push_decimal(&mut s, 305);
    assert_eq!(s, "n=305");
}

#[test]
fn signed_decimal_text() {
    let mut s = String::new();
    push_signed_decimal(&mut s, -42);
    s.push(' ');
    push_signed_decimal(&mut s, 0);
    s.push(' ');
    push_signed_decimal(&mut s, i64::MIN);
    s.push(' ');
    push_signed_decimal(&mut s, i64::MAX);
    assert_eq!(s, "-42 0 -9223372036854775808 9223372036854775807");
}

#[test]
fn strings_compare_by_characters() {
    assert!(str_eq("", ""));
    assert!(str_eq("abc", "abc"));
    assert!(!str_eq("abc", "abd"));
    assert!(!str_eq("ab", "abc"));
    assert!(str_eq("héllo", "héllo"));
}

#[test]
fn white_space_is_unicode_white_space() {
    for c in [' ', '\t', '\n', '\r', '\u{b}', '\u{c}', '\u{85}', '\u{a0}', '\u{2003}', '\u{3000}'] {
        assert!(white_space(c), "{:?}", c);
    }
    for c in ['a', '0', '_', '\u{200b}'] {
        assert!(!white_space(c), "{:?}", c);
    }
}

#[test]
fn decimal_digits_are_unicode_digits() {
    for c in ['0', '9', '\u{663}', '\u{967}', '\u{ff15}'] {
        assert!(decimal_digit(c), "{:?}", c);
    }
    for c in ['a', '.', ' ', '\u{b2}'] {
        assert!(!decimal_digit(c), "{:?}", c);
    }
}
