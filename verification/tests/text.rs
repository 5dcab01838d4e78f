use army_lang::text::{is_alphabetic, is_alphanumeric, is_ascii_digit, is_whitespace, push_decimal};

fn all_chars() -> impl Iterator<Item = char> {
    (0u32..=0x10FFFF).filter_map(char::from_u32)
}

#[test]
fn whitespace_agrees_with_std() {
    for c in all_chars() {
        assert_eq!(is_whitespace(c), c.is_whitespace(), "{:?}", c);
    }
}

#[test]
fn ascii_digit_agrees_with_std() {
    for c in all_chars() {
        assert_eq!(is_ascii_digit(c), c.is_ascii_digit(), "{:?}", c);
    }
}

#[test]
fn alphabetic_agrees_with_std() {
    for c in all_chars() {
        assert_eq!(is_alphabetic(c), c.is_alphabetic(), "{:?}", c);
    }
}

#[test]
fn alphanumeric_agrees_with_std() {
    for c in all_chars() {
        assert_eq!(is_alphanumeric(c), c.is_alphanumeric(), "{:?}", c);
    }
}

#[test]
fn non_ascii_classes() {
    assert!(is_alphabetic('京'));
    assert!(!is_alphabetic('💝'));
    assert!(!is_alphabetic('٣'));
    assert!(is_alphanumeric('٣'));
    assert!(is_alphanumeric('é'));
    assert!(!is_alphanumeric('€'));
}

#[test]
fn decimal_text() {
    for n in [0u64, 7, 9, 10, 42, 100, 1234567890, u64::MAX] {
        let mut s = String::from("x");
        push_decimal(&mut s, n);
        assert_eq!(s, format!("x{}", n));
    }
}
