use zeta::text::{char_count_exceeds, char_is_white_space, is_blank};

#[test]
fn white_space_agrees_with_std_on_every_char() {
    for u in 0u32..=0x10FFFF {
        if let Some(c) = char::from_u32(u) {
            assert_eq!(char_is_white_space(c), c.is_whitespace(), "U+{:04X}", u);
        }
    }
}

#[test]
fn blank_and_char_counts() {
    assert!(is_blank(""));
    assert!(is_blank(" \u{3000}\u{85}"));
    assert!(!is_blank(" x "));
    assert!(!char_count_exceeds(&"é".repeat(3), 3));
    assert!(char_count_exceeds(&"é".repeat(4), 3));
}
