use paper2voice::numbers::{to_decimal, to_four_digits};
use paper2voice::text::{
    char_count, is_whitespace, same_text, slice_text, split_whitespace, to_chars, trim,
};

#[test]
fn white_space_is_that_of_std() {
    for code in 0..=0x10ffffu32 {
        if let Some(c) = char::from_u32(code) {
            assert_eq!(is_whitespace(c), c.is_whitespace(), "{:x}", code);
        }
    }
}

#[test]
fn trims_like_std() {
    for s in ["", " ", "a", " a ", "\u{3000}a b\u{a0}", "\n\n", "a\u{200b} "] {
        assert_eq!(trim(s), s.trim());
        let words: Vec<&str> = s.split_whitespace().collect();
        assert_eq!(split_whitespace(s), words);
    }
}

#[test]
fn texts_are_taken_apart_by_character() {
    let chars = to_chars("héllo");
    assert_eq!(chars.len(), 5);
    assert_eq!(slice_text(&chars, 1, 3), "él");
    assert_eq!(char_count("héllo"), 5);
    assert!(same_text("a", "a"));
    assert!(!same_text("a", "A"));
}

#[test]
fn numbers_are_written_like_std_writes_them() {
    for n in [0, 1, 9, 10, 42, 999, 1000, 9999, 10000, 123456789, u64::MAX] {
        assert_eq!(to_decimal(n), n.to_string());
        assert_eq!(to_four_digits(n), format!("{:04}", n));
    }
}
