use smbn::text::{decimal_string, trimmed};

#[test]
fn white_space_matches_the_standard_library() {
    for code in 0u32..=0x10FFFF {
        let Some(c) = char::from_u32(code) else { continue };
        let alone = c.to_string();
        assert_eq!(trimmed(&alone).is_empty(), c.is_whitespace(), "U+{code:04X}");
    }
}

#[test]
fn trimming_keeps_inner_space() {
    let text = " \t a b \u{3000}\r\n";
    let expected: Vec<char> = text.trim().chars().collect();
    assert_eq!(trimmed(text), expected);
}

#[test]
fn decimal_strings() {
    assert_eq!(decimal_string(0), "0");
    assert_eq!(decimal_string(445), "445");
    assert_eq!(decimal_string(u64::MAX), "18446744073709551615");
}
