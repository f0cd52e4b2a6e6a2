use brush_splat::text::{chars_of, is_whitespace, join, push_decimal, same, split_commas, string_of, strip_prefix, trim};

#[test]
fn the_white_characters() {
    let mut white: Vec<u32> = vec![0x20, 0x85, 0xa0, 0x1680, 0x2028, 0x2029, 0x202f, 0x205f, 0x3000];
    white.extend(0x9..=0xd);
    white.extend(0x2000..=0x200a);
    for code in 0..=0x10_ffffu32 {
        if let Some(c) = char::from_u32(code) {
            let s = c.to_string();
            assert_eq!(trim(&s).is_empty(), white.contains(&code), "{code:x}");
            assert_eq!(is_whitespace(c), c.is_whitespace(), "{code:x}");
        }
    }
}

#[test]
fn trimming_takes_both_ends() {
    assert_eq!(trim("  a b\t\n"), "a b");
    assert_eq!(trim(""), "");
    assert_eq!(trim(" \u{3000} "), "");
    assert_eq!(trim("x"), "x");
}

#[test]
fn prefixes_are_taken_off() {
    assert_eq!(strip_prefix("vertical axis: x", "vertical axis: "), Some("x".to_string()));
    assert_eq!(strip_prefix("abc", "abc"), Some(String::new()));
    assert_eq!(strip_prefix("ab", "abc"), None);
    assert_eq!(strip_prefix("xbc", "a"), None);
    assert!(same("red", "red"));
    assert!(!same("red", "reds"));
    assert!(!same("reds", "red"));
}

#[test]
fn commas_split_fields() {
    assert_eq!(split_commas("a,,b"), vec!["a", "", "b"]);
    assert_eq!(split_commas(""), vec![""]);
    assert_eq!(split_commas(","), vec!["", ""]);
}

#[test]
fn numerals_and_joins() {
    let mut s = String::from("n=");
    push_decimal(&mut s, u64::MAX);
    assert_eq!(s, "n=18446744073709551615");
    let mut s = String::new();
    push_decimal(&mut s, 0);
    assert_eq!(s, "0");
    let parts = vec!["a".to_string(), "b".to_string(), "c".to_string()];
    assert_eq!(join(&parts, " · "), "a · b · c");
    assert_eq!(join(&Vec::new(), ", "), "");
    let chars = chars_of("päckchen");
    assert_eq!(chars.len(), 8);
    assert_eq!(string_of(&chars, 1, 4), "äck");
}
