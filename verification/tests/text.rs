use cross_platform_clipboard::text::{
    chars_of, contains_chars, is_whitespace, replace_char_with, string_of, strip_chars, trim,
    to_ascii_lowered,
};

#[test]
fn trim_drops_unicode_white_space_at_both_ends() {
    assert_eq!(trim("  texte utile  "), "texte utile");
    assert_eq!(trim("   \n\t"), "");
    assert_eq!(trim("\u{3000}\u{a0}a b\u{2029}"), "a b");
    assert_eq!(trim("plain"), "plain");
}

#[test]
fn whitespace_matches_std() {
    for code in 0u32..0x3100 {
        if let Some(c) = char::from_u32(code) {
            assert_eq!(is_whitespace(c), c.is_whitespace(), "{code:#x}");
        }
    }
}

#[test]
fn contains_finds_a_pattern() {
    let s = chars_of("ubuntu:GNOME");
    assert!(contains_chars(&to_ascii_lowered(&s), &chars_of("gnome")));
    assert!(!contains_chars(&s, &chars_of("gnome")));
    assert!(contains_chars(&s, &chars_of("")));
}

#[test]
fn replace_and_strip() {
    let replaced = replace_char_with(&chars_of("a\"b\""), '"', &chars_of("\\\""));
    assert_eq!(string_of(&replaced), "a\\\"b\\\"");
    let stripped = strip_chars(&chars_of("[[a, b]]"), '[', ']');
    assert_eq!(string_of(&stripped), "a, b");
}
