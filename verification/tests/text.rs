use doc_image_extractor::text::{
    char_is_control, char_is_whitespace, chars_of, contains_text, push_decimal, push_text,
    same_text, string_of_range, trim, trim_bounds,
};

#[test]
fn whitespace_is_what_the_standard_library_calls_whitespace() {
    for code in 0..=0x10ffffu32 {
        if let Some(c) = char::from_u32(code) {
            assert_eq!(char_is_whitespace(c), c.is_whitespace(), "U+{:04X}", code);
        }
    }
}

#[test]
fn control_is_what_the_standard_library_calls_control() {
    for code in 0..=0x10ffffu32 {
        if let Some(c) = char::from_u32(code) {
            assert_eq!(char_is_control(c), c.is_control(), "U+{:04X}", code);
        }
    }
}

#[test]
fn trim_agrees_with_the_standard_library() {
    for s in [
        "",
        " ",
        "a",
        "  a b  ",
        "\t\n x \r\n",
        "\u{a0}x\u{2003}",
        "\u{3000}\u{85}",
        "x\u{200b}",
        " \u{feff}x ",
        "no-space",
    ] {
        assert_eq!(trim(s), s.trim(), "{:?}", s);
    }
}

#[test]
fn trim_bounds_cut_the_whitespace_off() {
    let v: Vec<char> = "  ab c ".chars().collect();
    assert_eq!(trim_bounds(&v), (2, 6));
    let v: Vec<char> = "   ".chars().collect();
    assert_eq!(trim_bounds(&v), (3, 3));
    let v: Vec<char> = Vec::new();
    assert_eq!(trim_bounds(&v), (0, 0));
}

#[test]
fn chars_and_strings_round_trip() {
    let v = chars_of("héllo, wörld");
    assert_eq!(v.len(), 12);
    assert_eq!(v[1], 'é');
    assert_eq!(string_of_range(&v, 0, 12), "héllo, wörld");
    assert_eq!(string_of_range(&v, 7, 12), "wörld");
    assert_eq!(string_of_range(&v, 3, 3), "");
}

#[test]
fn decimal_digits() {
    for (n, text) in [
        (0u128, "0"),
        (7, "7"),
        (10, "10"),
        (42, "42"),
        (1000, "1000"),
        (9_876_543_210, "9876543210"),
        (u128::MAX, "340282366920938463463374607431768211455"),
    ] {
        let mut out = String::from("n=");
        push_decimal(&mut out, n);
        assert_eq!(out, format!("n={}", text));
    }
}

#[test]
fn texts_are_appended_and_compared() {
    let mut out = String::from("ab");
    push_text(&mut out, "cd");
    push_text(&mut out, "");
    assert_eq!(out, "abcd");
    assert!(same_text("abc", "abc"));
    assert!(!same_text("abc", "abd"));
    assert!(!same_text("abc", "ab"));
    assert!(same_text("", ""));
}

#[test]
fn substring_search() {
    assert!(contains_text("the shining", "shin"));
    assert!(contains_text("the shining", "the"));
    assert!(contains_text("the shining", "ing"));
    assert!(contains_text("the shining", ""));
    assert!(contains_text("", ""));
    assert!(!contains_text("", "a"));
    assert!(!contains_text("the shining", "shine"));
    assert!(!contains_text("abc", "abcd"));
    assert!(contains_text("aab", "ab"));
    assert!(contains_text("ababac", "abac"));
}
