use doc_image_extractor::epub::format_epub_base_name;
use doc_image_extractor::sanitize::sanitize_filename;

#[test]
fn test_sanitize_filename() {
    assert_eq!(sanitize_filename("Normal Name"), "Normal Name");
    assert_eq!(
        sanitize_filename("File/With\\Bad:Chars"),
        "File_With_Bad_Chars"
    );
    assert_eq!(sanitize_filename("Test*?\"<>|"), "Test______"); // 6 special chars
    assert_eq!(sanitize_filename("  Trimmed  "), "Trimmed");
}

#[test]
fn test_format_epub_base_name_both() {
    let result = format_epub_base_name(Some("Stephen King"), Some("The Shining"), "fallback");
    assert_eq!(result, "Stephen King - The Shining");
}

#[test]
fn test_format_epub_base_name_title_only() {
    let result = format_epub_base_name(None, Some("The Shining"), "fallback");
    assert_eq!(result, "The Shining");
}

#[test]
fn test_format_epub_base_name_author_only() {
    let result = format_epub_base_name(Some("Stephen King"), None, "fallback");
    assert_eq!(result, "Stephen King");
}

#[test]
fn test_format_epub_base_name_neither() {
    let result = format_epub_base_name(None, None, "fallback");
    assert_eq!(result, "fallback");
}

#[test]
fn test_format_epub_base_name_empty_strings() {
    let result = format_epub_base_name(Some("  "), Some(""), "fallback");
    assert_eq!(result, "fallback");
}

#[test]
fn test_format_epub_base_name_sanitizes() {
    let result = format_epub_base_name(Some("Author/Name"), Some("Title:Subtitle"), "fallback");
    assert_eq!(result, "Author_Name - Title_Subtitle");
}

#[test]
fn sanitize_replaces_each_reserved_character_by_one_underscore() {
    assert_eq!(sanitize_filename("a/b\\c:d*e?f\"g<h>i|j"), "a_b_c_d_e_f_g_h_i_j");
    assert_eq!(sanitize_filename("a\0b"), "a_b");
    assert_eq!(sanitize_filename("///"), "___");
}

#[test]
fn sanitize_replaces_control_characters() {
    assert_eq!(sanitize_filename("a\tb\nc"), "a_b_c");
    assert_eq!(sanitize_filename("a\u{7f}b\u{9f}c"), "a_b_c");
    assert_eq!(sanitize_filename("\ttab first"), "_tab first");
}

#[test]
fn sanitize_trims_after_substitution() {
    assert_eq!(sanitize_filename("  \u{a0}name\u{3000} "), "name");
    assert_eq!(sanitize_filename("   "), "");
    assert_eq!(sanitize_filename(""), "");
    assert_eq!(sanitize_filename(" a b "), "a b");
    assert_eq!(sanitize_filename(" \n "), "_");
}

#[test]
fn sanitize_is_idempotent() {
    for s in [
        "Normal Name",
        "  File/With\\Bad:Chars  ",
        " \n x \t ",
        "Test*?\"<>|",
        "",
        "   ",
        "\u{85}a\u{2028}",
    ] {
        let once = sanitize_filename(s);
        assert_eq!(sanitize_filename(&once), once);
    }
}

#[test]
fn base_name_trims_its_fields() {
    let result = format_epub_base_name(Some("  Stephen King "), Some(" The Shining\n"), "fallback");
    assert_eq!(result, "Stephen King - The Shining");
    let result = format_epub_base_name(Some(""), Some("  "), "fb");
    assert_eq!(result, "fb");
    let result = format_epub_base_name(None, None, " a/b ");
    assert_eq!(result, "a_b");
}
