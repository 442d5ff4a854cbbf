use doc_image_extractor::path_safety::is_safe_archive_path;

#[test]
fn plain_relative_names_are_safe() {
    assert!(is_safe_archive_path("word/media/image1.png"));
    assert!(is_safe_archive_path("image.png"));
    assert!(is_safe_archive_path("OEBPS\\Images\\cover.jpg"));
    assert!(is_safe_archive_path(""));
}

#[test]
fn traversal_segments_are_unsafe() {
    assert!(!is_safe_archive_path("../evil.png"));
    assert!(!is_safe_archive_path("word/../../evil.png"));
    assert!(!is_safe_archive_path("word/media/.."));
    assert!(!is_safe_archive_path(".."));
    assert!(!is_safe_archive_path("word\\..\\evil.png"));
    assert!(!is_safe_archive_path("a/..\\b.png"));
}

#[test]
fn absolute_names_are_unsafe() {
    assert!(!is_safe_archive_path("/etc/passwd"));
    assert!(!is_safe_archive_path("\\windows\\system.ico"));
    assert!(!is_safe_archive_path("/"));
}

#[test]
fn dots_inside_a_segment_are_no_traversal() {
    assert!(is_safe_archive_path("word/media/photo..final.png"));
    assert!(is_safe_archive_path("a/.../b.png"));
    assert!(is_safe_archive_path("./a.png"));
    assert!(is_safe_archive_path("a/..b/c.png"));
    assert!(is_safe_archive_path("a/b../c.png"));
}
