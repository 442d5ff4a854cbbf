use doc_image_extractor::document::{
    document_stem, document_type_for_extension, get_document_type, is_supported_document,
    supported_document_type, DocumentType, RunSummary,
};
use doc_image_extractor::error::ExtractError;
use doc_image_extractor::extensions::{
    allowed_extensions, extension_as_written, extension_from_name, get_supported_extensions,
    mime_to_extension, normalize_token, ExtensionSet,
};

#[test]
fn supported_extensions_are_the_twelve() {
    let exts = get_supported_extensions();
    for e in [
        "jpg", "jpeg", "png", "gif", "bmp", "tiff", "tif", "svg", "wmf", "emf", "webp", "ico",
    ] {
        assert!(exts.contains(e));
    }
    assert!(!exts.contains("JPG"));
    assert!(!exts.contains(""));
    assert!(!exts.contains("xml"));
    assert!(!exts.is_empty());
}

#[test]
fn extension_set_insert_and_contains() {
    let mut set = ExtensionSet::new();
    assert!(set.is_empty());
    assert!(!set.contains("png"));
    set.insert("png");
    assert!(set.contains("png"));
    assert!(!set.contains("jpg"));
    assert!(!set.is_empty());
    let copy = set.duplicate();
    assert!(copy.contains("png"));
    assert!(!copy.contains("jpg"));
}

#[test]
fn normalize_token_is_exact_about_case() {
    assert_eq!(normalize_token("jpg"), vec!["jpg", "jpeg"]);
    assert!(normalize_token("JPG").is_empty());
    assert!(normalize_token(" jpg").is_empty());
}

#[test]
fn mime_table() {
    assert_eq!(mime_to_extension("image/bmp"), Some("bmp".to_string()));
    assert_eq!(mime_to_extension("image/webp"), Some("webp".to_string()));
    assert_eq!(mime_to_extension("image/svg+xml"), Some("svg".to_string()));
    assert_eq!(mime_to_extension("image/tiff"), Some("tiff".to_string()));
    assert_eq!(mime_to_extension("image/x-icon"), Some("ico".to_string()));
    assert_eq!(mime_to_extension("image/vnd.microsoft.icon"), Some("ico".to_string()));
    assert_eq!(mime_to_extension("image/x-emf"), Some("emf".to_string()));
    assert_eq!(mime_to_extension("image/emf"), Some("emf".to_string()));
    assert_eq!(mime_to_extension("image/x-wmf"), Some("wmf".to_string()));
    assert_eq!(mime_to_extension("image/wmf"), Some("wmf".to_string()));
    assert_eq!(mime_to_extension("IMAGE/PNG"), None);
    assert_eq!(mime_to_extension("text/html"), None);
    assert_eq!(mime_to_extension(""), None);
}

#[test]
fn extension_is_what_follows_the_last_dot() {
    assert_eq!(extension_from_name("word/media/image1.PNG"), Some("png".to_string()));
    assert_eq!(extension_from_name("archive.tar.GZ"), Some("gz".to_string()));
    assert_eq!(extension_from_name("name."), Some("".to_string()));
    assert_eq!(extension_from_name(".png"), Some("png".to_string()));
    assert_eq!(extension_as_written("a/b.JpEg"), Some("JpEg".to_string()));
}

#[test]
fn extension_is_sought_in_the_last_segment_only() {
    assert_eq!(extension_from_name("word/document"), None);
    assert_eq!(extension_from_name("dir.d/file"), None);
    assert_eq!(extension_from_name("dir.d\\file"), None);
    assert_eq!(extension_from_name("dir.png/"), None);
    assert_eq!(extension_from_name(""), None);
}

#[test]
fn allowed_extensions_follow_the_filter() {
    let none: Vec<String> = Vec::new();
    let all = allowed_extensions(&none);
    assert!(all.contains("png") && all.contains("ico") && all.contains("jpeg"));

    let jpg = allowed_extensions(&vec!["JPG".to_string()]);
    assert!(jpg.contains("jpg") && jpg.contains("jpeg"));
    assert!(!jpg.contains("png"));

    let jpeg = allowed_extensions(&vec!["jpeg".to_string()]);
    assert!(jpeg.contains("jpg") && jpeg.contains("jpeg"));
    assert!(!jpeg.contains("tif"));

    let two = allowed_extensions(&vec![" png ".to_string(), "bogus".to_string(), "tif".to_string()]);
    assert!(two.contains("png") && two.contains("tif") && two.contains("tiff"));
    assert!(!two.contains("jpg") && !two.contains("bogus"));

    let bogus = allowed_extensions(&vec!["bogus".to_string()]);
    assert!(bogus.contains("png") && bogus.contains("jpg") && bogus.contains("webp"));
    assert!(!bogus.contains("bogus"));
}

#[test]
fn document_types() {
    assert_eq!(get_document_type("report.docx"), Some(DocumentType::Docx));
    assert_eq!(get_document_type("/books/The Shining.EPUB"), Some(DocumentType::Epub));
    assert_eq!(get_document_type("notes.txt"), None);
    assert_eq!(get_document_type("docx"), None);
    assert_eq!(get_document_type("a.docx/b"), None);
    assert!(is_supported_document("a.Docx"));
    assert!(!is_supported_document("a.doc"));
    assert_eq!(supported_document_type("a.epub"), Ok(DocumentType::Epub));
    assert_eq!(supported_document_type("a.pdf"), Err(ExtractError::InvalidInput));
}

#[test]
fn run_summary_counts_documents_with_images() {
    let mut summary = RunSummary::new();
    assert!(!summary.found_images());
    summary.record(0);
    assert_eq!(summary, RunSummary { images: 0, documents: 0 });
    summary.record(3);
    summary.record(0);
    summary.record(1);
    assert_eq!(summary, RunSummary { images: 4, documents: 2 });
    assert!(summary.found_images());
}

#[test]
fn document_stem_is_the_file_name_without_its_extension() {
    assert_eq!(document_stem("report.docx"), Ok("report".to_string()));
    assert_eq!(document_stem("/books/The Shining.epub"), Ok("The Shining".to_string()));
    assert_eq!(document_stem("dir\\a.b.docx"), Ok("a.b".to_string()));
    assert_eq!(document_stem("dir.d/plain"), Ok("plain".to_string()));
    assert_eq!(document_stem("trailing."), Ok("trailing".to_string()));
}

#[test]
fn path_without_a_stem_is_invalid_input() {
    assert_eq!(document_stem(""), Err(ExtractError::InvalidInput));
    assert_eq!(document_stem("books/"), Err(ExtractError::InvalidInput));
    assert_eq!(document_stem(".docx"), Err(ExtractError::InvalidInput));
    assert_eq!(document_stem("books/.epub"), Err(ExtractError::InvalidInput));
}

#[test]
fn document_type_of_an_extension() {
    assert_eq!(document_type_for_extension("docx"), Some(DocumentType::Docx));
    assert_eq!(document_type_for_extension("epub"), Some(DocumentType::Epub));
    assert_eq!(document_type_for_extension("DOCX"), None);
    assert_eq!(document_type_for_extension(""), None);
}
