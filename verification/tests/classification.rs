use doc_image_extractor::extensions::{
    get_supported_extensions, mime_to_extension, normalize_format,
};

#[test]
fn test_normalize_format() {
    assert_eq!(normalize_format("jpg"), vec!["jpg", "jpeg"]);
    assert_eq!(normalize_format("JPEG"), vec!["jpg", "jpeg"]);
    assert_eq!(normalize_format("png"), vec!["png"]);
    assert_eq!(normalize_format("unknown").len(), 0);
}

#[test]
fn test_get_supported_extensions() {
    let exts = get_supported_extensions();
    assert!(exts.contains("jpg"));
    assert!(exts.contains("png"));
    assert!(exts.contains("gif"));
    assert!(!exts.contains("pdf"));
}

#[test]
fn test_mime_to_extension() {
    assert_eq!(mime_to_extension("image/jpeg"), Some("jpg".to_string()));
    assert_eq!(mime_to_extension("image/png"), Some("png".to_string()));
    assert_eq!(mime_to_extension("image/gif"), Some("gif".to_string()));
    assert_eq!(mime_to_extension("image/unknown"), None);
}

#[test]
fn normalize_format_groups() {
    assert_eq!(normalize_format("JPG"), vec!["jpg", "jpeg"]);
    assert_eq!(normalize_format("jpeg"), vec!["jpg", "jpeg"]);
    assert_eq!(normalize_format("tif"), vec!["tiff", "tif"]);
    assert_eq!(normalize_format(" TIFF "), vec!["tiff", "tif"]);
    assert_eq!(normalize_format("gif"), vec!["gif"]);
    assert_eq!(normalize_format("bmp"), vec!["bmp"]);
    assert_eq!(normalize_format("svg"), vec!["svg"]);
    assert_eq!(normalize_format("wmf"), vec!["wmf"]);
    assert_eq!(normalize_format("emf"), vec!["emf"]);
    assert_eq!(normalize_format("WebP"), vec!["webp"]);
    assert_eq!(normalize_format("ico"), vec!["ico"]);
    assert!(normalize_format("bogus").is_empty());
    assert!(normalize_format("").is_empty());
}
