use doc_image_extractor::docx::{classify_entry, images_among, process_file, DocxArchive};
use doc_image_extractor::error::ExtractError;
use doc_image_extractor::extensions::{allowed_extensions, get_supported_extensions};
use doc_image_extractor::extraction::{Action, Extraction, ImageSource, Reply};
use std::collections::BTreeMap;
use std::io::{Cursor, Write};
use zip::write::SimpleFileOptions;
use zip::{CompressionMethod, ZipArchive, ZipWriter};

fn archive_of(entries: &[(&str, &[u8])], method: CompressionMethod) -> Vec<u8> {
    let mut writer = ZipWriter::new(Cursor::new(Vec::new()));
    let options = SimpleFileOptions::default().compression_method(method);
    for (name, data) in entries {
        writer.start_file(*name, options).unwrap();
        writer.write_all(data).unwrap();
    }
    writer.finish().unwrap().into_inner()
}

struct OutputDir {
    created: bool,
    files: BTreeMap<String, Vec<u8>>,
    probes: Vec<String>,
}

impl OutputDir {
    fn absent() -> OutputDir {
        OutputDir { created: false, files: BTreeMap::new(), probes: Vec::new() }
    }

    fn holding(names: &[&str]) -> OutputDir {
        let mut dir = OutputDir::absent();
        dir.created = true;
        for name in names {
            dir.files.insert(name.to_string(), b"old".to_vec());
        }
        dir
    }
}

fn run(
    mut extraction: Extraction,
    archive: &mut DocxArchive,
    dir: &mut OutputDir,
) -> Result<usize, ExtractError> {
    loop {
        let reply = match extraction.action() {
            Action::ReadCover => panic!("a DOCX has no cover"),
            Action::CreateOutputDir => {
                dir.created = true;
                Reply::Done
            }
            Action::ProbePath { file_name } => {
                dir.probes.push(file_name.clone());
                Reply::Exists(dir.files.contains_key(&file_name))
            }
            Action::ExtractImage { source, file_name } => {
                let index = match source {
                    ImageSource::Entry(index) => index,
                    other => panic!("unexpected source {:?}", other),
                };
                match archive.read_entry(index) {
                    Ok(data) => {
                        assert!(dir.created);
                        assert!(!dir.files.contains_key(&file_name));
                        dir.files.insert(file_name, data);
                        Reply::Done
                    }
                    Err(error) => match error {
                        ExtractError::ArchiveError { cause } => Reply::ReadFailed { cause },
                        other => panic!("unexpected error {:?}", other),
                    },
                }
            }
            Action::Finished { count } => return Ok(count),
            Action::Failed { error } => return Err(error),
        };
        extraction = extraction.resume(reply);
    }
}

fn extract(
    bytes: Vec<u8>,
    doc_name: &str,
    formats: &[&str],
    dir: &mut OutputDir,
) -> Result<usize, ExtractError> {
    let formats: Vec<String> = formats.iter().map(|s| s.to_string()).collect();
    let allowed = allowed_extensions(&formats);
    let mut archive = DocxArchive::open(bytes)?;
    let extraction = process_file(&mut archive, doc_name, &allowed)?;
    run(extraction, &mut archive, dir)
}

#[test]
fn docx_images_are_extracted_in_storage_order() {
    let bytes = archive_of(
        &[
            ("word/media/image1.png", b"png bytes"),
            ("word/document.xml", b"<w:document/>"),
            ("word/media/image2.jpg", b"jpg bytes"),
        ],
        CompressionMethod::Stored,
    );
    let mut dir = OutputDir::absent();
    let count = extract(bytes, "report", &[], &mut dir);
    assert_eq!(count, Ok(2));
    assert!(dir.created);
    let names: Vec<&String> = dir.files.keys().collect();
    assert_eq!(names, vec!["report_1.png", "report_2.jpg"]);
    assert_eq!(dir.files["report_1.png"], b"png bytes");
    assert_eq!(dir.files["report_2.jpg"], b"jpg bytes");
    assert_eq!(dir.probes, vec!["report_1.png", "report_2.jpg"]);
}

#[test]
fn docx_deflated_entries_are_read_back() {
    let image: Vec<u8> = (0..20000u32).map(|i| (i % 7) as u8).collect();
    let bytes = archive_of(&[("word/media/image1.PNG", &image)], CompressionMethod::Deflated);
    assert!(bytes.len() < image.len());
    let mut dir = OutputDir::absent();
    assert_eq!(extract(bytes, "doc", &[], &mut dir), Ok(1));
    assert_eq!(dir.files["doc.png"], image);
}

#[test]
fn opened_archive_is_handed_on() {
    let bytes = archive_of(&[("a.png", b"first")], CompressionMethod::Stored);
    let mut archive = DocxArchive::opened(ZipArchive::new(Cursor::new(bytes))).unwrap();
    assert_eq!(archive.len(), 1);
    assert_eq!(archive.all_entry_names(), Ok(vec!["a.png".to_string()]));
}

#[test]
fn images_among_names() {
    let names: Vec<String> =
        ["a.png", "../b.png", "c.txt", "d/e.JPG", "/f.gif", "g"].iter().map(|s| s.to_string()).collect();
    let images = images_among(&names, &get_supported_extensions());
    let got: Vec<(usize, String)> =
        images.into_iter().map(|image| (image.index, image.extension)).collect();
    assert_eq!(got, vec![(0, "png".to_string()), (3, "jpg".to_string())]);
}

#[test]
fn docx_archive_reports_its_entries() {
    let bytes = archive_of(
        &[("a.png", b"first"), ("b/c.txt", b"second")],
        CompressionMethod::Stored,
    );
    let mut archive = DocxArchive::open(bytes).unwrap();
    assert_eq!(archive.len(), 2);
    assert_eq!(archive.entry_name(0), Ok("a.png".to_string()));
    assert_eq!(archive.entry_name(1), Ok("b/c.txt".to_string()));
    assert!(matches!(archive.entry_name(2), Err(ExtractError::ArchiveError { .. })));
    assert_eq!(archive.read_entry(1), Ok(b"second".to_vec()));
    assert_eq!(archive.read_entry(0), Ok(b"first".to_vec()));
    assert!(matches!(archive.read_entry(7), Err(ExtractError::ArchiveError { .. })));
    let images = archive.enumerate(&get_supported_extensions()).unwrap();
    assert_eq!(images.len(), 1);
    assert_eq!(images[0].index, 0);
    assert_eq!(images[0].extension, "png");
}

#[test]
fn docx_without_images_leaves_the_directory_alone() {
    let bytes = archive_of(
        &[("word/document.xml", b"<w:document/>"), ("docProps/app.xml", b"<x/>")],
        CompressionMethod::Stored,
    );
    let mut dir = OutputDir::absent();
    assert_eq!(extract(bytes, "report", &[], &mut dir), Ok(0));
    assert!(!dir.created);
    assert!(dir.files.is_empty());
    assert!(dir.probes.is_empty());
}

#[test]
fn docx_unsafe_entries_are_never_extracted() {
    let bytes = archive_of(
        &[
            ("../evil.png", b"x"),
            ("/abs.png", b"x"),
            ("word/../../up.jpg", b"x"),
            ("\\back.gif", b"x"),
            ("word/media/ok.gif", b"good"),
        ],
        CompressionMethod::Stored,
    );
    let mut dir = OutputDir::absent();
    assert_eq!(extract(bytes, "doc", &[], &mut dir), Ok(1));
    let names: Vec<&String> = dir.files.keys().collect();
    assert_eq!(names, vec!["doc.gif"]);
    assert_eq!(dir.files["doc.gif"], b"good");
}

#[test]
fn docx_format_filter_selects_extensions() {
    let bytes = archive_of(
        &[
            ("word/media/image1.png", b"1"),
            ("word/media/image2.JPG", b"2"),
            ("word/media/image3.jpeg", b"3"),
            ("word/media/image4.gif", b"4"),
        ],
        CompressionMethod::Stored,
    );
    let mut dir = OutputDir::absent();
    assert_eq!(extract(bytes, "doc", &["jpg"], &mut dir), Ok(2));
    let names: Vec<&String> = dir.files.keys().collect();
    assert_eq!(names, vec!["doc_1.jpg", "doc_2.jpeg"]);
    assert_eq!(dir.files["doc_1.jpg"], b"2");
}

#[test]
fn docx_taken_names_get_counters() {
    let bytes = archive_of(
        &[("word/media/image1.png", b"new1"), ("word/media/image2.png", b"new2")],
        CompressionMethod::Stored,
    );
    let mut dir = OutputDir::holding(&["doc_1.png", "doc_1_1.png", "doc_2.jpg"]);
    assert_eq!(extract(bytes, "doc", &[], &mut dir), Ok(2));
    assert_eq!(dir.files["doc_1.png"], b"old");
    assert_eq!(dir.files["doc_1_1.png"], b"old");
    assert_eq!(dir.files["doc_1_2.png"], b"new1");
    assert_eq!(dir.files["doc_2.png"], b"new2");
    assert_eq!(dir.files.len(), 5);
    assert_eq!(dir.probes, vec!["doc_1.png", "doc_1_1.png", "doc_1_2.png", "doc_2.png"]);
}

#[test]
fn docx_name_search_is_bounded() {
    let bytes = archive_of(&[("word/media/image1.png", b"new")], CompressionMethod::Stored);
    let mut taken: Vec<String> = vec!["doc.png".to_string()];
    for k in 1..=1000 {
        taken.push(format!("doc_{}.png", k));
    }
    let taken: Vec<&str> = taken.iter().map(|s| s.as_str()).collect();
    let mut dir = OutputDir::holding(&taken);
    assert_eq!(
        extract(bytes, "doc", &[], &mut dir),
        Err(ExtractError::UniqueNameExhausted { stem: "doc".to_string(), attempts: 1000 })
    );
    assert_eq!(dir.probes.len(), 1001);
    assert_eq!(dir.probes[1000], "doc_1000.png");
    assert_eq!(dir.files.len(), 1001);
}

#[test]
fn bytes_that_are_no_archive_are_an_archive_error() {
    assert!(matches!(
        DocxArchive::open(b"not a zip".to_vec()),
        Err(ExtractError::ArchiveError { .. })
    ));
    assert!(matches!(DocxArchive::open(Vec::new()), Err(ExtractError::ArchiveError { .. })));
    let failed = ZipArchive::new(Cursor::new(b"PK".to_vec()));
    let cause = failed.as_ref().err().map(|e| e.to_string());
    match DocxArchive::opened(failed) {
        Err(ExtractError::ArchiveError { cause: text }) => assert_eq!(Some(text), cause),
        _ => panic!("an archive error was expected"),
    }
}

#[test]
fn docx_damaged_entry_fails_the_document() {
    let image: Vec<u8> = (0..64u8).collect();
    let mut bytes = archive_of(
        &[("word/media/image1.png", b"fine"), ("word/media/image2.png", &image)],
        CompressionMethod::Stored,
    );
    let at = bytes.windows(image.len()).position(|w| w == &image[..]).unwrap();
    bytes[at + 5] ^= 0xff;
    let mut dir = OutputDir::absent();
    let outcome = extract(bytes, "doc", &[], &mut dir);
    match outcome {
        Err(ExtractError::ArchiveError { cause }) => assert!(!cause.is_empty()),
        other => panic!("an archive error was expected, not {:?}", other),
    }
    let names: Vec<&String> = dir.files.keys().collect();
    assert_eq!(names, vec!["doc_1.png"]);
}

#[test]
fn classify_entry_cases() {
    let all = get_supported_extensions();
    assert_eq!(classify_entry("word/media/image1.PNG", &all), Some("png".to_string()));
    assert_eq!(classify_entry("word/document.xml", &all), None);
    assert_eq!(classify_entry("word/media/noext", &all), None);
    assert_eq!(classify_entry("../image1.png", &all), None);
    assert_eq!(classify_entry("/image1.png", &all), None);
    let png = allowed_extensions(&vec!["png".to_string()]);
    assert_eq!(classify_entry("a.jpg", &png), None);
    assert_eq!(classify_entry("a.png", &png), Some("png".to_string()));
}
