//! Extraction of embedded images from ZIP-based documents (DOCX, EPUB):
//! safe enumeration of archive entries, classification by extension or
//! MIME type, and deterministic, collision-free output names.

pub mod document;
pub mod docx;
pub mod epub;
pub mod error;
pub mod extensions;
pub mod extraction;
pub mod output_path;
pub mod path_safety;
pub mod sanitize;
pub mod text;
