//! The kinds of document that images can be extracted from.

use vstd::prelude::*;
use crate::error::ExtractError;
use crate::extensions::{
    extension_from_name, has_extension, is_extension_dot, lemma_extension_dot_unique,
    name_extension,
};
use crate::path_safety::{char_is_separator, is_separator};
use crate::text::{chars_of, same_text, string_of_range};

verus! {

/// A supported kind of document.
#[derive(Debug, Clone, Copy, PartialEq, Eq, Structural)]
pub enum DocumentType {
    Docx,
    Epub,
}

/// The kind of document that a lowercase extension stands for.
pub open spec fn document_type_for(extension: Seq<char>) -> Option<DocumentType> {
    if extension == "docx"@ {
        Some(DocumentType::Docx)
    } else if extension == "epub"@ {
        Some(DocumentType::Epub)
    } else {
        None
    }
}

/// The kind of document that a path names, judged by its extension
/// without regard to case.
pub open spec fn document_type_of(path: Seq<char>) -> Option<DocumentType> {
    match name_extension(path) {
        Some(e) => document_type_for(e),
        None => None,
    }
}

/// The kind of document that the extension `extension`, given in
/// lowercase, stands for.
pub fn document_type_for_extension(extension: &str) -> (kind: Option<DocumentType>)
    ensures
        kind == document_type_for(extension@),
{
    if same_text(extension, "docx") {
        Some(DocumentType::Docx)
    } else if same_text(extension, "epub") {
        Some(DocumentType::Epub)
    } else {
        None
    }
}

/// The kind of document that `path` names, or `None` where its extension
/// is neither `docx` nor `epub`.
pub fn get_document_type(path: &str) -> (kind: Option<DocumentType>)
    ensures
        kind == document_type_of(path@),
{
    match extension_from_name(path) {
        Some(extension) => document_type_for_extension(extension.as_str()),
        None => None,
    }
}

/// Whether `path` names a supported kind of document.
pub fn is_supported_document(path: &str) -> (supported: bool)
    ensures
        supported == document_type_of(path@).is_some(),
{
    get_document_type(path).is_some()
}

/// The kind of document that `path` names; `InvalidInput` where it is not
/// a supported kind.
pub fn supported_document_type(path: &str) -> (r: Result<DocumentType, ExtractError>)
    ensures
        match document_type_of(path@) {
            Some(kind) => r == Ok::<DocumentType, ExtractError>(kind),
            None => r == Err::<DocumentType, ExtractError>(ExtractError::InvalidInput),
        },
{
    match get_document_type(path) {
        Some(kind) => Ok(kind),
        None => Err(ExtractError::InvalidInput),
    }
}

/// The last segment of `path` starts at position `k`: no separator
/// follows, and one precedes unless `k` is the start of the path.
pub open spec fn is_segment_start(path: Seq<char>, k: int) -> bool {
    &&& 0 <= k <= path.len()
    &&& (k == 0 || is_separator(path[k - 1]))
    &&& forall|j: int| k <= j < path.len() ==> !is_separator(#[trigger] path[j])
}

/// The stem of the file that `path` names: its last segment, without the
/// extension and the dot before it.
pub open spec fn file_stem(path: Seq<char>) -> Seq<char> {
    let start = choose|k: int| is_segment_start(path, k);
    let end = if has_extension(path) {
        choose|k: int| is_extension_dot(path, k)
    } else {
        path.len() as int
    };
    path.subrange(start, end)
}

/// A path has exactly one place where its last segment starts.
pub proof fn lemma_segment_start_unique(path: Seq<char>, k1: int, k2: int)
    requires
        is_segment_start(path, k1),
        is_segment_start(path, k2),
    ensures
        k1 == k2,
{
    if k1 < k2 {
        assert(is_separator(path[k2 - 1]));
    } else if k2 < k1 {
        assert(is_separator(path[k1 - 1]));
    }
}

/// The name under which a document's images are written where nothing
/// else names them: the stem of the document's file name. A path whose
/// file name has no stem gives `InvalidInput`.
pub fn document_stem(path: &str) -> (r: Result<String, ExtractError>)
    ensures
        match r {
            Ok(stem) => stem@ == file_stem(path@) && stem@.len() > 0,
            Err(e) => e == ExtractError::InvalidInput && file_stem(path@).len() == 0,
        },
{
    let v = chars_of(path);
    let n: usize = v.len();
    let mut end: usize = n;
    let mut dotted: bool = false;
    let mut start: usize = n;
    while start > 0 && !char_is_separator(v[start - 1])
        invariant
            start <= end <= n,
            n == v.len(),
            v@ == path@,
            forall|j: int| start <= j < n ==> !is_separator(#[trigger] v@[j]),
            dotted ==> end < n && v@[end as int] == '.',
            dotted ==> forall|j: int| end < j < n ==> (#[trigger] v@[j]) != '.',
            !dotted ==> end == n,
            !dotted ==> forall|j: int| start <= j < n ==> (#[trigger] v@[j]) != '.',
        decreases start,
    {
        if !dotted && v[start - 1] == '.' {
            end = start - 1;
            dotted = true;
        }
        start -= 1;
    }
    proof {
        assert(is_segment_start(path@, start as int));
        lemma_segment_start_unique(
            path@,
            start as int,
            choose|k: int| is_segment_start(path@, k),
        );
        if dotted {
            assert(is_extension_dot(path@, end as int));
            lemma_extension_dot_unique(
                path@,
                end as int,
                choose|k: int| is_extension_dot(path@, k),
            );
        } else {
            assert forall|k: int| !is_extension_dot(path@, k) by {
                if is_extension_dot(path@, k) {
                    if k < start {
                        assert(start > 0);
                        assert(is_separator(path@[start - 1]));
                    }
                }
            }
        }
    }
    if start == end {
        Err(ExtractError::InvalidInput)
    } else {
        Ok(string_of_range(&v, start, end))
    }
}

/// What a run over several documents has extracted so far.
#[derive(Debug, Clone, Copy, PartialEq, Eq, Structural)]
pub struct RunSummary {
    /// The number of images written.
    pub images: usize,
    /// The number of documents that yielded at least one image.
    pub documents: usize,
}

impl RunSummary {
    /// The summary of a run that has not seen a document yet.
    pub fn new() -> (summary: RunSummary)
        ensures
            summary.images == 0,
            summary.documents == 0,
    {
        RunSummary { images: 0, documents: 0 }
    }

    /// Adds a document from which `count` images were written. A document
    /// without images adds nothing.
    pub fn record(&mut self, count: usize)
        requires
            old(self).images + count <= usize::MAX,
            old(self).documents < usize::MAX,
        ensures
            final(self).images == old(self).images + count,
            final(self).documents == old(self).documents + if count > 0 {
                1int
            } else {
                0int
            },
    {
        self.images = self.images + count;
        if count > 0 {
            self.documents = self.documents + 1;
        }
    }

    /// Whether the run has written any image.
    pub fn found_images(&self) -> (found: bool)
        ensures
            found == (self.images > 0),
    {
        self.images > 0
    }
}

} // verus!
