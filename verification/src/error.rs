//! The ways in which the extraction of one document can fail.

use vstd::prelude::*;

verus! {

/// Why the extraction of a document stopped. Each error ends the work on
/// that document only.
#[derive(Debug, PartialEq, Eq)]
pub enum ExtractError {
    /// The input has no usable file name, or is not a supported kind of
    /// document.
    InvalidInput,
    /// The container could not be opened, or one of its entries could not
    /// be read; `cause` says what went wrong underneath.
    ArchiveError { cause: String },
    /// No free output name was found for `stem` within `attempts` numbered
    /// alternatives.
    UniqueNameExhausted { stem: String, attempts: u32 },
    /// The output directory could not be created, or a file could not be
    /// written; `cause` says what went wrong underneath.
    FilesystemError { cause: String },
}

/// An error as contracts speak of it.
pub enum ErrorView {
    InvalidInput,
    ArchiveError { cause: Seq<char> },
    UniqueNameExhausted { stem: Seq<char>, attempts: nat },
    FilesystemError { cause: Seq<char> },
}

impl View for ExtractError {
    type V = ErrorView;

    open spec fn view(&self) -> ErrorView {
        match *self {
            ExtractError::InvalidInput => ErrorView::InvalidInput,
            ExtractError::ArchiveError { cause } => ErrorView::ArchiveError { cause: cause@ },
            ExtractError::UniqueNameExhausted { stem, attempts } => ErrorView::UniqueNameExhausted {
                stem: stem@,
                attempts: attempts as nat,
            },
            ExtractError::FilesystemError { cause } => ErrorView::FilesystemError {
                cause: cause@,
            },
        }
    }
}

impl ExtractError {
    /// A copy of the error.
    pub fn duplicate(&self) -> (copy: ExtractError)
        ensures
            copy@ == self@,
    {
        match self {
            ExtractError::InvalidInput => ExtractError::InvalidInput,
            ExtractError::ArchiveError { cause } => ExtractError::ArchiveError {
                cause: cause.clone(),
            },
            ExtractError::UniqueNameExhausted { stem, attempts } => {
                ExtractError::UniqueNameExhausted { stem: stem.clone(), attempts: *attempts }
            },
            ExtractError::FilesystemError { cause } => ExtractError::FilesystemError {
                cause: cause.clone(),
            },
        }
    }
}

} // verus!
