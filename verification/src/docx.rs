//! DOCX documents: a ZIP archive whose image entries are enumerated in
//! storage order and read by index.

use vstd::prelude::*;
use std::io::Cursor;
use std::io::Read;
use zip::result::ZipError;
use zip::ZipArchive;
use crate::error::ExtractError;
use crate::extensions::{
    allowed_for, extension_from_name, lemma_allowed_is_supported, name_extension, string_texts,
    supported_extensions, ExtensionSet,
};
use crate::extraction::{
    begin_state, plan_view, Extraction, ImageSource, ImageView, PlannedImage, SourceView,
};
use crate::path_safety::{is_safe, is_safe_archive_path};
use crate::text::opt_text;

verus! {

/// `std::io::Cursor`, carried through as it is: the reader that an archive
/// in memory is read from.
#[verifier::external_type_specification]
#[verifier::external_body]
#[verifier::reject_recursive_types(T)]
pub struct ExCursor<T>(Cursor<T>);

/// `zip::ZipArchive`, carried through as it is. What the library knows of
/// an archive it knows through `entry_names` and `entry_contents`.
#[verifier::external_type_specification]
#[verifier::external_body]
#[verifier::reject_recursive_types(R)]
pub struct ExZipArchive<R>(ZipArchive<R>);

/// `zip::result::ZipError`, carried through as it is; every such error
/// becomes the cause of an `ArchiveError`.
#[verifier::external_type_specification]
#[verifier::external_body]
pub struct ExZipError(ZipError);

/// The names of an archive's entries, in storage order: for each index the
/// name that the entry declares, or `None` where the entry cannot be opened.
pub uninterp spec fn entry_names(archive: ZipArchive<Cursor<Vec<u8>>>) -> Seq<Option<Seq<char>>>;

/// The contents of an archive's entries, in storage order: for each index
/// the entry's bytes, or `None` where the entry cannot be opened or read to
/// its end.
pub uninterp spec fn entry_contents(archive: ZipArchive<Cursor<Vec<u8>>>) -> Seq<Option<Seq<u8>>>;

/// What `ZipArchive::new` finds in the given bytes: the names of the
/// entries that the archive lists, as `entry_names` gives them, or `None`
/// where the bytes are not accepted as an archive.
pub uninterp spec fn archive_listing(bytes: Seq<u8>) -> Option<Seq<Option<Seq<char>>>>;

/// `ZipArchive::new` on bytes held in memory. The archive is read from its
/// central directory; bytes that are no ZIP archive give an error. Which
/// bytes are accepted, and what they list, depends on the bytes alone;
/// nothing more is claimed of it.
#[verifier::external_body]
fn archive_from_bytes(bytes: Vec<u8>) -> (r: Result<ZipArchive<Cursor<Vec<u8>>>, ZipError>)
    ensures
        match r {
            Ok(archive) => archive_listing(bytes@) == Some(entry_names(archive)),
            Err(_) => archive_listing(bytes@) is None,
        },
{
    ZipArchive::new(Cursor::new(bytes))
}

/// `ZipArchive::len`: the number of entries, which is the number of
/// indices that `by_index` knows.
#[verifier::external_body]
fn archive_len(archive: &ZipArchive<Cursor<Vec<u8>>>) -> (n: usize)
    ensures
        n == entry_names(*archive).len(),
        n == entry_contents(*archive).len(),
{
    archive.len()
}

/// `ZipArchive::by_index` and `ZipFile::name`: the name that the entry at
/// `index` declares. An index past the last entry, and an entry that cannot
/// be opened, give an error. The archive's entries stay as they are.
#[verifier::external_body]
fn archive_entry_name(archive: &mut ZipArchive<Cursor<Vec<u8>>>, index: usize) -> (r: Result<
    String,
    ZipError,
>)
    ensures
        entry_names(*final(archive)) == entry_names(*old(archive)),
        entry_contents(*final(archive)) == entry_contents(*old(archive)),
        index < entry_names(*old(archive)).len() ==> match r {
            Ok(name) => entry_names(*old(archive))[index as int] == Some(name@),
            Err(_) => entry_names(*old(archive))[index as int] is None,
        },
        index >= entry_names(*old(archive)).len() ==> r is Err,
{
    let file = archive.by_index(index)?;
    Ok(file.name().to_string())
}

/// `ZipArchive::by_index` and `Read::read_to_end` on the entry: all bytes
/// of the entry at `index`, decompressed. An index past the last entry, an
/// entry that cannot be opened, and one whose data is damaged give an
/// error. The archive's entries stay as they are.
#[verifier::external_body]
fn archive_entry_bytes(archive: &mut ZipArchive<Cursor<Vec<u8>>>, index: usize) -> (r: Result<
    Vec<u8>,
    ZipError,
>)
    ensures
        entry_names(*final(archive)) == entry_names(*old(archive)),
        entry_contents(*final(archive)) == entry_contents(*old(archive)),
        index < entry_contents(*old(archive)).len() ==> match r {
            Ok(data) => entry_contents(*old(archive))[index as int] == Some(data@),
            Err(_) => entry_contents(*old(archive))[index as int] is None,
        },
        index >= entry_contents(*old(archive)).len() ==> r is Err,
{
    let mut file = archive.by_index(index)?;
    let mut data = Vec::new();
    file.read_to_end(&mut data)?;
    Ok(data)
}

/// `ZipError`'s `Display`: the message of the error. Nothing is claimed of
/// the text.
#[verifier::external_body]
fn zip_error_text(error: &ZipError) -> (text: String)
{
    error.to_string()
}

/// An image that is to be extracted from an archive: the index of its
/// entry, and its extension in lowercase.
#[derive(Debug)]
pub struct ImageToExtract {
    pub index: usize,
    pub extension: String,
}

/// The extension under which an entry is extracted, if it is: the name is
/// safe, it has an extension, and the extension is an accepted one.
pub open spec fn image_extension(name: Seq<char>, allowed: Set<Seq<char>>) -> Option<Seq<char>> {
    if !is_safe(name) {
        None
    } else {
        match name_extension(name) {
            Some(e) => if allowed.contains(e) {
                Some(e)
            } else {
                None
            },
            None => None,
        }
    }
}

/// The images among the entries with the given names: index and extension
/// of each entry that is extracted, in the order of the entries.
pub open spec fn image_entries(names: Seq<Seq<char>>, allowed: Set<Seq<char>>) -> Seq<
    (int, Seq<char>),
>
    decreases names.len(),
{
    if names.len() == 0 {
        Seq::empty()
    } else {
        let before = image_entries(names.drop_last(), allowed);
        match image_extension(names.last(), allowed) {
            Some(e) => before.push((names.len() - 1, e)),
            None => before,
        }
    }
}

/// Index and extension of each image of a list.
pub open spec fn images_view(images: Seq<ImageToExtract>) -> Seq<(int, Seq<char>)> {
    images.map_values(|image: ImageToExtract| (image.index as int, image.extension@))
}

/// The names of entries that can all be opened.
pub open spec fn known_names(names: Seq<Option<Seq<char>>>) -> Seq<Seq<char>> {
    names.map_values(|name: Option<Seq<char>>| name.unwrap())
}

/// The extension under which the entry called `name` is extracted, or
/// `None` where it is not: its name is unsafe, it has no extension, or the
/// extension is not accepted.
pub fn classify_entry(name: &str, allowed: &ExtensionSet) -> (ext: Option<String>)
    ensures
        opt_text(ext) == image_extension(name@, allowed@),
{
    if !is_safe_archive_path(name) {
        return None;
    }
    match extension_from_name(name) {
        Some(e) => {
            if allowed.contains(e.as_str()) {
                Some(e)
            } else {
                None
            }
        },
        None => None,
    }
}

/// A DOCX document's archive, held in memory.
pub struct DocxArchive {
    archive: ZipArchive<Cursor<Vec<u8>>>,
}

impl DocxArchive {
    /// The names of the entries, in storage order; `None` for an entry
    /// that cannot be opened.
    pub closed spec fn names(&self) -> Seq<Option<Seq<char>>> {
        entry_names(self.archive)
    }

    /// The contents of the entries, in storage order; `None` for an entry
    /// that cannot be read.
    pub closed spec fn contents(&self) -> Seq<Option<Seq<u8>>> {
        entry_contents(self.archive)
    }

    /// Opens the archive that `bytes` hold. Bytes that are no ZIP archive
    /// give `ArchiveError`.
    pub fn open(bytes: Vec<u8>) -> (r: Result<DocxArchive, ExtractError>)
        ensures
            match archive_listing(bytes@) {
                Some(names) => r matches Ok(opened) && opened.names() == names,
                None => r matches Err(e) && e is ArchiveError,
            },
    {
        DocxArchive::opened(archive_from_bytes(bytes))
    }

    /// What opening an archive comes to: the archive with its entries, or
    /// `ArchiveError` for whatever went wrong.
    pub fn opened(result: Result<ZipArchive<Cursor<Vec<u8>>>, ZipError>) -> (r: Result<
        DocxArchive,
        ExtractError,
    >)
        ensures
            match result {
                Ok(archive) => r matches Ok(opened) && opened.names() == entry_names(archive)
                    && opened.contents() == entry_contents(archive),
                Err(_) => r matches Err(e) && e is ArchiveError,
            },
    {
        match result {
            Ok(archive) => Ok(DocxArchive { archive }),
            Err(error) => Err(ExtractError::ArchiveError { cause: zip_error_text(&error) }),
        }
    }

    /// The number of entries.
    pub fn len(&self) -> (n: usize)
        ensures
            n == self.names().len(),
            n == self.contents().len(),
    {
        archive_len(&self.archive)
    }

    /// The name of the entry at `index`; `ArchiveError` where there is no
    /// such entry or it cannot be opened.
    pub fn entry_name(&mut self, index: usize) -> (r: Result<String, ExtractError>)
        ensures
            final(self).names() == old(self).names(),
            final(self).contents() == old(self).contents(),
            match r {
                Ok(name) => index < old(self).names().len() && old(self).names()[index as int]
                    == Some(name@),
                Err(e) => e is ArchiveError && (index < old(self).names().len()
                    ==> old(self).names()[index as int] is None),
            },
    {
        match archive_entry_name(&mut self.archive, index) {
            Ok(name) => Ok(name),
            Err(error) => Err(ExtractError::ArchiveError { cause: zip_error_text(&error) }),
        }
    }

    /// The bytes of the entry at `index`; `ArchiveError` where there is no
    /// such entry or it cannot be read to its end.
    pub fn read_entry(&mut self, index: usize) -> (r: Result<Vec<u8>, ExtractError>)
        ensures
            final(self).names() == old(self).names(),
            final(self).contents() == old(self).contents(),
            match r {
                Ok(data) => index < old(self).contents().len() && old(self).contents()[index as int]
                    == Some(data@),
                Err(e) => e is ArchiveError && (index < old(self).contents().len()
                    ==> old(self).contents()[index as int] is None),
            },
    {
        match archive_entry_bytes(&mut self.archive, index) {
            Ok(data) => Ok(data),
            Err(error) => Err(ExtractError::ArchiveError { cause: zip_error_text(&error) }),
        }
    }

    /// The names of all entries, in storage order. An entry that cannot be
    /// opened fails the listing with `ArchiveError`.
    pub fn all_entry_names(&mut self) -> (r: Result<Vec<String>, ExtractError>)
        ensures
            final(self).names() == old(self).names(),
            final(self).contents() == old(self).contents(),
            match r {
                Ok(listed) => {
                    &&& forall|i: int|
                        0 <= i < old(self).names().len() ==> (#[trigger] old(self).names()[i])
                            is Some
                    &&& string_texts(listed@) == known_names(old(self).names())
                },
                Err(e) => {
                    &&& e is ArchiveError
                    &&& exists|i: int|
                        0 <= i < old(self).names().len() && (#[trigger] old(self).names()[i])
                            is None
                },
            },
    {
        let n: usize = self.len();
        let ghost names = self.names();
        let mut listed: Vec<String> = Vec::new();
        let mut i: usize = 0;
        while i < n
            invariant
                i <= n,
                n == names.len(),
                self.names() == names,
                self.contents() == old(self).contents(),
                names == old(self).names(),
                listed@.len() == i,
                forall|k: int| 0 <= k < i ==> (#[trigger] names[k]) == Some(listed@[k]@),
            decreases n - i,
        {
            match self.entry_name(i) {
                Ok(name) => {
                    listed.push(name);
                },
                Err(e) => {
                    return Err(e);
                },
            }
            i += 1;
        }
        Ok(listed)
    }

    /// The images of the archive, in storage order: every entry whose name
    /// is safe and whose extension is accepted. An entry that cannot be
    /// opened fails the whole enumeration with `ArchiveError`.
    pub fn enumerate(&mut self, allowed: &ExtensionSet) -> (r: Result<
        Vec<ImageToExtract>,
        ExtractError,
    >)
        ensures
            final(self).names() == old(self).names(),
            final(self).contents() == old(self).contents(),
            match r {
                Ok(images) => {
                    &&& forall|i: int|
                        0 <= i < old(self).names().len() ==> (#[trigger] old(self).names()[i])
                            is Some
                    &&& images_view(images@) == image_entries(
                        known_names(old(self).names()),
                        allowed@,
                    )
                },
                Err(e) => {
                    &&& e is ArchiveError
                    &&& exists|i: int|
                        0 <= i < old(self).names().len() && (#[trigger] old(self).names()[i])
                            is None
                },
            },
    {
        match self.all_entry_names() {
            Ok(listed) => Ok(images_among(&listed, allowed)),
            Err(e) => Err(e),
        }
    }
}

/// The images among entries with the given names, in the order of the
/// names: every entry whose name is safe and whose extension is accepted,
/// with its index.
pub fn images_among(names: &Vec<String>, allowed: &ExtensionSet) -> (images: Vec<ImageToExtract>)
    ensures
        images_view(images@) == image_entries(string_texts(names@), allowed@),
{
    let ghost texts = string_texts(names@);
    let mut images: Vec<ImageToExtract> = Vec::new();
    let mut i: usize = 0;
    while i < names.len()
        invariant
            i <= names.len(),
            texts == string_texts(names@),
            images_view(images@) == image_entries(texts.take(i as int), allowed@),
        decreases names.len() - i,
    {
        let ghost before = images@;
        match classify_entry(names[i].as_str(), allowed) {
            Some(extension) => {
                images.push(ImageToExtract { index: i, extension });
                assert(images_view(images@) == images_view(before).push(
                    (i as int, extension@),
                ));
            },
            None => {},
        }
        proof {
            assert(texts.take(i + 1).drop_last() == texts.take(i as int));
        }
        i += 1;
    }
    assert(texts.take(names@.len() as int) == texts);
    images
}

/// The plan for extracting the given archive entries: each is read from
/// its entry.
pub open spec fn entry_plan(entries: Seq<(int, Seq<char>)>) -> Seq<ImageView> {
    entries.map_values(
        |entry: (int, Seq<char>)| ImageView { source: SourceView::Entry(entry.0), extension: entry.1 },
    )
}

/// Begins the extraction of the images of a DOCX document: the entries of
/// its archive whose names are safe and whose extensions are accepted, in
/// storage order, named after `doc_name`. A document without such entries
/// is finished at once, with a count of zero. An entry that cannot be
/// opened fails the document with `ArchiveError`.
pub fn process_file(archive: &mut DocxArchive, doc_name: &str, allowed: &ExtensionSet) -> (r: Result<
    Extraction,
    ExtractError,
>)
    ensures
        final(archive).names() == old(archive).names(),
        final(archive).contents() == old(archive).contents(),
        match r {
            Ok(extraction) => {
                &&& forall|i: int|
                    0 <= i < old(archive).names().len() ==> (#[trigger] old(archive).names()[i])
                        is Some
                &&& extraction@ == begin_state(
                    doc_name@,
                    entry_plan(image_entries(known_names(old(archive).names()), allowed@)),
                    Set::<Seq<char>>::empty(),
                    Seq::<ImageView>::empty(),
                )
            },
            Err(e) => {
                &&& e is ArchiveError
                &&& exists|i: int|
                    0 <= i < old(archive).names().len() && (#[trigger] old(archive).names()[i])
                        is None
            },
        },
{
    let images = match archive.enumerate(allowed) {
        Ok(images) => images,
        Err(e) => {
            return Err(e);
        },
    };
    let mut plan: Vec<PlannedImage> = Vec::new();
    let mut i: usize = 0;
    while i < images.len()
        invariant
            i <= images.len(),
            plan@.len() == i,
            forall|k: int|
                0 <= k < i ==> (#[trigger] plan@[k])@ == (ImageView {
                    source: SourceView::Entry(images@[k].index as int),
                    extension: images@[k].extension@,
                }),
        decreases images.len() - i,
    {
        plan.push(
            PlannedImage {
                source: ImageSource::Entry(images[i].index),
                extension: images[i].extension.clone(),
            },
        );
        i += 1;
    }
    assert(plan_view(plan@) =~= entry_plan(images_view(images@)));
    Ok(Extraction::start(doc_name, plan))
}

/// What `image_entries` holds, said without recursion: exactly the entries
/// that are extracted, each once, in ascending order of index.
pub proof fn lemma_image_entries(names: Seq<Seq<char>>, allowed: Set<Seq<char>>)
    ensures
        forall|k: int|
            0 <= k < image_entries(names, allowed).len() ==> {
                let (i, e) = #[trigger] image_entries(names, allowed)[k];
                0 <= i < names.len() && image_extension(names[i], allowed) == Some(e)
            },
        forall|j: int, k: int|
            0 <= j < k < image_entries(names, allowed).len() ==> (#[trigger] image_entries(
                names,
                allowed,
            )[j]).0 < (#[trigger] image_entries(names, allowed)[k]).0,
        forall|i: int|
            0 <= i < names.len() && image_extension(#[trigger] names[i], allowed) is Some
                ==> exists|k: int|
                0 <= k < image_entries(names, allowed).len() && (#[trigger] image_entries(
                    names,
                    allowed,
                )[k]).0 == i,
    decreases names.len(),
{
    if names.len() > 0 {
        let shorter = names.drop_last();
        lemma_image_entries(shorter, allowed);
        let before = image_entries(shorter, allowed);
        let all = image_entries(names, allowed);
        assert forall|i: int|
            0 <= i < names.len() && image_extension(
                #[trigger] names[i],
                allowed,
            ) is Some implies exists|k: int|
            0 <= k < all.len() && (#[trigger] all[k]).0 == i by {
            if i < shorter.len() {
                assert(names[i] == shorter[i]);
                let k = choose|k: int| 0 <= k < before.len() && (#[trigger] before[k]).0 == i;
                assert(all[k] == before[k]);
            } else {
                assert(all[all.len() - 1].0 == i);
            }
        }
    }
}

/// No entry with an unsafe name is among the images.
pub proof fn lemma_unsafe_entries_are_skipped(
    names: Seq<Seq<char>>,
    allowed: Set<Seq<char>>,
    k: int,
)
    requires
        0 <= k < image_entries(names, allowed).len(),
    ensures
        0 <= image_entries(names, allowed)[k].0 < names.len(),
        is_safe(names[image_entries(names, allowed)[k].0]),
        allowed.contains(image_entries(names, allowed)[k].1),
{
    lemma_image_entries(names, allowed);
}

/// With the extensions that a format filter accepts, every image has one
/// of the supported extensions.
pub proof fn lemma_extensions_are_supported(
    names: Seq<Seq<char>>,
    formats: Seq<Seq<char>>,
    k: int,
)
    requires
        0 <= k < image_entries(names, allowed_for(formats)).len(),
    ensures
        supported_extensions().contains(image_entries(names, allowed_for(formats))[k].1),
{
    lemma_unsafe_entries_are_skipped(names, allowed_for(formats), k);
    lemma_allowed_is_supported(formats);
}

} // verus!
