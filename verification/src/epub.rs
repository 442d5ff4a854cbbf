//! EPUB documents: the metadata filter, the base name that output files
//! get, and the enumeration of image resources.

use vstd::prelude::*;
use crate::extensions::{
    extension_from_name, mime_extension, mime_to_extension, name_extension, ExtensionSet,
};
use crate::extraction::{
    begin_state, cover_state, lemma_cover_is_extracted_alone, next_state, pending_action,
    plan_view, ActionView, Extraction, ExtractionView, ImageSource, ImageView, PlannedImage,
    ReplyView, SourceView,
};
use crate::path_safety::{is_safe, is_safe_archive_path};
use crate::sanitize::{
    is_clean, is_reserved, lemma_sanitized_fixed_point, sanitize_filename, sanitized,
};
use crate::text::{
    chars_of, contains_text, is_control, is_substring, is_trimmed, lemma_trimmed_of_trimmed,
    lowercase, opt_str_text, opt_text, push_text, trim, trimmed,
};

verus! {

/// Criteria that an EPUB's metadata must meet for the document to be
/// processed. A criterion that is `None` is not applied.
#[derive(Debug)]
pub struct EpubFilter {
    pub title: Option<String>,
    pub author: Option<String>,
}

/// Whether a metadata field meets a criterion: no criterion is met by
/// anything; a criterion is met by a field that holds it, case ignored.
pub open spec fn field_matches(wanted: Option<Seq<char>>, actual: Option<Seq<char>>) -> bool {
    match wanted {
        None => true,
        Some(w) => match actual {
            Some(a) => is_substring(lowercase(w), lowercase(a)),
            None => false,
        },
    }
}

/// Whether a title and an author meet a filter: both criteria must be met.
pub open spec fn filter_matches(
    title: Option<Seq<char>>,
    author: Option<Seq<char>>,
    filter: EpubFilter,
) -> bool {
    field_matches(opt_text(filter.title), title) && field_matches(opt_text(filter.author), author)
}

impl EpubFilter {
    /// Whether no criterion is set.
    pub fn is_empty(&self) -> (empty: bool)
        ensures
            empty == (self.title is None && self.author is None),
    {
        self.title.is_none() && self.author.is_none()
    }
}

impl Default for EpubFilter {
    fn default() -> (filter: Self)
        ensures
            filter.title is None,
            filter.author is None,
    {
        EpubFilter { title: None, author: None }
    }
}

fn matches_field(wanted: &Option<String>, actual: Option<&str>) -> (matches: bool)
    ensures
        matches == field_matches(opt_text(*wanted), opt_str_text(actual)),
{
    match wanted {
        None => true,
        Some(w) => match actual {
            Some(a) => {
                let w_lower = w.as_str().to_lowercase();
                let a_lower = a.to_lowercase();
                contains_text(a_lower.as_str(), w_lower.as_str())
            },
            None => false,
        },
    }
}

/// Whether an EPUB's title and author meet the filter: each criterion that
/// is set must be held by its field, case ignored.
pub fn matches_filter(title: Option<&str>, author: Option<&str>, filter: &EpubFilter) -> (matches:
    bool)
    ensures
        matches == filter_matches(opt_str_text(title), opt_str_text(author), *filter),
{
    let title_matches = matches_field(&filter.title, title);
    let author_matches = matches_field(&filter.author, author);
    title_matches && author_matches
}

/// A metadata field as it counts for naming: trimmed, and absent where
/// nothing is left.
pub open spec fn present(field: Option<Seq<char>>) -> Option<Seq<char>> {
    match field {
        Some(s) => if trimmed(s).len() > 0 {
            Some(trimmed(s))
        } else {
            None
        },
        None => None,
    }
}

/// What separates author and title in a base name.
pub open spec fn name_separator() -> Seq<char> {
    seq![' ', '-', ' ']
}

/// The base name before sanitizing: `author - title`, the one of the two
/// that is present, or the fallback.
pub open spec fn raw_base_name(
    author: Option<Seq<char>>,
    title: Option<Seq<char>>,
    fallback: Seq<char>,
) -> Seq<char> {
    match (present(author), present(title)) {
        (Some(a), Some(t)) => a + name_separator() + t,
        (None, Some(t)) => t,
        (Some(a), None) => a,
        (None, None) => fallback,
    }
}

/// The base name of an EPUB's output files.
pub open spec fn base_name(
    author: Option<Seq<char>>,
    title: Option<Seq<char>>,
    fallback: Seq<char>,
) -> Seq<char> {
    sanitized(raw_base_name(author, title, fallback))
}

fn present_field(field: Option<&str>) -> (r: Option<String>)
    ensures
        opt_text(r) == present(opt_str_text(field)),
{
    match field {
        Some(s) => {
            let t = trim(s);
            if t.as_str().unicode_len() > 0 {
                Some(t)
            } else {
                None
            }
        },
        None => None,
    }
}

/// The base name for the files extracted from an EPUB: `author - title`
/// where both are present, else the one that is, else `fallback`; a field
/// that is blank counts as absent. The result is sanitized.
pub fn format_epub_base_name(author: Option<&str>, title: Option<&str>, fallback: &str) -> (name:
    String)
    ensures
        name@ == base_name(opt_str_text(author), opt_str_text(title), fallback@),
{
    let author = present_field(author);
    let title = present_field(title);
    let mut raw = String::new();
    match (author, title) {
        (Some(a), Some(t)) => {
            push_text(&mut raw, a.as_str());
            raw.push(' ');
            raw.push('-');
            raw.push(' ');
            push_text(&mut raw, t.as_str());
            assert(raw@ == a@ + name_separator() + t@);
        },
        (None, Some(t)) => {
            push_text(&mut raw, t.as_str());
        },
        (Some(a), None) => {
            push_text(&mut raw, a.as_str());
        },
        (None, None) => {
            push_text(&mut raw, fallback);
        },
    }
    sanitize_filename(raw.as_str())
}

/// Text that can stand in a file name as it is: not empty, clean, and
/// without whitespace at its ends.
pub open spec fn is_plain_name(s: Seq<char>) -> bool {
    s.len() > 0 && is_clean(s) && is_trimmed(s)
}

/// The base name of a document whose author and title are plain names is
/// `author - title`.
pub proof fn lemma_base_name_both(a: Seq<char>, t: Seq<char>, fallback: Seq<char>)
    requires
        is_plain_name(a),
        is_plain_name(t),
    ensures
        base_name(Some(a), Some(t), fallback) == a + name_separator() + t,
{
    lemma_trimmed_of_trimmed(a);
    lemma_trimmed_of_trimmed(t);
    lemma_sanitized_fixed_point(a + name_separator() + t);
}

/// Without an author, the base name is the title, if that is a plain name.
pub proof fn lemma_base_name_title_only(t: Seq<char>, fallback: Seq<char>)
    requires
        is_plain_name(t),
    ensures
        base_name(None, Some(t), fallback) == t,
{
    lemma_trimmed_of_trimmed(t);
    lemma_sanitized_fixed_point(t);
}

/// Without a title, the base name is the author, if that is a plain name.
pub proof fn lemma_base_name_author_only(a: Seq<char>, fallback: Seq<char>)
    requires
        is_plain_name(a),
    ensures
        base_name(Some(a), None, fallback) == a,
{
    lemma_trimmed_of_trimmed(a);
    lemma_sanitized_fixed_point(a);
}

/// Without author and title, the base name is the sanitized fallback: the
/// fallback itself if that is clean and trimmed.
pub proof fn lemma_base_name_neither(fallback: Seq<char>)
    ensures
        base_name(None, None, fallback) == sanitized(fallback),
        is_clean(fallback) && is_trimmed(fallback) ==> base_name(None, None, fallback) == fallback,
{
    if is_clean(fallback) && is_trimmed(fallback) {
        lemma_sanitized_fixed_point(fallback);
    }
}

/// A field that is blank once trimmed counts as absent.
pub proof fn lemma_base_name_blank_is_absent(
    author: Option<Seq<char>>,
    title: Option<Seq<char>>,
    fallback: Seq<char>,
)
    ensures
        author matches Some(a) && trimmed(a).len() == 0 ==> base_name(author, title, fallback)
            == base_name(None, title, fallback),
        title matches Some(t) && trimmed(t).len() == 0 ==> base_name(author, title, fallback)
            == base_name(author, None, fallback),
{
}

/// A resource that an EPUB declares: its id, its path inside the
/// container, and its MIME type.
#[derive(Debug)]
pub struct EpubResource {
    pub id: String,
    pub path: String,
    pub mime: String,
}

/// An image that is to be extracted from an EPUB: the id of its resource,
/// and its extension in lowercase.
#[derive(Debug)]
pub struct EpubImage {
    pub id: String,
    pub extension: String,
}

/// What the MIME type of every image starts with.
pub open spec fn image_mime_prefix() -> Seq<char> {
    seq!['i', 'm', 'a', 'g', 'e', '/']
}

/// `mime` is the type of an image.
pub open spec fn is_image_mime(mime: Seq<char>) -> bool {
    mime.len() >= 6 && mime.subrange(0, 6) == image_mime_prefix()
}

/// The extension under which a resource is extracted, if it is: its path is
/// safe, its type is an image type, and the extension of its path, or else
/// the one that its type stands for, is an accepted one.
pub open spec fn resource_extension(
    path: Seq<char>,
    mime: Seq<char>,
    allowed: Set<Seq<char>>,
) -> Option<Seq<char>> {
    if !is_safe(path) || !is_image_mime(mime) {
        None
    } else {
        let found = match name_extension(path) {
            Some(e) => Some(e),
            None => mime_extension(mime),
        };
        match found {
            Some(e) => if allowed.contains(e) {
                Some(e)
            } else {
                None
            },
            None => None,
        }
    }
}

/// The images among the given resources: id and extension of each
/// resource that is extracted, in the order of the resources.
pub open spec fn image_resources(resources: Seq<EpubResource>, allowed: Set<Seq<char>>) -> Seq<
    (Seq<char>, Seq<char>),
>
    decreases resources.len(),
{
    if resources.len() == 0 {
        Seq::empty()
    } else {
        let before = image_resources(resources.drop_last(), allowed);
        let last = resources.last();
        match resource_extension(last.path@, last.mime@, allowed) {
            Some(e) => before.push((last.id@, e)),
            None => before,
        }
    }
}

/// Id and extension of each image of a list.
pub open spec fn epub_images_view(images: Seq<EpubImage>) -> Seq<(Seq<char>, Seq<char>)> {
    images.map_values(|image: EpubImage| (image.id@, image.extension@))
}

/// The extension under which a cover of the given MIME type is extracted:
/// the one that the type stands for, and `jpg` for an unknown type.
pub open spec fn cover_extension(mime: Seq<char>) -> Seq<char> {
    match mime_extension(mime) {
        Some(e) => e,
        None => "jpg"@,
    }
}

/// Whether `mime` is the type of an image: whether it starts with `image/`.
pub fn is_image_mime_type(mime: &str) -> (image: bool)
    ensures
        image == is_image_mime(mime@),
{
    let v = chars_of(mime);
    if v.len() < 6 {
        return false;
    }
    let image = v[0] == 'i' && v[1] == 'm' && v[2] == 'a' && v[3] == 'g' && v[4] == 'e' && v[5]
        == '/';
    proof {
        if image {
            assert(mime@.subrange(0, 6) =~= image_mime_prefix());
        }
    }
    image
}

/// The extension under which a resource is extracted, or `None` where it
/// is not: its path is unsafe, it is no image, or its extension is not
/// accepted.
pub fn classify_resource(path: &str, mime: &str, allowed: &ExtensionSet) -> (ext: Option<String>)
    ensures
        opt_text(ext) == resource_extension(path@, mime@, allowed@),
{
    if !is_safe_archive_path(path) {
        return None;
    }
    if !is_image_mime_type(mime) {
        return None;
    }
    let found = match extension_from_name(path) {
        Some(e) => Some(e),
        None => mime_to_extension(mime),
    };
    match found {
        Some(e) => {
            if allowed.contains(e.as_str()) {
                Some(e)
            } else {
                None
            }
        },
        None => None,
    }
}

/// The images among the resources of an EPUB, in the order of the
/// resources.
pub fn enumerate_resources(resources: &Vec<EpubResource>, allowed: &ExtensionSet) -> (images: Vec<
    EpubImage,
>)
    ensures
        epub_images_view(images@) == image_resources(resources@, allowed@),
{
    let mut images: Vec<EpubImage> = Vec::new();
    let mut i: usize = 0;
    while i < resources.len()
        invariant
            i <= resources.len(),
            epub_images_view(images@) == image_resources(resources@.take(i as int), allowed@),
        decreases resources.len() - i,
    {
        let resource = &resources[i];
        let ghost before = images@;
        match classify_resource(resource.path.as_str(), resource.mime.as_str(), allowed) {
            Some(extension) => {
                let id = resource.id.clone();
                images.push(EpubImage { id, extension });
                assert(epub_images_view(images@) == epub_images_view(before).push(
                    (resource.id@, extension@),
                ));
            },
            None => {},
        }
        proof {
            assert(resources@.take(i + 1).drop_last() == resources@.take(i as int));
        }
        i += 1;
    }
    assert(resources@.take(resources@.len() as int) == resources@);
    images
}

/// The extension under which a cover of the given MIME type is extracted.
pub fn cover_extension_for(mime: &str) -> (ext: String)
    ensures
        ext@ == cover_extension(mime@),
{
    match mime_to_extension(mime) {
        Some(e) => e,
        None => "jpg".to_owned(),
    }
}

/// The plan for extracting the given resources: each is read from its
/// resource.
pub open spec fn resource_plan(images: Seq<(Seq<char>, Seq<char>)>) -> Seq<ImageView> {
    images.map_values(
        |image: (Seq<char>, Seq<char>)|
            ImageView { source: SourceView::Resource(image.0), extension: image.1 },
    )
}

/// The state in which the extraction of an EPUB begins.
///
/// A document that does not meet the filter is finished at once. In
/// cover-only mode the cover is asked for, and the document's images stand
/// in for a missing cover only where `cover_fallback` is set. Otherwise the
/// document's images are extracted.
pub open spec fn epub_extraction(
    title: Option<Seq<char>>,
    author: Option<Seq<char>>,
    fallback_name: Seq<char>,
    resources: Seq<EpubResource>,
    allowed: Set<Seq<char>>,
    cover_only: bool,
    cover_fallback: bool,
    filter: EpubFilter,
) -> ExtractionView {
    let name = base_name(author, title, fallback_name);
    let images = resource_plan(image_resources(resources, allowed));
    if !filter_matches(title, author, filter) {
        begin_state(name, Seq::empty(), Set::empty(), Seq::empty())
    } else if cover_only {
        cover_state(
            name,
            allowed,
            if cover_fallback {
                images
            } else {
                Seq::empty()
            },
        )
    } else {
        begin_state(name, images, Set::empty(), Seq::empty())
    }
}

fn plan_resources(resources: &Vec<EpubResource>, allowed: &ExtensionSet) -> (plan: Vec<PlannedImage>)
    ensures
        plan_view(plan@) == resource_plan(image_resources(resources@, allowed@)),
{
    let images = enumerate_resources(resources, allowed);
    let mut plan: Vec<PlannedImage> = Vec::new();
    let mut i: usize = 0;
    while i < images.len()
        invariant
            i <= images.len(),
            plan@.len() == i,
            forall|k: int|
                0 <= k < i ==> (#[trigger] plan@[k])@ == (ImageView {
                    source: SourceView::Resource(images@[k].id@),
                    extension: images@[k].extension@,
                }),
        decreases images.len() - i,
    {
        plan.push(
            PlannedImage {
                source: ImageSource::Resource(images[i].id.clone()),
                extension: images[i].extension.clone(),
            },
        );
        i += 1;
    }
    plan
}

/// Begins the extraction of the images of an EPUB, given its title, its
/// author and its resources. Output files are named after author and
/// title, or after `fallback_name` where the document states neither.
///
/// A document that does not meet `filter` is skipped: it is finished at
/// once with a count of zero. With `cover_only` the cover alone is
/// extracted; where there is none, all images are extracted if
/// `cover_fallback` is set, and nothing otherwise.
pub fn process_file(
    title: Option<&str>,
    author: Option<&str>,
    fallback_name: &str,
    resources: &Vec<EpubResource>,
    allowed: &ExtensionSet,
    cover_only: bool,
    cover_fallback: bool,
    filter: &EpubFilter,
) -> (extraction: Extraction)
    ensures
        extraction@ == epub_extraction(
            opt_str_text(title),
            opt_str_text(author),
            fallback_name@,
            resources@,
            allowed@,
            cover_only,
            cover_fallback,
            *filter,
        ),
{
    let name = format_epub_base_name(author, title, fallback_name);
    if !filter.is_empty() && !matches_filter(title, author, filter) {
        let none: Vec<PlannedImage> = Vec::new();
        assert(plan_view(none@) =~= Seq::<ImageView>::empty());
        return Extraction::start(name.as_str(), none);
    }
    if cover_only {
        let fallback = if cover_fallback {
            plan_resources(resources, allowed)
        } else {
            let none: Vec<PlannedImage> = Vec::new();
            assert(plan_view(none@) =~= Seq::<ImageView>::empty());
            none
        };
        return Extraction::start_with_cover(name.as_str(), allowed.duplicate(), fallback);
    }
    Extraction::start(name.as_str(), plan_resources(resources, allowed))
}

/// What `image_resources` holds, said without recursion: each image stems
/// from a resource that is extracted, and the images keep the order of the
/// resources.
pub proof fn lemma_image_resources(resources: Seq<EpubResource>, allowed: Set<Seq<char>>)
    ensures
        image_resources(resources, allowed).len() <= resources.len(),
        forall|k: int|
            0 <= k < image_resources(resources, allowed).len() ==> exists|i: int|
                0 <= i < resources.len() && resources[i].id@ == (#[trigger] image_resources(
                    resources,
                    allowed,
                )[k]).0 && resource_extension(resources[i].path@, resources[i].mime@, allowed)
                    == Some(image_resources(resources, allowed)[k].1),
        forall|i: int|
            0 <= i < resources.len() && resource_extension(
                resources[i].path@,
                resources[i].mime@,
                allowed,
            ) is Some ==> exists|k: int|
                0 <= k < image_resources(resources, allowed).len() && (#[trigger] image_resources(
                    resources,
                    allowed,
                )[k]).0 == (#[trigger] resources[i]).id@,
    decreases resources.len(),
{
    if resources.len() > 0 {
        let shorter = resources.drop_last();
        lemma_image_resources(shorter, allowed);
        let before = image_resources(shorter, allowed);
        let all = image_resources(resources, allowed);
        let last = resources.last();
        assert forall|k: int| 0 <= k < all.len() implies exists|i: int|
            0 <= i < resources.len() && resources[i].id@ == (#[trigger] all[k]).0
                && resource_extension(resources[i].path@, resources[i].mime@, allowed) == Some(
                all[k].1,
            ) by {
            if k < before.len() {
                assert(all[k] == before[k]);
                let i = choose|i: int|
                    0 <= i < shorter.len() && shorter[i].id@ == before[k].0 && resource_extension(
                        shorter[i].path@,
                        shorter[i].mime@,
                        allowed,
                    ) == Some(before[k].1);
                assert(resources[i] == shorter[i]);
            } else {
                assert(resources[resources.len() - 1] == last);
            }
        }
        assert forall|i: int|
            0 <= i < resources.len() && resource_extension(
                resources[i].path@,
                resources[i].mime@,
                allowed,
            ) is Some implies exists|k: int|
            0 <= k < all.len() && (#[trigger] all[k]).0 == (#[trigger] resources[i]).id@ by {
            if i < shorter.len() {
                let k = choose|k: int|
                    0 <= k < before.len() && (#[trigger] before[k]).0 == shorter[i].id@;
                assert(all[k] == before[k]);
            } else {
                assert(all[all.len() - 1].0 == last.id@);
            }
        }
    }
}

/// No resource with an unsafe path, and none that is no image, is among
/// the images; and every image has an accepted extension.
pub proof fn lemma_unsafe_resources_are_skipped(
    resources: Seq<EpubResource>,
    allowed: Set<Seq<char>>,
    k: int,
)
    requires
        0 <= k < image_resources(resources, allowed).len(),
    ensures
        exists|i: int|
            0 <= i < resources.len() && (#[trigger] resources[i]).id@ == image_resources(
                resources,
                allowed,
            )[k].0 && is_safe(resources[i].path@) && is_image_mime(resources[i].mime@),
        allowed.contains(image_resources(resources, allowed)[k].1),
{
    lemma_image_resources(resources, allowed);
}

/// An EPUB that does not meet the filter is skipped: its extraction is
/// finished before it begins, with a count of zero, whatever the mode.
pub proof fn lemma_filter_mismatch_is_skipped(
    title: Option<Seq<char>>,
    author: Option<Seq<char>>,
    fallback_name: Seq<char>,
    resources: Seq<EpubResource>,
    allowed: Set<Seq<char>>,
    cover_only: bool,
    cover_fallback: bool,
    filter: EpubFilter,
)
    requires
        !filter_matches(title, author, filter),
    ensures
        pending_action(
            epub_extraction(
                title,
                author,
                fallback_name,
                resources,
                allowed,
                cover_only,
                cover_fallback,
                filter,
            ),
        ) == (ActionView::Finished { count: 0 }),
{
}

/// In cover-only mode without fallback, an EPUB without a cover yields a
/// count of zero, and the output directory is never asked for.
pub proof fn lemma_cover_only_without_cover(
    title: Option<Seq<char>>,
    author: Option<Seq<char>>,
    fallback_name: Seq<char>,
    resources: Seq<EpubResource>,
    allowed: Set<Seq<char>>,
    filter: EpubFilter,
)
    ensures
        ({
            let begun = epub_extraction(
                title,
                author,
                fallback_name,
                resources,
                allowed,
                true,
                false,
                filter,
            );
            &&& pending_action(begun) == ActionView::ReadCover || pending_action(begun) == (
            ActionView::Finished { count: 0 })
            &&& pending_action(next_state(begun, ReplyView::Cover { mime: None })) == (
            ActionView::Finished { count: 0 })
        }),
{
}

/// In cover-only mode, the cover of an EPUB that meets the filter is
/// written under the document's base name, without a number, with the
/// extension that its type stands for, provided that extension is
/// accepted and the name is free; and it is the only image written.
pub proof fn lemma_cover_only_with_cover(
    title: Option<Seq<char>>,
    author: Option<Seq<char>>,
    fallback_name: Seq<char>,
    resources: Seq<EpubResource>,
    allowed: Set<Seq<char>>,
    cover_fallback: bool,
    filter: EpubFilter,
    mime: Seq<char>,
)
    requires
        filter_matches(title, author, filter),
        allowed.contains(cover_extension(mime)),
    ensures
        ({
            let begun = epub_extraction(
                title,
                author,
                fallback_name,
                resources,
                allowed,
                true,
                cover_fallback,
                filter,
            );
            let found = next_state(begun, ReplyView::Cover { mime: Some(mime) });
            let free = next_state(next_state(found, ReplyView::Done), ReplyView::Exists(false));
            &&& pending_action(begun) == ActionView::ReadCover
            &&& pending_action(found) == ActionView::CreateOutputDir
            &&& pending_action(free) == (ActionView::ExtractImage {
                source: SourceView::Cover,
                file_name: base_name(author, title, fallback_name) + seq!['.'] + cover_extension(
                    mime,
                ),
            })
            &&& pending_action(next_state(free, ReplyView::Done)) == (ActionView::Finished {
                count: 1,
            })
        }),
{
    lemma_cover_is_extracted_alone(
        base_name(author, title, fallback_name),
        allowed,
        if cover_fallback {
            resource_plan(image_resources(resources, allowed))
        } else {
            Seq::empty()
        },
        mime,
    );
}

} // verus!
