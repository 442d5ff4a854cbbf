//! The extraction of one document, step by step.
//!
//! An `Extraction` decides what is to be done next and in which order; the
//! caller does it and reports how it went. All work on the file system and
//! all moving of bytes is the caller's; every decision is made here: whether
//! the output directory is needed at all, which name each image gets, when
//! the search for a free name gives up, and when the document is finished
//! or has failed.

use vstd::prelude::*;
use crate::epub::{cover_extension, cover_extension_for};
use crate::error::{ErrorView, ExtractError};
use crate::extensions::ExtensionSet;
use crate::output_path::{candidate_name, output_stem, AllocStep, PathAllocator, MAX_ATTEMPTS};
use crate::text::decimal;

verus! {

/// Where the bytes of an image come from.
#[derive(Debug, PartialEq, Eq)]
pub enum ImageSource {
    /// The archive entry with this index.
    Entry(usize),
    /// The resource with this id.
    Resource(String),
    /// The document's cover.
    Cover,
}

/// An image source as contracts speak of it.
pub enum SourceView {
    Entry(int),
    Resource(Seq<char>),
    Cover,
}

impl View for ImageSource {
    type V = SourceView;

    open spec fn view(&self) -> SourceView {
        match *self {
            ImageSource::Entry(index) => SourceView::Entry(index as int),
            ImageSource::Resource(id) => SourceView::Resource(id@),
            ImageSource::Cover => SourceView::Cover,
        }
    }
}

impl ImageSource {
    /// A copy of the source.
    pub fn duplicate(&self) -> (copy: ImageSource)
        ensures
            copy@ == self@,
    {
        match self {
            ImageSource::Entry(index) => ImageSource::Entry(*index),
            ImageSource::Resource(id) => ImageSource::Resource(id.clone()),
            ImageSource::Cover => ImageSource::Cover,
        }
    }
}

/// An image that an extraction is to write: its source and its extension.
#[derive(Debug)]
pub struct PlannedImage {
    pub source: ImageSource,
    pub extension: String,
}

/// A planned image as contracts speak of it.
pub struct ImageView {
    pub source: SourceView,
    pub extension: Seq<char>,
}

impl View for PlannedImage {
    type V = ImageView;

    open spec fn view(&self) -> ImageView {
        ImageView { source: self.source@, extension: self.extension@ }
    }
}

/// The views of a list of planned images.
pub open spec fn plan_view(images: Seq<PlannedImage>) -> Seq<ImageView> {
    images.map_values(|image: PlannedImage| image@)
}

/// What the caller is to do next.
#[derive(Debug, PartialEq, Eq)]
pub enum Action {
    /// Look for the document's cover; answer with `Reply::Cover`.
    ReadCover,
    /// Make sure that the output directory exists; answer with
    /// `Reply::Done` or `Reply::WriteFailed`.
    CreateOutputDir,
    /// Find out whether `file_name` exists in the output directory; answer
    /// with `Reply::Exists`.
    ProbePath { file_name: String },
    /// Read the image from `source` and write it to `file_name` in the
    /// output directory; answer with `Reply::Done`, `Reply::ReadFailed` or
    /// `Reply::WriteFailed`.
    ExtractImage { source: ImageSource, file_name: String },
    /// The document is done: `count` images were written.
    Finished { count: usize },
    /// The document has failed.
    Failed { error: ExtractError },
}

/// An action as contracts speak of it.
pub enum ActionView {
    ReadCover,
    CreateOutputDir,
    ProbePath { file_name: Seq<char> },
    ExtractImage { source: SourceView, file_name: Seq<char> },
    Finished { count: nat },
    Failed { error: ErrorView },
}

impl View for Action {
    type V = ActionView;

    open spec fn view(&self) -> ActionView {
        match *self {
            Action::ReadCover => ActionView::ReadCover,
            Action::CreateOutputDir => ActionView::CreateOutputDir,
            Action::ProbePath { file_name } => ActionView::ProbePath { file_name: file_name@ },
            Action::ExtractImage { source, file_name } => ActionView::ExtractImage {
                source: source@,
                file_name: file_name@,
            },
            Action::Finished { count } => ActionView::Finished { count: count as nat },
            Action::Failed { error } => ActionView::Failed { error: error@ },
        }
    }
}

/// How the action that was asked for went.
#[derive(Debug, PartialEq, Eq)]
pub enum Reply {
    /// The MIME type of the cover, or `None` where the document has none.
    Cover { mime: Option<String> },
    /// Whether the probed name exists.
    Exists(bool),
    /// The directory exists now, or the image was written.
    Done,
    /// The image could not be read from its source, for the given cause.
    ReadFailed { cause: String },
    /// The directory could not be created, or the file could not be
    /// written, for the given cause.
    WriteFailed { cause: String },
}

/// A reply as contracts speak of it.
pub enum ReplyView {
    Cover { mime: Option<Seq<char>> },
    Exists(bool),
    Done,
    ReadFailed { cause: Seq<char> },
    WriteFailed { cause: Seq<char> },
}

impl View for Reply {
    type V = ReplyView;

    open spec fn view(&self) -> ReplyView {
        match *self {
            Reply::Cover { mime } => ReplyView::Cover {
                mime: match mime {
                    Some(m) => Some(m@),
                    None => None,
                },
            },
            Reply::Exists(exists) => ReplyView::Exists(exists),
            Reply::Done => ReplyView::Done,
            Reply::ReadFailed { cause } => ReplyView::ReadFailed { cause: cause@ },
            Reply::WriteFailed { cause } => ReplyView::WriteFailed { cause: cause@ },
        }
    }
}

enum Phase {
    AwaitCover,
    AwaitDir,
    AwaitProbe,
    AwaitExtract,
    Finished,
    Failed(ExtractError),
}

/// What an extraction is waiting for.
pub enum PhaseView {
    /// For the answer to `ReadCover`.
    AwaitCover,
    /// For the answer to `CreateOutputDir`.
    AwaitDir,
    /// For the answer to `ProbePath`.
    AwaitProbe,
    /// For the answer to `ExtractImage`.
    AwaitExtract,
    /// For nothing: the document is done.
    Finished,
    /// For nothing: the document has failed.
    Failed(ErrorView),
}

/// The state of an extraction as contracts speak of it.
pub struct ExtractionView {
    /// The base name of the output files.
    pub base_name: Seq<char>,
    /// The images to write, in order.
    pub images: Seq<ImageView>,
    /// How many of them are written.
    pub next: nat,
    /// What the extraction is waiting for.
    pub phase: PhaseView,
    /// How many names were found taken for the image in progress.
    pub attempt: nat,
    /// The extensions under which a cover is extracted.
    pub allowed: Set<Seq<char>>,
    /// The images to write where a cover is asked for and there is none.
    pub fallback: Seq<ImageView>,
}

/// The state in which work on the given images begins: done at once where
/// there are none, else waiting for the output directory.
pub open spec fn begin_state(
    base_name: Seq<char>,
    images: Seq<ImageView>,
    allowed: Set<Seq<char>>,
    fallback: Seq<ImageView>,
) -> ExtractionView {
    ExtractionView {
        base_name,
        images,
        next: 0,
        phase: if images.len() == 0 {
            PhaseView::Finished
        } else {
            PhaseView::AwaitDir
        },
        attempt: 0,
        allowed,
        fallback,
    }
}

/// The state in which the cover is asked for.
pub open spec fn cover_state(
    base_name: Seq<char>,
    allowed: Set<Seq<char>>,
    fallback: Seq<ImageView>,
) -> ExtractionView {
    ExtractionView {
        base_name,
        images: Seq::empty(),
        next: 0,
        phase: PhaseView::AwaitCover,
        attempt: 0,
        allowed,
        fallback,
    }
}

/// `s` moved on to another phase, image and attempt.
pub open spec fn moved(s: ExtractionView, phase: PhaseView, next: nat, attempt: nat) -> ExtractionView {
    ExtractionView {
        base_name: s.base_name,
        images: s.images,
        next,
        phase,
        attempt,
        allowed: s.allowed,
        fallback: s.fallback,
    }
}

/// `s` after it failed with `error`. The count of written images stays.
pub open spec fn failed(s: ExtractionView, error: ErrorView) -> ExtractionView {
    moved(s, PhaseView::Failed(error), s.next, 0)
}

/// The stem of the names tried for the image in progress.
pub open spec fn current_stem(s: ExtractionView) -> Seq<char> {
    output_stem(s.base_name, s.next, s.images.len())
}

/// The name tried for the image in progress.
pub open spec fn current_name(s: ExtractionView) -> Seq<char> {
    candidate_name(current_stem(s), s.images[s.next as int].extension, s.attempt)
}

/// The action that state `s` asks for.
pub open spec fn pending_action(s: ExtractionView) -> ActionView {
    match s.phase {
        PhaseView::AwaitCover => ActionView::ReadCover,
        PhaseView::AwaitDir => ActionView::CreateOutputDir,
        PhaseView::AwaitProbe => ActionView::ProbePath { file_name: current_name(s) },
        PhaseView::AwaitExtract => ActionView::ExtractImage {
            source: s.images[s.next as int].source,
            file_name: current_name(s),
        },
        PhaseView::Finished => ActionView::Finished { count: s.next },
        PhaseView::Failed(error) => ActionView::Failed { error },
    }
}

/// The state that follows `s` on `reply`. A reply that does not answer the
/// pending action leaves the state as it is.
pub open spec fn next_state(s: ExtractionView, reply: ReplyView) -> ExtractionView {
    match s.phase {
        PhaseView::AwaitCover => match reply {
            ReplyView::Cover { mime: Some(mime) } => {
                let extension = cover_extension(mime);
                if s.allowed.contains(extension) {
                    begin_state(
                        s.base_name,
                        seq![ImageView { source: SourceView::Cover, extension }],
                        s.allowed,
                        s.fallback,
                    )
                } else {
                    begin_state(s.base_name, Seq::empty(), s.allowed, s.fallback)
                }
            },
            ReplyView::Cover { mime: None } => begin_state(
                s.base_name,
                s.fallback,
                s.allowed,
                s.fallback,
            ),
            _ => s,
        },
        PhaseView::AwaitDir => match reply {
            ReplyView::Done => moved(s, PhaseView::AwaitProbe, 0, 0),
            ReplyView::WriteFailed { cause } => failed(s, ErrorView::FilesystemError { cause }),
            _ => s,
        },
        PhaseView::AwaitProbe => match reply {
            ReplyView::Exists(false) => moved(s, PhaseView::AwaitExtract, s.next, s.attempt),
            ReplyView::Exists(true) => if s.attempt >= MAX_ATTEMPTS {
                failed(
                    s,
                    ErrorView::UniqueNameExhausted {
                        stem: current_stem(s),
                        attempts: MAX_ATTEMPTS as nat,
                    },
                )
            } else {
                moved(s, PhaseView::AwaitProbe, s.next, s.attempt + 1)
            },
            _ => s,
        },
        PhaseView::AwaitExtract => match reply {
            ReplyView::Done => if s.next + 1 >= s.images.len() {
                moved(s, PhaseView::Finished, s.next + 1, 0)
            } else {
                moved(s, PhaseView::AwaitProbe, s.next + 1, 0)
            },
            ReplyView::ReadFailed { cause } => failed(s, ErrorView::ArchiveError { cause }),
            ReplyView::WriteFailed { cause } => failed(s, ErrorView::FilesystemError { cause }),
            _ => s,
        },
        PhaseView::Finished => s,
        PhaseView::Failed(_) => s,
    }
}

/// What holds of every state that an extraction goes through.
pub open spec fn consistent(s: ExtractionView) -> bool {
    &&& s.next <= s.images.len()
    &&& match s.phase {
        PhaseView::AwaitCover => s.next == 0 && s.attempt == 0 && s.images.len() == 0,
        PhaseView::AwaitDir => s.next == 0 && s.attempt == 0 && s.images.len() > 0,
        PhaseView::AwaitProbe => s.next < s.images.len() && s.attempt <= MAX_ATTEMPTS,
        PhaseView::AwaitExtract => s.next < s.images.len() && s.attempt <= MAX_ATTEMPTS,
        PhaseView::Finished => s.next == s.images.len() && s.attempt == 0,
        PhaseView::Failed(_) => s.attempt == 0,
    }
}

/// The extraction of one document.
pub struct Extraction {
    base_name: String,
    images: Vec<PlannedImage>,
    next: usize,
    phase: Phase,
    allocator: PathAllocator,
    allowed: ExtensionSet,
    fallback: Vec<PlannedImage>,
}

impl View for Extraction {
    type V = ExtractionView;

    closed spec fn view(&self) -> ExtractionView {
        ExtractionView {
            base_name: self.base_name@,
            images: plan_view(self.images@),
            next: self.next as nat,
            phase: match self.phase {
                Phase::AwaitCover => PhaseView::AwaitCover,
                Phase::AwaitDir => PhaseView::AwaitDir,
                Phase::AwaitProbe => PhaseView::AwaitProbe,
                Phase::AwaitExtract => PhaseView::AwaitExtract,
                Phase::Finished => PhaseView::Finished,
                Phase::Failed(error) => PhaseView::Failed(error@),
            },
            attempt: match self.phase {
                Phase::AwaitProbe => self.allocator.attempt(),
                Phase::AwaitExtract => self.allocator.attempt(),
                _ => 0,
            },
            allowed: self.allowed@,
            fallback: plan_view(self.fallback@),
        }
    }
}

impl Extraction {
    #[verifier::type_invariant]
    spec fn well_formed(self) -> bool {
        &&& consistent(self@)
        &&& (self.phase is AwaitProbe || self.phase is AwaitExtract) ==> {
            &&& self.allocator.stem() == current_stem(self@)
            &&& self.allocator.extension() == self.images@[self.next as int].extension@
        }
    }

    fn begin(
        base_name: String,
        images: Vec<PlannedImage>,
        allowed: ExtensionSet,
        fallback: Vec<PlannedImage>,
    ) -> (e: Extraction)
        ensures
            e@ == begin_state(base_name@, plan_view(images@), allowed@, plan_view(fallback@)),
    {
        let phase = if images.len() == 0 {
            Phase::Finished
        } else {
            Phase::AwaitDir
        };
        Extraction {
            base_name,
            images,
            next: 0,
            phase,
            allocator: PathAllocator::new("", 0, 0, ""),
            allowed,
            fallback,
        }
    }

    /// The extraction of `images`, in their order, under the base name
    /// `base_name`. Without images it is finished at once, with a count of
    /// zero, and asks for nothing: the output directory is left alone.
    pub fn start(base_name: &str, images: Vec<PlannedImage>) -> (e: Extraction)
        ensures
            e@ == begin_state(
                base_name@,
                plan_view(images@),
                Set::<Seq<char>>::empty(),
                Seq::<ImageView>::empty(),
            ),
    {
        let fallback: Vec<PlannedImage> = Vec::new();
        assert(plan_view(fallback@) =~= Seq::<ImageView>::empty());
        Extraction::begin(base_name.to_owned(), images, ExtensionSet::new(), fallback)
    }

    /// The extraction of a document's cover alone. The cover is extracted
    /// if the extension that its type stands for is among `allowed`; where
    /// the document has no cover, `fallback` is extracted in its place.
    pub fn start_with_cover(
        base_name: &str,
        allowed: ExtensionSet,
        fallback: Vec<PlannedImage>,
    ) -> (e: Extraction)
        ensures
            e@ == cover_state(base_name@, allowed@, plan_view(fallback@)),
    {
        let images: Vec<PlannedImage> = Vec::new();
        assert(plan_view(images@) =~= Seq::<ImageView>::empty());
        Extraction {
            base_name: base_name.to_owned(),
            images,
            next: 0,
            phase: Phase::AwaitCover,
            allocator: PathAllocator::new("", 0, 0, ""),
            allowed,
            fallback,
        }
    }

    /// The number of images that are to be written.
    pub fn planned(&self) -> (n: usize)
        ensures
            n == self@.images.len(),
    {
        self.images.len()
    }

    /// The number of images that are written.
    pub fn written(&self) -> (n: usize)
        ensures
            n == self@.next,
    {
        self.next
    }

    /// What is to be done next.
    pub fn action(&self) -> (a: Action)
        ensures
            a@ == pending_action(self@),
            consistent(self@),
    {
        proof {
            use_type_invariant(self);
        }
        match &self.phase {
            Phase::AwaitCover => Action::ReadCover,
            Phase::AwaitDir => Action::CreateOutputDir,
            Phase::AwaitProbe => Action::ProbePath { file_name: self.allocator.candidate() },
            Phase::AwaitExtract => Action::ExtractImage {
                source: self.images[self.next].source.duplicate(),
                file_name: self.allocator.candidate(),
            },
            Phase::Finished => Action::Finished { count: self.next },
            Phase::Failed(error) => Action::Failed { error: error.duplicate() },
        }
    }

    /// Takes the answer to the pending action and moves on. An answer of
    /// another kind changes nothing.
    pub fn resume(self, reply: Reply) -> (e: Extraction)
        ensures
            e@ == next_state(self@, reply@),
    {
        proof {
            use_type_invariant(&self);
        }
        let Extraction { base_name, images, next, phase, allocator, allowed, fallback } = self;
        match phase {
            Phase::AwaitCover => match reply {
                Reply::Cover { mime: Some(mime) } => {
                    let extension = cover_extension_for(mime.as_str());
                    let mut chosen: Vec<PlannedImage> = Vec::new();
                    if allowed.contains(extension.as_str()) {
                        chosen.push(PlannedImage { source: ImageSource::Cover, extension });
                        assert(plan_view(chosen@) =~= seq![
                            ImageView {
                                source: SourceView::Cover,
                                extension: cover_extension(mime@),
                            },
                        ]);
                    } else {
                        assert(plan_view(chosen@) =~= Seq::<ImageView>::empty());
                    }
                    Extraction::begin(base_name, chosen, allowed, fallback)
                },
                Reply::Cover { mime: None } => {
                    let chosen = duplicate_plan(&fallback);
                    Extraction::begin(base_name, chosen, allowed, fallback)
                },
                _ => Extraction { base_name, images, next, phase, allocator, allowed, fallback },
            },
            Phase::AwaitDir => match reply {
                Reply::Done => {
                    let allocator = PathAllocator::new(
                        base_name.as_str(),
                        0,
                        images.len(),
                        images[0].extension.as_str(),
                    );
                    Extraction {
                        base_name,
                        images,
                        next: 0,
                        phase: Phase::AwaitProbe,
                        allocator,
                        allowed,
                        fallback,
                    }
                },
                Reply::WriteFailed { cause } => Extraction {
                    base_name,
                    images,
                    next,
                    phase: Phase::Failed(ExtractError::FilesystemError { cause }),
                    allocator,
                    allowed,
                    fallback,
                },
                _ => Extraction { base_name, images, next, phase, allocator, allowed, fallback },
            },
            Phase::AwaitProbe => match reply {
                Reply::Exists(false) => Extraction {
                    base_name,
                    images,
                    next,
                    phase: Phase::AwaitExtract,
                    allocator,
                    allowed,
                    fallback,
                },
                Reply::Exists(true) => {
                    let mut allocator = allocator;
                    match allocator.advance(true) {
                        AllocStep::Retry => Extraction {
                            base_name,
                            images,
                            next,
                            phase: Phase::AwaitProbe,
                            allocator,
                            allowed,
                            fallback,
                        },
                        _ => {
                            let error = allocator.exhausted();
                            Extraction {
                                base_name,
                                images,
                                next,
                                phase: Phase::Failed(error),
                                allocator,
                                allowed,
                                fallback,
                            }
                        },
                    }
                },
                _ => Extraction { base_name, images, next, phase, allocator, allowed, fallback },
            },
            Phase::AwaitExtract => match reply {
                Reply::Done => {
                    let total: usize = images.len();
                    let written: usize = next + 1;
                    if written >= total {
                        Extraction {
                            base_name,
                            images,
                            next: written,
                            phase: Phase::Finished,
                            allocator,
                            allowed,
                            fallback,
                        }
                    } else {
                        let allocator = PathAllocator::new(
                            base_name.as_str(),
                            written,
                            total,
                            images[written].extension.as_str(),
                        );
                        Extraction {
                            base_name,
                            images,
                            next: written,
                            phase: Phase::AwaitProbe,
                            allocator,
                            allowed,
                            fallback,
                        }
                    }
                },
                Reply::ReadFailed { cause } => Extraction {
                    base_name,
                    images,
                    next,
                    phase: Phase::Failed(ExtractError::ArchiveError { cause }),
                    allocator,
                    allowed,
                    fallback,
                },
                Reply::WriteFailed { cause } => Extraction {
                    base_name,
                    images,
                    next,
                    phase: Phase::Failed(ExtractError::FilesystemError { cause }),
                    allocator,
                    allowed,
                    fallback,
                },
                _ => Extraction { base_name, images, next, phase, allocator, allowed, fallback },
            },
            Phase::Finished => Extraction {
                base_name,
                images,
                next,
                phase,
                allocator,
                allowed,
                fallback,
            },
            Phase::Failed(error) => Extraction {
                base_name,
                images,
                next,
                phase: Phase::Failed(error),
                allocator,
                allowed,
                fallback,
            },
        }
    }
}

fn duplicate_plan(images: &Vec<PlannedImage>) -> (copy: Vec<PlannedImage>)
    ensures
        plan_view(copy@) == plan_view(images@),
{
    let mut copy: Vec<PlannedImage> = Vec::new();
    let mut i: usize = 0;
    while i < images.len()
        invariant
            i <= images.len(),
            copy@.len() == i,
            forall|k: int| 0 <= k < i ==> (#[trigger] copy@[k])@ == images@[k]@,
        decreases images.len() - i,
    {
        copy.push(
            PlannedImage {
                source: images[i].source.duplicate(),
                extension: images[i].extension.clone(),
            },
        );
        i += 1;
    }
    copy
}

/// Work on a document without images is finished before it begins: the
/// count is zero and the output directory is never asked for.
pub proof fn lemma_nothing_to_extract(
    base_name: Seq<char>,
    allowed: Set<Seq<char>>,
    fallback: Seq<ImageView>,
)
    ensures
        pending_action(begin_state(base_name, Seq::empty(), allowed, fallback)) == (
        ActionView::Finished { count: 0 }),
{
}

/// Where a cover is asked for, the document has none and nothing stands in
/// for it, the extraction is finished with a count of zero and the output
/// directory is never asked for.
pub proof fn lemma_no_cover_no_fallback(base_name: Seq<char>, allowed: Set<Seq<char>>)
    ensures
        pending_action(
            next_state(
                cover_state(base_name, allowed, Seq::empty()),
                ReplyView::Cover { mime: None },
            ),
        ) == (ActionView::Finished { count: 0 }),
{
}

/// A cover of an accepted type is extracted alone, under the base name
/// without a number.
pub proof fn lemma_cover_is_extracted_alone(
    base_name: Seq<char>,
    allowed: Set<Seq<char>>,
    fallback: Seq<ImageView>,
    mime: Seq<char>,
)
    requires
        allowed.contains(cover_extension(mime)),
    ensures
        ({
            let found = next_state(
                cover_state(base_name, allowed, fallback),
                ReplyView::Cover { mime: Some(mime) },
            );
            let ready = next_state(found, ReplyView::Done);
            let free = next_state(ready, ReplyView::Exists(false));
            let done = next_state(free, ReplyView::Done);
            &&& pending_action(found) == ActionView::CreateOutputDir
            &&& pending_action(ready) == (ActionView::ProbePath {
                file_name: base_name + seq!['.'] + cover_extension(mime),
            })
            &&& pending_action(free) == (ActionView::ExtractImage {
                source: SourceView::Cover,
                file_name: base_name + seq!['.'] + cover_extension(mime),
            })
            &&& pending_action(done) == (ActionView::Finished { count: 1 })
        }),
{
}

/// Every extraction begins in a consistent state.
pub proof fn lemma_begin_is_consistent(
    base_name: Seq<char>,
    images: Seq<ImageView>,
    allowed: Set<Seq<char>>,
    fallback: Seq<ImageView>,
)
    ensures
        consistent(begin_state(base_name, images, allowed, fallback)),
        consistent(cover_state(base_name, allowed, fallback)),
{
}

/// Every step keeps the state consistent.
pub proof fn lemma_step_is_consistent(s: ExtractionView, reply: ReplyView)
    requires
        consistent(s),
    ensures
        consistent(next_state(s, reply)),
{
}

/// An extraction ends as finished only when every image is written, and
/// then its count is the number of its images.
pub proof fn lemma_finished_count(s: ExtractionView)
    requires
        consistent(s),
        s.phase is Finished,
    ensures
        pending_action(s) == (ActionView::Finished { count: s.images.len() }),
{
}

/// Each image is written under the name that its place gives it: the
/// number of the place, counted from one, follows the base name if and only
/// if the document has more than one image; a name that is taken gets the
/// number of the attempt appended to its stem.
pub proof fn lemma_extract_names(s: ExtractionView)
    requires
        consistent(s),
        s.phase is AwaitExtract,
    ensures
        ({
            let image = s.images[s.next as int];
            let stem = if s.images.len() > 1 {
                s.base_name + seq!['_'] + decimal(s.next + 1)
            } else {
                s.base_name
            };
            let file_name = if s.attempt == 0 {
                stem + seq!['.'] + image.extension
            } else {
                stem + seq!['_'] + decimal(s.attempt) + seq!['.'] + image.extension
            };
            &&& s.attempt <= MAX_ATTEMPTS
            &&& pending_action(s) == (ActionView::ExtractImage { source: image.source, file_name })
        }),
{
}

/// The search for a free name is bounded: once the first choice and all
/// numbered alternatives are found taken, the document fails with
/// `UniqueNameExhausted`, which names the stem and the number of
/// alternatives, and no further name is probed.
pub proof fn lemma_name_search_is_bounded(s: ExtractionView)
    requires
        consistent(s),
        s.phase is AwaitProbe,
    ensures
        s.attempt <= MAX_ATTEMPTS,
        s.attempt < MAX_ATTEMPTS ==> pending_action(next_state(s, ReplyView::Exists(true))) == (
        ActionView::ProbePath {
            file_name: candidate_name(
                current_stem(s),
                s.images[s.next as int].extension,
                s.attempt + 1,
            ),
        }),
        s.attempt == MAX_ATTEMPTS ==> pending_action(next_state(s, ReplyView::Exists(true))) == (
        ActionView::Failed {
            error: ErrorView::UniqueNameExhausted {
                stem: current_stem(s),
                attempts: MAX_ATTEMPTS as nat,
            },
        }),
{
}

/// The images to write are fixed once the extraction has begun, and are
/// written one by one in their order: the count of written images grows
/// by one with each image that is reported written, and with nothing else.
pub proof fn lemma_images_are_written_in_order(s: ExtractionView, reply: ReplyView)
    requires
        consistent(s),
        !(s.phase is AwaitCover),
    ensures
        next_state(s, reply).images == s.images,
        next_state(s, reply).base_name == s.base_name,
        next_state(s, reply).next == if s.phase is AwaitExtract && reply is Done {
            s.next + 1
        } else {
            s.next
        },
{
}

/// An upper bound on the number of answers that an extraction can still
/// take before it is finished or has failed.
pub open spec fn remaining_steps(s: ExtractionView) -> nat {
    let per_image = MAX_ATTEMPTS as nat + 2;
    match s.phase {
        PhaseView::AwaitCover => 2 + (s.fallback.len() + 1) * per_image,
        PhaseView::AwaitDir => 1 + s.images.len() * per_image,
        PhaseView::AwaitProbe => ((s.images.len() - s.next - 1) * per_image + (MAX_ATTEMPTS
            - s.attempt) + 2) as nat,
        PhaseView::AwaitExtract => ((s.images.len() - s.next - 1) * per_image + 1) as nat,
        PhaseView::Finished => 0,
        PhaseView::Failed(_) => 0,
    }
}

/// An extraction never spins: every answer that changes its state brings
/// it closer to its end.
pub proof fn lemma_every_step_makes_progress(s: ExtractionView, reply: ReplyView)
    requires
        consistent(s),
    ensures
        next_state(s, reply) == s || remaining_steps(next_state(s, reply)) < remaining_steps(s),
{
    let t = next_state(s, reply);
    if t != s {
        match s.phase {
            PhaseView::AwaitCover => {
                assert(t.images.len() <= s.fallback.len() + 1);
                assert(t.images.len() * 1002 <= (s.fallback.len() + 1) * 1002);
            },
            _ => {},
        }
    }
}

} // verus!
