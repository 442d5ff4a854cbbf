//! Output names for extracted images.
//!
//! The name of an image is fixed by the document's base name, the image's
//! place among the images of the document, the number of those images, and
//! the extension. Where a name is taken already, numbered alternatives are
//! tried, up to a bound.

use vstd::prelude::*;
use crate::error::{ErrorView, ExtractError};
use crate::extensions::string_texts;
use crate::text::{
    decimal, is_digit, lemma_decimal_digits, lemma_decimal_is_injective, push_decimal, push_text,
    same_text,
};

verus! {

/// How many numbered alternatives are tried for a name that is taken.
pub const MAX_ATTEMPTS: u32 = 1000;

/// The stem of an image's first-choice name: the base name alone where the
/// document yields one image at most, else the base name, an underscore and
/// the image's place, counted from one.
pub open spec fn output_stem(base_name: Seq<char>, seq_index: nat, total_images: nat) -> Seq<char> {
    if total_images > 1 {
        base_name + seq!['_'] + decimal(seq_index + 1)
    } else {
        base_name
    }
}

/// The name tried at a given attempt: `stem.extension` at first, then
/// `stem_attempt.extension`.
pub open spec fn candidate_name(stem: Seq<char>, extension: Seq<char>, attempt: nat) -> Seq<char> {
    if attempt == 0 {
        stem + seq!['.'] + extension
    } else {
        stem + seq!['_'] + decimal(attempt) + seq!['.'] + extension
    }
}

/// An image's first-choice file name.
pub open spec fn output_file_name(
    base_name: Seq<char>,
    seq_index: nat,
    total_images: nat,
    extension: Seq<char>,
) -> Seq<char> {
    candidate_name(output_stem(base_name, seq_index, total_images), extension, 0)
}

/// The first attempt, from `from` on and within the bound, whose name is
/// not among `taken`.
pub open spec fn first_free_attempt(
    stem: Seq<char>,
    extension: Seq<char>,
    taken: Set<Seq<char>>,
    from: nat,
) -> Option<nat>
    decreases MAX_ATTEMPTS + 1 - from,
{
    if from > MAX_ATTEMPTS {
        None
    } else if !taken.contains(candidate_name(stem, extension, from)) {
        Some(from)
    } else {
        first_free_attempt(stem, extension, taken, from + 1)
    }
}

/// What a step of the allocation asks for next.
#[derive(Debug, PartialEq, Eq)]
pub enum AllocStep {
    /// The name that was probed is free: it is the output name.
    Done(String),
    /// The name that was probed is taken: probe the next candidate.
    Retry,
    /// The name that was probed is taken, and it was the last one allowed.
    Exhausted,
}

/// The allocation of one output name: which candidate to probe next.
///
/// The caller probes `candidate()` and reports what it found to `advance`,
/// until that answers `Done` or `Exhausted`.
pub struct PathAllocator {
    stem: String,
    extension: String,
    attempt: u32,
}

impl PathAllocator {
    /// The stem that every candidate starts with.
    pub closed spec fn stem(&self) -> Seq<char> {
        self.stem@
    }

    /// The extension that every candidate ends with.
    pub closed spec fn extension(&self) -> Seq<char> {
        self.extension@
    }

    /// How many candidates were found taken so far.
    pub closed spec fn attempt(&self) -> nat {
        self.attempt as nat
    }

    /// The candidate to probe.
    pub open spec fn current(&self) -> Seq<char> {
        candidate_name(self.stem(), self.extension(), self.attempt())
    }

    /// Starts the allocation for the image at place `seq_index` among
    /// `total_images`.
    pub fn new(base_name: &str, seq_index: usize, total_images: usize, extension: &str) -> (a: Self)
        ensures
            a.stem() == output_stem(base_name@, seq_index as nat, total_images as nat),
            a.extension() == extension@,
            a.attempt() == 0,
    {
        let mut stem = String::new();
        push_text(&mut stem, base_name);
        if total_images > 1 {
            stem.push('_');
            let place: u128 = seq_index as u128 + 1;
            push_decimal(&mut stem, place);
        }
        PathAllocator { stem, extension: extension.to_owned(), attempt: 0 }
    }

    /// The name to probe.
    pub fn candidate(&self) -> (name: String)
        ensures
            name@ == self.current(),
    {
        let mut name = String::new();
        push_text(&mut name, self.stem.as_str());
        if self.attempt > 0 {
            name.push('_');
            push_decimal(&mut name, self.attempt as u128);
        }
        name.push('.');
        push_text(&mut name, self.extension.as_str());
        name
    }

    /// Takes the answer to the probe of `candidate()`: `exists` says
    /// whether that name is taken.
    pub fn advance(&mut self, exists: bool) -> (step: AllocStep)
        ensures
            final(self).stem() == old(self).stem(),
            final(self).extension() == old(self).extension(),
            match step {
                AllocStep::Done(name) => {
                    &&& !exists
                    &&& name@ == old(self).current()
                    &&& final(self).attempt() == old(self).attempt()
                },
                AllocStep::Retry => {
                    &&& exists
                    &&& old(self).attempt() < MAX_ATTEMPTS
                    &&& final(self).attempt() == old(self).attempt() + 1
                },
                AllocStep::Exhausted => {
                    &&& exists
                    &&& old(self).attempt() >= MAX_ATTEMPTS
                    &&& final(self).attempt() == old(self).attempt()
                },
            },
    {
        if !exists {
            AllocStep::Done(self.candidate())
        } else if self.attempt >= MAX_ATTEMPTS {
            AllocStep::Exhausted
        } else {
            self.attempt = self.attempt + 1;
            AllocStep::Retry
        }
    }

    /// The error that reports an exhausted allocation: it names the stem
    /// and the number of alternatives that were tried.
    pub fn exhausted(&self) -> (e: ExtractError)
        ensures
            e@ == (ErrorView::UniqueNameExhausted {
                stem: self.stem(),
                attempts: MAX_ATTEMPTS as nat,
            }),
    {
        ExtractError::UniqueNameExhausted { stem: self.stem.clone(), attempts: MAX_ATTEMPTS }
    }
}

fn is_taken(taken: &Vec<String>, name: &str) -> (found: bool)
    ensures
        found == string_texts(taken@).to_set().contains(name@),
{
    let ghost names = string_texts(taken@);
    let mut i: usize = 0;
    while i < taken.len()
        invariant
            i <= taken.len(),
            names == string_texts(taken@),
            forall|k: int| 0 <= k < i ==> names[k] != name@,
        decreases taken.len() - i,
    {
        if same_text(taken[i].as_str(), name) {
            assert(names[i as int] == name@);
            return true;
        }
        i += 1;
    }
    false
}

/// The output name for the image at place `seq_index` among `total_images`,
/// given the names that are `taken` in the output directory: the
/// first-choice name if it is free, else the first free numbered
/// alternative. Fails once the first choice and all `MAX_ATTEMPTS`
/// alternatives are found taken; no further name is looked at then.
pub fn get_unique_output_path(
    base_name: &str,
    seq_index: usize,
    total_images: usize,
    extension: &str,
    taken: &Vec<String>,
) -> (result: Result<String, ExtractError>)
    ensures
        ({
            let stem = output_stem(base_name@, seq_index as nat, total_images as nat);
            match first_free_attempt(stem, extension@, string_texts(taken@).to_set(), 0) {
                Some(k) => result matches Ok(name) && name@ == candidate_name(stem, extension@, k),
                None => result matches Err(e) && e@ == (ErrorView::UniqueNameExhausted {
                    stem,
                    attempts: MAX_ATTEMPTS as nat,
                }),
            }
        }),
{
    let mut allocator = PathAllocator::new(base_name, seq_index, total_images, extension);
    let ghost stem = allocator.stem();
    let ghost names = string_texts(taken@).to_set();
    loop
        invariant
            allocator.stem() == stem,
            allocator.extension() == extension@,
            stem == output_stem(base_name@, seq_index as nat, total_images as nat),
            names == string_texts(taken@).to_set(),
            allocator.attempt() <= MAX_ATTEMPTS,
            first_free_attempt(stem, extension@, names, 0) == first_free_attempt(
                stem,
                extension@,
                names,
                allocator.attempt(),
            ),
        decreases MAX_ATTEMPTS - allocator.attempt(),
    {
        let name = allocator.candidate();
        let exists = is_taken(taken, name.as_str());
        match allocator.advance(exists) {
            AllocStep::Done(free) => {
                return Ok(free);
            },
            AllocStep::Exhausted => {
                assert(first_free_attempt(stem, extension@, names, allocator.attempt() + 1) is None);
                return Err(allocator.exhausted());
            },
            AllocStep::Retry => {},
        }
    }
}

/// What `first_free_attempt` finds, said without recursion: the least
/// attempt within the bound whose name is free, if there is one.
pub proof fn lemma_first_free_attempt(
    stem: Seq<char>,
    extension: Seq<char>,
    taken: Set<Seq<char>>,
    from: nat,
)
    requires
        from <= MAX_ATTEMPTS + 1,
    ensures
        match first_free_attempt(stem, extension, taken, from) {
            Some(k) => {
                &&& from <= k <= MAX_ATTEMPTS
                &&& !taken.contains(candidate_name(stem, extension, k))
                &&& forall|j: nat|
                    from <= j < k ==> taken.contains(#[trigger] candidate_name(stem, extension, j))
            },
            None => forall|j: nat|
                from <= j <= MAX_ATTEMPTS ==> taken.contains(
                    #[trigger] candidate_name(stem, extension, j),
                ),
        },
    decreases MAX_ATTEMPTS + 1 - from,
{
    if from <= MAX_ATTEMPTS && taken.contains(candidate_name(stem, extension, from)) {
        lemma_first_free_attempt(stem, extension, taken, from + 1);
    }
}

/// The names tried for one image differ from one another: no name is
/// probed twice.
pub proof fn lemma_candidates_are_distinct(
    stem: Seq<char>,
    extension: Seq<char>,
    a: nat,
    b: nat,
)
    requires
        a != b,
    ensures
        candidate_name(stem, extension, a) != candidate_name(stem, extension, b),
{
    let x = candidate_name(stem, extension, a);
    let y = candidate_name(stem, extension, b);
    if x == y {
        let n = stem.len() as int;
        if a == 0 {
            lemma_decimal_digits(b);
            assert(x[n] == '.');
            assert(y[n] == '_');
        } else if b == 0 {
            lemma_decimal_digits(a);
            assert(x[n] == '_');
            assert(y[n] == '.');
        } else {
            let da = decimal(a);
            let db = decimal(b);
            assert(x.len() == n + 1 + da.len() + 1 + extension.len());
            assert(y.len() == n + 1 + db.len() + 1 + extension.len());
            assert forall|i: int| 0 <= i < da.len() implies da[i] == db[i] by {
                assert(x[n + 1 + i] == da[i]);
                assert(y[n + 1 + i] == db[i]);
            }
            assert(da =~= db);
            lemma_decimal_is_injective(a, b);
        }
    }
}

/// Where a document yields several images, images at different places get
/// different first-choice names, whatever their extensions are.
pub proof fn lemma_places_have_distinct_names(
    base_name: Seq<char>,
    total_images: nat,
    i: nat,
    j: nat,
    extension_i: Seq<char>,
    extension_j: Seq<char>,
)
    requires
        total_images > 1,
        i != j,
    ensures
        output_file_name(base_name, i, total_images, extension_i) != output_file_name(
            base_name,
            j,
            total_images,
            extension_j,
        ),
{
    let x = output_file_name(base_name, i, total_images, extension_i);
    let y = output_file_name(base_name, j, total_images, extension_j);
    if x == y {
        let n = base_name.len() as int;
        let di = decimal(i + 1);
        let dj = decimal(j + 1);
        lemma_decimal_digits(i + 1);
        lemma_decimal_digits(j + 1);
        assert forall|k: int| 0 <= k < di.len() implies x[n + 1 + k] == di[k] by {}
        assert forall|k: int| 0 <= k < dj.len() implies y[n + 1 + k] == dj[k] by {}
        assert(x[n + 1 + di.len()] == '.');
        assert(y[n + 1 + dj.len()] == '.');
        if di.len() < dj.len() {
            assert(is_digit(dj[di.len() as int]));
        } else if dj.len() < di.len() {
            assert(is_digit(di[dj.len() as int]));
        } else {
            assert(di =~= dj);
            lemma_decimal_is_injective(i + 1, j + 1);
        }
    }
}

} // verus!
