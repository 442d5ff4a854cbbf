//! Classification of archive entries as images: extensions taken from
//! names, extensions looked up from MIME types, format filters given by the
//! user, and the set of extensions that an extraction accepts.

use vstd::prelude::*;
use crate::path_safety::{char_is_separator, is_separator};
use crate::text::{chars_of, lowercase, same_text, string_of_range, trim, trimmed};

verus! {

/// The extensions of the image formats that can be extracted.
pub open spec fn supported_extensions() -> Set<Seq<char>> {
    set![
        "jpg"@,
        "jpeg"@,
        "png"@,
        "gif"@,
        "bmp"@,
        "tiff"@,
        "tif"@,
        "svg"@,
        "wmf"@,
        "emf"@,
        "webp"@,
        "ico"@,
    ]
}

/// The extensions that a lowercase format token selects: both spellings for
/// JPEG and for TIFF, the token itself for the other formats, nothing for
/// any other text.
pub open spec fn extension_group(token: Seq<char>) -> Seq<Seq<char>> {
    if token == "jpg"@ || token == "jpeg"@ {
        seq!["jpg"@, "jpeg"@]
    } else if token == "png"@ {
        seq!["png"@]
    } else if token == "gif"@ {
        seq!["gif"@]
    } else if token == "bmp"@ {
        seq!["bmp"@]
    } else if token == "tiff"@ || token == "tif"@ {
        seq!["tiff"@, "tif"@]
    } else if token == "svg"@ {
        seq!["svg"@]
    } else if token == "wmf"@ {
        seq!["wmf"@]
    } else if token == "emf"@ {
        seq!["emf"@]
    } else if token == "webp"@ {
        seq!["webp"@]
    } else if token == "ico"@ {
        seq!["ico"@]
    } else {
        Seq::empty()
    }
}

/// The extension that a MIME type stands for, if it is a known image type.
pub open spec fn mime_extension(mime: Seq<char>) -> Option<Seq<char>> {
    if mime == "image/jpeg"@ {
        Some("jpg"@)
    } else if mime == "image/png"@ {
        Some("png"@)
    } else if mime == "image/gif"@ {
        Some("gif"@)
    } else if mime == "image/bmp"@ {
        Some("bmp"@)
    } else if mime == "image/webp"@ {
        Some("webp"@)
    } else if mime == "image/svg+xml"@ {
        Some("svg"@)
    } else if mime == "image/tiff"@ {
        Some("tiff"@)
    } else if mime == "image/x-icon"@ || mime == "image/vnd.microsoft.icon"@ {
        Some("ico"@)
    } else if mime == "image/x-emf"@ || mime == "image/emf"@ {
        Some("emf"@)
    } else if mime == "image/x-wmf"@ || mime == "image/wmf"@ {
        Some("wmf"@)
    } else {
        None
    }
}

/// The texts of a list of string slices.
pub open spec fn texts(v: Seq<&'static str>) -> Seq<Seq<char>> {
    v.map_values(|s: &'static str| s@)
}

/// Position `k` of `path` holds the dot that starts the extension: no dot
/// and no separator follows it.
pub open spec fn is_extension_dot(path: Seq<char>, k: int) -> bool {
    &&& 0 <= k < path.len()
    &&& path[k] == '.'
    &&& forall|j: int| k < j < path.len() ==> path[j] != '.' && !is_separator(#[trigger] path[j])
}

/// The last segment of `path` holds a dot.
pub open spec fn has_extension(path: Seq<char>) -> bool {
    exists|k: int| is_extension_dot(path, k)
}

/// What follows the last dot in the last segment of `path`, as written.
pub open spec fn raw_extension(path: Seq<char>) -> Option<Seq<char>> {
    if has_extension(path) {
        let k = choose|k: int| is_extension_dot(path, k);
        Some(path.subrange(k + 1, path.len() as int))
    } else {
        None
    }
}

/// The extension of `path`: what follows its last dot, in lowercase.
pub open spec fn name_extension(path: Seq<char>) -> Option<Seq<char>> {
    match raw_extension(path) {
        Some(e) => Some(lowercase(e)),
        None => None,
    }
}

/// A path has at most one extension dot.
pub proof fn lemma_extension_dot_unique(path: Seq<char>, k1: int, k2: int)
    requires
        is_extension_dot(path, k1),
        is_extension_dot(path, k2),
    ensures
        k1 == k2,
{
}

/// A set of extensions, such as the ones that an extraction accepts.
pub struct ExtensionSet {
    items: Vec<String>,
}

impl View for ExtensionSet {
    type V = Set<Seq<char>>;

    closed spec fn view(&self) -> Set<Seq<char>> {
        Set::new(|e: Seq<char>| exists|i: int| 0 <= i < self.items@.len() && self.items@[i]@ == e)
    }
}

impl ExtensionSet {
    /// The empty set.
    pub fn new() -> (set: Self)
        ensures
            set@ == Set::<Seq<char>>::empty(),
    {
        ExtensionSet { items: Vec::new() }
    }

    /// Adds `ext` to the set.
    pub fn insert(&mut self, ext: &str)
        ensures
            final(self)@ == old(self)@.insert(ext@),
    {
        let ghost before = self.items@;
        self.items.push(ext.to_owned());
        proof {
            let after = self.items@;
            assert forall|e: Seq<char>|
                #[trigger] final(self)@.contains(e) <==> old(self)@.insert(ext@).contains(
                    e,
                ) by {
                if old(self)@.insert(ext@).contains(e) {
                    if e == ext@ {
                        assert(after[before.len() as int]@ == e);
                    } else {
                        let i = choose|i: int| 0 <= i < before.len() && before[i]@ == e;
                        assert(after[i]@ == e);
                    }
                }
            }
        }
    }

    /// Whether `ext` is in the set.
    pub fn contains(&self, ext: &str) -> (found: bool)
        ensures
            found == self@.contains(ext@),
    {
        let mut i: usize = 0;
        while i < self.items.len()
            invariant
                i <= self.items@.len(),
                forall|k: int| 0 <= k < i ==> self.items@[k]@ != ext@,
            decreases self.items@.len() - i,
        {
            if same_text(self.items[i].as_str(), ext) {
                return true;
            }
            i += 1;
        }
        false
    }

    /// A copy of the set.
    pub fn duplicate(&self) -> (copy: Self)
        ensures
            copy@ == self@,
    {
        let mut items: Vec<String> = Vec::new();
        let mut i: usize = 0;
        while i < self.items.len()
            invariant
                i <= self.items@.len(),
                items@.len() == i,
                forall|k: int| 0 <= k < i ==> (#[trigger] items@[k])@ == self.items@[k]@,
            decreases self.items@.len() - i,
        {
            items.push(self.items[i].clone());
            i += 1;
        }
        let copy = ExtensionSet { items };
        proof {
            assert forall|e: Seq<char>| copy@.contains(e) <==> self@.contains(e) by {
                if self@.contains(e) {
                    let k = choose|k: int| 0 <= k < self.items@.len() && self.items@[k]@ == e;
                    assert(copy.items@[k]@ == e);
                }
            }
        }
        copy
    }

    /// Whether the set holds nothing.
    pub fn is_empty(&self) -> (empty: bool)
        ensures
            empty == (self@ == Set::<Seq<char>>::empty()),
    {
        let empty = self.items.len() == 0;
        proof {
            if empty {
                assert(self@ =~= Set::<Seq<char>>::empty());
            } else {
                assert(self@.contains(self.items@[0]@));
            }
        }
        empty
    }
}

/// The set of supported image file extensions.
pub fn get_supported_extensions() -> (set: ExtensionSet)
    ensures
        set@ == supported_extensions(),
{
    let mut set = ExtensionSet::new();
    set.insert("ico");
    set.insert("webp");
    set.insert("emf");
    set.insert("wmf");
    set.insert("svg");
    set.insert("tif");
    set.insert("tiff");
    set.insert("bmp");
    set.insert("gif");
    set.insert("png");
    set.insert("jpeg");
    set.insert("jpg");
    set
}

/// The extensions that a format token selects, the token being trimmed and
/// in lowercase already.
pub fn normalize_token(token: &str) -> (group: Vec<&'static str>)
    ensures
        texts(group@) == extension_group(token@),
{
    let group: Vec<&'static str> = if same_text(token, "jpg") || same_text(token, "jpeg") {
        vec!["jpg", "jpeg"]
    } else if same_text(token, "png") {
        vec!["png"]
    } else if same_text(token, "gif") {
        vec!["gif"]
    } else if same_text(token, "bmp") {
        vec!["bmp"]
    } else if same_text(token, "tiff") || same_text(token, "tif") {
        vec!["tiff", "tif"]
    } else if same_text(token, "svg") {
        vec!["svg"]
    } else if same_text(token, "wmf") {
        vec!["wmf"]
    } else if same_text(token, "emf") {
        vec!["emf"]
    } else if same_text(token, "webp") {
        vec!["webp"]
    } else if same_text(token, "ico") {
        vec!["ico"]
    } else {
        Vec::new()
    };
    group
}

/// The extensions that a format given by the user selects. The format is
/// trimmed and matched without regard to case; one that is not recognised
/// selects nothing.
pub fn normalize_format(fmt: &str) -> (group: Vec<&'static str>)
    ensures
        texts(group@) == extension_group(lowercase(trimmed(fmt@))),
{
    let token = trim(fmt).as_str().to_lowercase();
    normalize_token(token.as_str())
}

/// The file extension that a MIME type stands for; `None` for a type that
/// is not a known image type.
pub fn mime_to_extension(mime: &str) -> (ext: Option<String>)
    ensures
        match mime_extension(mime@) {
            Some(e) => ext matches Some(s) && s@ == e,
            None => ext is None,
        },
{
    if same_text(mime, "image/jpeg") {
        Some("jpg".to_owned())
    } else if same_text(mime, "image/png") {
        Some("png".to_owned())
    } else if same_text(mime, "image/gif") {
        Some("gif".to_owned())
    } else if same_text(mime, "image/bmp") {
        Some("bmp".to_owned())
    } else if same_text(mime, "image/webp") {
        Some("webp".to_owned())
    } else if same_text(mime, "image/svg+xml") {
        Some("svg".to_owned())
    } else if same_text(mime, "image/tiff") {
        Some("tiff".to_owned())
    } else if same_text(mime, "image/x-icon") || same_text(mime, "image/vnd.microsoft.icon") {
        Some("ico".to_owned())
    } else if same_text(mime, "image/x-emf") || same_text(mime, "image/emf") {
        Some("emf".to_owned())
    } else if same_text(mime, "image/x-wmf") || same_text(mime, "image/wmf") {
        Some("wmf".to_owned())
    } else {
        None
    }
}

/// What follows the last dot in the last segment of `path`, as written;
/// `None` where that segment holds no dot.
pub fn extension_as_written(path: &str) -> (ext: Option<String>)
    ensures
        match raw_extension(path@) {
            Some(e) => ext matches Some(s) && s@ == e,
            None => ext is None,
        },
{
    let v = chars_of(path);
    let n: usize = v.len();
    let mut i: usize = n;
    while i > 0
        invariant
            i <= n,
            n == v.len(),
            v@ == path@,
            forall|j: int| i <= j < n ==> v@[j] != '.' && !is_separator(#[trigger] v@[j]),
        decreases i,
    {
        let c: char = v[i - 1];
        if c == '.' {
            proof {
                let k = (i - 1) as int;
                assert(is_extension_dot(path@, k));
                let chosen = choose|k: int| is_extension_dot(path@, k);
                lemma_extension_dot_unique(path@, k, chosen);
            }
            return Some(string_of_range(&v, i, n));
        }
        if char_is_separator(c) {
            return None;
        }
        i -= 1;
    }
    None
}

/// The extension of `path`, in lowercase: what follows the last dot in its
/// last segment; `None` where that segment holds no dot.
pub fn extension_from_name(path: &str) -> (ext: Option<String>)
    ensures
        match name_extension(path@) {
            Some(e) => ext matches Some(s) && s@ == e,
            None => ext is None,
        },
{
    match extension_as_written(path) {
        Some(raw) => Some(raw.as_str().to_lowercase()),
        None => None,
    }
}

/// The extensions that the formats at positions below `upto` select.
pub open spec fn selected_extensions(formats: Seq<Seq<char>>, upto: int) -> Set<Seq<char>> {
    Set::new(
        |e: Seq<char>|
            exists|i: int|
                0 <= i < upto && i < formats.len() && #[trigger] extension_group(
                    lowercase(trimmed(formats[i])),
                ).contains(e),
    )
}

/// The extensions that an extraction accepts for the given format filter:
/// those that its formats select, or all supported ones where they select
/// none.
pub open spec fn allowed_for(formats: Seq<Seq<char>>) -> Set<Seq<char>> {
    let chosen = selected_extensions(formats, formats.len() as int);
    if chosen == Set::<Seq<char>>::empty() {
        supported_extensions()
    } else {
        chosen
    }
}

/// The texts of a list of strings.
pub open spec fn string_texts(v: Seq<String>) -> Seq<Seq<char>> {
    v.map_values(|s: String| s@)
}

/// The set of extensions to extract for a format filter. Without a filter,
/// or with one whose formats are all unknown, every supported extension is
/// accepted.
pub fn allowed_extensions(formats: &Vec<String>) -> (set: ExtensionSet)
    ensures
        set@ == allowed_for(string_texts(formats@)),
{
    let ghost fs = string_texts(formats@);
    let mut set = ExtensionSet::new();
    let mut i: usize = 0;
    while i < formats.len()
        invariant
            i <= formats.len(),
            fs == string_texts(formats@),
            set@ == selected_extensions(fs, i as int),
        decreases formats.len() - i,
    {
        let group = normalize_format(formats[i].as_str());
        let ghost g = extension_group(lowercase(trimmed(fs[i as int])));
        let ghost base = set@;
        let mut j: usize = 0;
        while j < group.len()
            invariant
                j <= group.len(),
                texts(group@) == g,
                set@ == base.union(g.take(j as int).to_set()),
            decreases group.len() - j,
        {
            set.insert(group[j]);
            proof {
                let before = g.take(j as int);
                let after = g.take(j + 1);
                assert(after[j as int] == g[j as int]);
                assert(after.to_set() =~= before.to_set().insert(g[j as int]));
            }
            j += 1;
        }
        proof {
            assert(g.take(group.len() as int) == g);
            assert(set@ =~= selected_extensions(fs, i + 1));
        }
        i += 1;
    }
    if set.is_empty() {
        get_supported_extensions()
    } else {
        set
    }
}

/// Whatever a format selects is a supported extension.
pub proof fn lemma_group_is_supported(token: Seq<char>, e: Seq<char>)
    requires
        extension_group(token).contains(e),
    ensures
        supported_extensions().contains(e),
{
}

/// The extensions accepted for any format filter are supported ones, and
/// there is at least one of them.
pub proof fn lemma_allowed_is_supported(formats: Seq<Seq<char>>)
    ensures
        allowed_for(formats).subset_of(supported_extensions()),
        allowed_for(formats) != Set::<Seq<char>>::empty(),
{
    assert forall|e: Seq<char>| allowed_for(formats).contains(e) implies supported_extensions().contains(
        e,
    ) by {
        let chosen = selected_extensions(formats, formats.len() as int);
        if chosen != Set::<Seq<char>>::empty() {
            let i = choose|i: int|
                0 <= i < formats.len() && #[trigger] extension_group(
                    lowercase(trimmed(formats[i])),
                ).contains(e);
            lemma_group_is_supported(lowercase(trimmed(formats[i])), e);
        }
    }
    assert(supported_extensions().contains("jpg"@));
}

} // verus!
