//! Validation of the names that archive entries declare.
//!
//! An entry name is a relative path whose segments are separated by `/` or
//! `\`. A name that climbs out of its directory or that is absolute must
//! never reach the output directory.

use vstd::prelude::*;
use crate::text::chars_of;

verus! {

/// Either of the two path separators.
pub open spec fn is_separator(c: char) -> bool {
    c == '/' || c == '\\'
}

/// A whole segment `..` starts at position `i` of `name`.
pub open spec fn is_traversal_at(name: Seq<char>, i: int) -> bool {
    &&& 0 <= i
    &&& i + 2 <= name.len()
    &&& name[i] == '.'
    &&& name[i + 1] == '.'
    &&& (i == 0 || is_separator(name[i - 1]))
    &&& (i + 2 == name.len() || is_separator(name[i + 2]))
}

/// Some segment of `name` is the parent directory `..`.
pub open spec fn has_traversal_segment(name: Seq<char>) -> bool {
    exists|i: int| is_traversal_at(name, i)
}

/// `name` begins with a path separator.
pub open spec fn is_absolute(name: Seq<char>) -> bool {
    name.len() > 0 && is_separator(name[0])
}

/// `name` stays below the directory it is resolved against.
pub open spec fn is_safe(name: Seq<char>) -> bool {
    !has_traversal_segment(name) && !is_absolute(name)
}

/// Whether `c` is one of the two path separators.
pub fn char_is_separator(c: char) -> (b: bool)
    ensures
        b == is_separator(c),
{
    c == '/' || c == '\\'
}

/// Whether an archive entry's stored name is safe to extract: it holds no
/// `..` segment and does not begin with a separator.
pub fn is_safe_archive_path(name: &str) -> (safe: bool)
    ensures
        safe == is_safe(name@),
{
    let v = chars_of(name);
    let n: usize = v.len();
    if n > 0 && char_is_separator(v[0]) {
        return false;
    }
    let mut i: usize = 0;
    while i < n
        invariant
            i <= n,
            n == v.len(),
            v@ == name@,
            forall|k: int| 0 <= k < i ==> !is_traversal_at(v@, k),
        decreases n - i,
    {
        if v[i] == '.' && i + 1 < n && v[i + 1] == '.' {
            let starts: bool = i == 0 || char_is_separator(v[i - 1]);
            let ends: bool = i + 2 == n || char_is_separator(v[i + 2]);
            if starts && ends {
                assert(is_traversal_at(v@, i as int));
                return false;
            }
        }
        i += 1;
    }
    true
}

/// A name with a `..` segment, or one that begins with a separator, is
/// never safe.
pub proof fn lemma_unsafe_names(name: Seq<char>)
    requires
        has_traversal_segment(name) || is_absolute(name),
    ensures
        !is_safe(name),
{
}

} // verus!
