//! Turning arbitrary text (archive names, titles, authors) into a
//! file-name component.

use vstd::prelude::*;
use crate::text::{
    char_is_control, chars_of, is_control, is_trimmed, lemma_trimmed, lemma_trimmed_of_trimmed,
    string_of_range, trim_bounds, trimmed,
};

verus! {

/// The characters that no file name may hold: `/ \ : * ? " < > |` and NUL.
pub open spec fn is_reserved(c: char) -> bool {
    ||| c == '/'
    ||| c == '\\'
    ||| c == ':'
    ||| c == '*'
    ||| c == '?'
    ||| c == '"'
    ||| c == '<'
    ||| c == '>'
    ||| c == '|'
    ||| c == '\0'
}

/// What stands for `c` in a sanitized name: an underscore for a reserved or
/// control character, `c` itself otherwise.
pub open spec fn sanitize_char(c: char) -> char {
    if is_reserved(c) || is_control(c) {
        '_'
    } else {
        c
    }
}

/// `s` with each character replaced by what stands for it.
pub open spec fn substituted(s: Seq<char>) -> Seq<char> {
    Seq::new(s.len(), |i: int| sanitize_char(s[i]))
}

/// The sanitized form of `s`: substitution first, then trimming.
pub open spec fn sanitized(s: Seq<char>) -> Seq<char> {
    trimmed(substituted(s))
}

/// No character of `s` is reserved or a control character.
pub open spec fn is_clean(s: Seq<char>) -> bool {
    forall|i: int| 0 <= i < s.len() ==> !is_reserved(#[trigger] s[i]) && !is_control(s[i])
}

fn replacement(c: char) -> (r: char)
    ensures
        r == sanitize_char(c),
{
    if c == '/' || c == '\\' || c == ':' || c == '*' || c == '?' || c == '"' || c == '<' || c
        == '>' || c == '|' || c == '\0' || char_is_control(c) {
        '_'
    } else {
        c
    }
}

/// Makes `name` safe to use as a file-name component: every reserved or
/// control character becomes one underscore, then whitespace at both ends
/// is removed.
pub fn sanitize_filename(name: &str) -> (r: String)
    ensures
        r@ == sanitized(name@),
{
    let v = chars_of(name);
    let mut w: Vec<char> = Vec::new();
    let mut i: usize = 0;
    while i < v.len()
        invariant
            i <= v.len(),
            w@.len() == i,
            forall|k: int| 0 <= k < i ==> w@[k] == sanitize_char(v@[k]),
        decreases v.len() - i,
    {
        w.push(replacement(v[i]));
        i += 1;
    }
    assert(w@ == substituted(v@));
    let (from, to) = trim_bounds(&w);
    string_of_range(&w, from, to)
}

/// Substitution keeps the length: each reserved or control character gives
/// way to exactly one underscore, and every other character stays.
pub proof fn lemma_substituted(s: Seq<char>)
    ensures
        substituted(s).len() == s.len(),
        forall|i: int|
            0 <= i < s.len() && (is_reserved(s[i]) || is_control(s[i])) ==> #[trigger] substituted(
                s,
            )[i] == '_',
        forall|i: int|
            0 <= i < s.len() && !is_reserved(s[i]) && !is_control(s[i])
                ==> #[trigger] substituted(s)[i] == s[i],
        is_clean(substituted(s)),
{
}

/// A sanitized name holds no reserved or control character and no
/// whitespace at either end.
pub proof fn lemma_sanitized_is_clean(s: Seq<char>)
    ensures
        is_clean(sanitized(s)),
        is_trimmed(sanitized(s)),
        sanitized(s).len() <= s.len(),
{
    lemma_substituted(s);
    lemma_trimmed(substituted(s));
}

/// Text that is clean and trimmed already is left as it is.
pub proof fn lemma_sanitized_fixed_point(s: Seq<char>)
    requires
        is_clean(s),
        is_trimmed(s),
    ensures
        sanitized(s) == s,
{
    assert(substituted(s) =~= s);
    lemma_trimmed_of_trimmed(s);
}

/// Sanitizing is idempotent.
pub proof fn lemma_sanitize_idempotent(s: Seq<char>)
    ensures
        sanitized(sanitized(s)) == sanitized(s),
{
    lemma_sanitized_is_clean(s);
    lemma_sanitized_fixed_point(sanitized(s));
}

} // verus!
