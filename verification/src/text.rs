//! Character-level helpers shared by the naming and classification modules.
//!
//! Strings are modelled by their view, a `Seq<char>`. Everything here is
//! stated over that view.

use vstd::prelude::*;

verus! {

/// What `str::to_lowercase` yields for a string with the given characters.
///
/// Unicode lowercasing depends on the characters alone; its tables are not
/// restated here.
pub uninterp spec fn lowercase(s: Seq<char>) -> Seq<char>;

/// `str::to_lowercase`: the result holds the lowercase form of the argument.
/// Nothing more is claimed of that form than that it is a function of the
/// argument's characters.
pub assume_specification[ str::to_lowercase ](s: &str) -> (r: String)
    ensures
        r@ == lowercase(s@),
;

/// `String::push`: the character is appended at the end, the rest is kept.
pub assume_specification[ String::push ](s: &mut String, c: char)
    ensures
        final(s)@ == old(s)@.push(c),
;

/// The Unicode control characters (general category Cc).
pub open spec fn is_control(c: char) -> bool {
    c as u32 <= 0x1f || 0x7f <= c as u32 <= 0x9f
}

/// The characters with the Unicode property `White_Space`.
pub open spec fn is_whitespace(c: char) -> bool {
    let n = c as u32;
    ||| 0x09 <= n <= 0x0d
    ||| n == 0x20
    ||| n == 0x85
    ||| n == 0xa0
    ||| n == 0x1680
    ||| 0x2000 <= n <= 0x200a
    ||| n == 0x2028
    ||| n == 0x2029
    ||| n == 0x202f
    ||| n == 0x205f
    ||| n == 0x3000
}

/// Whether `c` is a control character.
pub fn char_is_control(c: char) -> (b: bool)
    ensures
        b == is_control(c),
{
    let n: u32 = c as u32;
    n <= 0x1f || (0x7f <= n && n <= 0x9f)
}

/// Whether `c` is whitespace.
pub fn char_is_whitespace(c: char) -> (b: bool)
    ensures
        b == is_whitespace(c),
{
    let n: u32 = c as u32;
    (0x09 <= n && n <= 0x0d) || n == 0x20 || n == 0x85 || n == 0xa0 || n == 0x1680 || (0x2000 <= n
        && n <= 0x200a) || n == 0x2028 || n == 0x2029 || n == 0x202f || n == 0x205f || n == 0x3000
}

/// How many whitespace characters stand at the start of `s`.
pub open spec fn leading_whitespace(s: Seq<char>) -> nat
    decreases s.len(),
{
    if s.len() > 0 && is_whitespace(s[0]) {
        1 + leading_whitespace(s.drop_first())
    } else {
        0
    }
}

/// How many whitespace characters stand at the end of `s`.
pub open spec fn trailing_whitespace(s: Seq<char>) -> nat
    decreases s.len(),
{
    if s.len() > 0 && is_whitespace(s.last()) {
        1 + trailing_whitespace(s.drop_last())
    } else {
        0
    }
}

/// `s` without its leading and trailing whitespace.
pub open spec fn trimmed(s: Seq<char>) -> Seq<char> {
    let rest = s.skip(leading_whitespace(s) as int);
    rest.take(rest.len() - trailing_whitespace(rest))
}

/// `s` is neither preceded nor followed by whitespace of its own.
pub open spec fn is_trimmed(s: Seq<char>) -> bool {
    s.len() > 0 ==> !is_whitespace(s[0]) && !is_whitespace(s.last())
}

/// The leading whitespace of `s` is whitespace throughout, and what
/// follows it, if anything, is none.
pub proof fn lemma_leading_whitespace(s: Seq<char>)
    ensures
        leading_whitespace(s) <= s.len(),
        forall|i: int| 0 <= i < leading_whitespace(s) ==> is_whitespace(#[trigger] s[i]),
        leading_whitespace(s) < s.len() ==> !is_whitespace(s[leading_whitespace(s) as int]),
    decreases s.len(),
{
    if s.len() > 0 && is_whitespace(s[0]) {
        let t = s.drop_first();
        lemma_leading_whitespace(t);
        assert forall|i: int| 0 <= i < leading_whitespace(s) implies is_whitespace(
            #[trigger] s[i],
        ) by {
            if i > 0 {
                assert(s[i] == t[i - 1]);
            }
        }
        if leading_whitespace(s) < s.len() {
            assert(s[leading_whitespace(s) as int] == t[leading_whitespace(t) as int]);
        }
    }
}

/// The trailing whitespace of `s` is whitespace throughout, and what
/// precedes it, if anything, is none.
pub proof fn lemma_trailing_whitespace(s: Seq<char>)
    ensures
        trailing_whitespace(s) <= s.len(),
        forall|i: int|
            s.len() - trailing_whitespace(s) <= i < s.len() ==> is_whitespace(#[trigger] s[i]),
        trailing_whitespace(s) < s.len() ==> !is_whitespace(
            s[s.len() - trailing_whitespace(s) - 1],
        ),
    decreases s.len(),
{
    if s.len() > 0 && is_whitespace(s.last()) {
        let t = s.drop_last();
        lemma_trailing_whitespace(t);
        assert forall|i: int|
            s.len() - trailing_whitespace(s) <= i < s.len() implies is_whitespace(
            #[trigger] s[i],
        ) by {
            if i < s.len() - 1 {
                assert(s[i] == t[i]);
            }
        }
        if trailing_whitespace(s) < s.len() {
            assert(s[s.len() - trailing_whitespace(s) - 1] == t[t.len() - trailing_whitespace(t)
                - 1]);
        }
    }
}

/// The count of leading whitespace is the first position that holds none.
pub proof fn lemma_leading_whitespace_is(s: Seq<char>, k: int)
    requires
        0 <= k <= s.len(),
        forall|i: int| 0 <= i < k ==> is_whitespace(#[trigger] s[i]),
        k < s.len() ==> !is_whitespace(s[k]),
    ensures
        leading_whitespace(s) == k,
{
    lemma_leading_whitespace(s);
    let n = leading_whitespace(s) as int;
    if n < k {
        assert(is_whitespace(s[n]));
    } else if n > k {
        assert(is_whitespace(s[k]));
    }
}

/// The count of trailing whitespace, told from the last position that holds none.
pub proof fn lemma_trailing_whitespace_is(s: Seq<char>, k: int)
    requires
        0 <= k <= s.len(),
        forall|i: int| s.len() - k <= i < s.len() ==> is_whitespace(#[trigger] s[i]),
        k < s.len() ==> !is_whitespace(s[s.len() - k - 1]),
    ensures
        trailing_whitespace(s) == k,
{
    lemma_trailing_whitespace(s);
    let n = trailing_whitespace(s) as int;
    if n < k {
        assert(is_whitespace(s[s.len() - n - 1]));
    } else if n > k {
        assert(is_whitespace(s[s.len() - k - 1]));
    }
}

/// Trimming cuts a subrange out of `s`, removes whitespace only, and leaves
/// none at either end.
pub proof fn lemma_trimmed(s: Seq<char>)
    ensures
        is_trimmed(trimmed(s)),
        trimmed(s).len() <= s.len(),
        leading_whitespace(s) + trimmed(s).len() <= s.len(),
        trimmed(s) == s.subrange(
            leading_whitespace(s) as int,
            (leading_whitespace(s) + trimmed(s).len()) as int,
        ),
        forall|i: int|
            0 <= i < s.len() && !(leading_whitespace(s) <= i < leading_whitespace(s) + trimmed(
                s,
            ).len()) ==> is_whitespace(#[trigger] s[i]),
{
    lemma_leading_whitespace(s);
    let a = leading_whitespace(s) as int;
    let rest = s.skip(a);
    lemma_trailing_whitespace(rest);
    let t = trimmed(s);
    assert forall|i: int| 0 <= i < s.len() && !(a <= i < a + t.len()) implies is_whitespace(
        #[trigger] s[i],
    ) by {
        if i >= a {
            assert(s[i] == rest[i - a]);
        }
    }
}

/// A string without whitespace at its ends is its own trimmed form.
pub proof fn lemma_trimmed_of_trimmed(s: Seq<char>)
    requires
        is_trimmed(s),
    ensures
        trimmed(s) == s,
{
}

/// The characters of `s`, in order.
pub fn chars_of(s: &str) -> (v: Vec<char>)
    ensures
        v@ == s@,
{
    let mut v: Vec<char> = Vec::new();
    let chars = s.chars();
    for c in it: chars
        invariant
            it.seq() == s@,
            v@ == s@.take(it.index()),
    {
        v.push(c);
    }
    v
}

/// The string made of the characters `v[from..to]`.
pub fn string_of_range(v: &Vec<char>, from: usize, to: usize) -> (s: String)
    requires
        from <= to <= v.len(),
    ensures
        s@ == v@.subrange(from as int, to as int),
{
    let mut s = String::new();
    let mut i: usize = from;
    while i < to
        invariant
            from <= i <= to <= v.len(),
            s@ == v@.subrange(from as int, i as int),
        decreases to - i,
    {
        s.push(v[i]);
        assert(v@.subrange(from as int, i + 1) == v@.subrange(from as int, i as int).push(
            v@[i as int],
        ));
        i += 1;
    }
    s
}

/// Whether two strings hold the same characters.
pub fn same_text(a: &str, b: &str) -> (same: bool)
    ensures
        same == (a@ == b@),
{
    a.to_owned() == b.to_owned()
}

/// `s` without its leading and trailing whitespace.
pub fn trim(s: &str) -> (r: String)
    ensures
        r@ == trimmed(s@),
{
    let v = chars_of(s);
    let (from, to) = trim_bounds(&v);
    string_of_range(&v, from, to)
}

/// The bounds of what trimming leaves of `v`.
pub fn trim_bounds(v: &Vec<char>) -> (bounds: (usize, usize))
    ensures
        bounds.0 <= bounds.1 <= v.len(),
        bounds.0 == leading_whitespace(v@),
        v@.subrange(bounds.0 as int, bounds.1 as int) == trimmed(v@),
{
    let mut from: usize = 0;
    while from < v.len() && char_is_whitespace(v[from])
        invariant
            from <= v.len(),
            forall|i: int| 0 <= i < from ==> is_whitespace(#[trigger] v@[i]),
        decreases v.len() - from,
    {
        from += 1;
    }
    let mut to: usize = v.len();
    while to > from && char_is_whitespace(v[to - 1])
        invariant
            from <= to <= v.len(),
            forall|i: int| to <= i < v.len() ==> is_whitespace(#[trigger] v@[i]),
        decreases to,
    {
        to -= 1;
    }
    proof {
        lemma_leading_whitespace_is(v@, from as int);
        let rest = v@.skip(from as int);
        assert forall|i: int| rest.len() - (v.len() - to) <= i < rest.len() implies is_whitespace(
            #[trigger] rest[i],
        ) by {
            assert(rest[i] == v@[i + from]);
        }
        lemma_trailing_whitespace_is(rest, v.len() - to);
    }
    (from, to)
}

/// The decimal digit for `d`, which is below ten.
pub open spec fn digit(d: nat) -> char {
    if d == 0 {
        '0'
    } else if d == 1 {
        '1'
    } else if d == 2 {
        '2'
    } else if d == 3 {
        '3'
    } else if d == 4 {
        '4'
    } else if d == 5 {
        '5'
    } else if d == 6 {
        '6'
    } else if d == 7 {
        '7'
    } else if d == 8 {
        '8'
    } else {
        '9'
    }
}

/// `n` written in base ten, without leading zeros.
pub open spec fn decimal(n: nat) -> Seq<char>
    decreases n,
{
    if n < 10 {
        seq![digit(n)]
    } else {
        decimal(n / 10).push(digit(n % 10))
    }
}

/// Whether `c` is one of the ten decimal digits.
pub open spec fn is_digit(c: char) -> bool {
    '0' <= c <= '9'
}

/// A number's decimal form is not empty and holds digits only.
pub proof fn lemma_decimal_digits(n: nat)
    ensures
        decimal(n).len() > 0,
        forall|i: int| 0 <= i < decimal(n).len() ==> is_digit(#[trigger] decimal(n)[i]),
    decreases n,
{
    if n >= 10 {
        lemma_decimal_digits(n / 10);
    }
}

/// Two numbers with the same decimal form are the same number.
pub proof fn lemma_decimal_is_injective(a: nat, b: nat)
    requires
        decimal(a) == decimal(b),
    ensures
        a == b,
    decreases a,
{
    lemma_decimal_digits(a / 10);
    lemma_decimal_digits(b / 10);
    if a < 10 && b < 10 {
        assert(decimal(a)[0] == digit(a));
        assert(decimal(b)[0] == digit(b));
    } else if a < 10 {
        assert(decimal(b).len() >= 2);
    } else if b < 10 {
        assert(decimal(a).len() >= 2);
    } else {
        let x = decimal(a / 10);
        let y = decimal(b / 10);
        assert(decimal(a).last() == digit(a % 10));
        assert(decimal(a).drop_last() == x);
        assert(decimal(b).drop_last() == y);
        lemma_decimal_is_injective(a / 10, b / 10);
    }
}

fn digit_char(d: u128) -> (c: char)
    requires
        d < 10,
    ensures
        c == digit(d as nat),
{
    if d == 0 {
        '0'
    } else if d == 1 {
        '1'
    } else if d == 2 {
        '2'
    } else if d == 3 {
        '3'
    } else if d == 4 {
        '4'
    } else if d == 5 {
        '5'
    } else if d == 6 {
        '6'
    } else if d == 7 {
        '7'
    } else if d == 8 {
        '8'
    } else {
        '9'
    }
}

/// Appends `n` in base ten to `out`.
pub fn push_decimal(out: &mut String, n: u128)
    ensures
        final(out)@ == old(out)@ + decimal(n as nat),
    decreases n,
{
    if n >= 10 {
        push_decimal(out, n / 10);
    }
    out.push(digit_char(n % 10));
}

/// Appends the characters of `more` to `out`.
pub fn push_text(out: &mut String, more: &str)
    ensures
        final(out)@ == old(out)@ + more@,
{
    out.append(more);
}


/// `needle` stands in `hay` from position `i` on.
pub open spec fn occurs_at(hay: Seq<char>, needle: Seq<char>, i: int) -> bool {
    &&& 0 <= i
    &&& i + needle.len() <= hay.len()
    &&& hay.subrange(i, i + needle.len()) == needle
}

/// `needle` stands somewhere in `hay`.
pub open spec fn is_substring(needle: Seq<char>, hay: Seq<char>) -> bool {
    exists|i: int| occurs_at(hay, needle, i)
}

/// Whether `needle` stands somewhere in `hay`.
pub fn contains_text(hay: &str, needle: &str) -> (found: bool)
    ensures
        found == is_substring(needle@, hay@),
{
    let h = chars_of(hay);
    let n = chars_of(needle);
    if n.len() > h.len() {
        return false;
    }
    let last: usize = h.len() - n.len();
    let mut i: usize = 0;
    while i <= last
        invariant
            i <= last + 1,
            last == h.len() - n.len(),
            h@ == hay@,
            n@ == needle@,
            forall|k: int| 0 <= k < i ==> !occurs_at(h@, n@, k),
        decreases last + 1 - i,
    {
        let mut j: usize = 0;
        while j < n.len() && h[i + j] == n[j]
            invariant
                j <= n.len(),
                i <= last,
                last == h.len() - n.len(),
                forall|m: int| 0 <= m < j ==> h@[i + m] == n@[m],
            decreases n.len() - j,
        {
            j += 1;
        }
        if j == n.len() {
            assert(h@.subrange(i as int, i + n@.len()) =~= n@);
            assert(occurs_at(hay@, needle@, i as int));
            return true;
        }
        i += 1;
    }
    false
}

/// The text of an optional string.
pub open spec fn opt_text(s: Option<String>) -> Option<Seq<char>> {
    match s {
        Some(s) => Some(s@),
        None => None,
    }
}

/// The text of an optional string slice.
pub open spec fn opt_str_text(s: Option<&str>) -> Option<Seq<char>> {
    match s {
        Some(s) => Some(s@),
        None => None,
    }
}

} // verus!
