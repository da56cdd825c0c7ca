//! Text helpers shared by the prompts and the file naming rules.

use vstd::prelude::*;

verus! {

/// The ASCII lower-case form of a character; other characters are unchanged.
pub open spec fn ascii_lower(c: char) -> char {
    if 'A' <= c && c <= 'Z' {
        ((c as u8 + 32) as u8) as char
    } else {
        c
    }
}

/// Two texts that differ at most in the case of their ASCII letters.
pub open spec fn same_ignoring_ascii_case(a: Seq<char>, b: Seq<char>) -> bool {
    &&& a.len() == b.len()
    &&& forall|i: int| 0 <= i < a.len() ==> ascii_lower(#[trigger] a[i]) == ascii_lower(b[i])
}

/// `str::eq_ignore_ascii_case`: an ASCII case-insensitive match of two texts.
#[verifier::external_body]
pub(crate) fn eq_ignore_ascii_case(a: &str, b: &str) -> (r: bool)
    ensures
        r == same_ignoring_ascii_case(a@, b@),
{
    a.eq_ignore_ascii_case(b)
}

/// The text that `str::to_lowercase` gives for a text.
pub uninterp spec fn lowercase_of(s: Seq<char>) -> Seq<char>;

/// Whether `char::is_alphanumeric` holds of a character.
pub uninterp spec fn alphanumeric(c: char) -> bool;

/// Whether a pattern occurs in a text at a place.
pub open spec fn occurs_at(s: Seq<char>, pattern: Seq<char>, i: int) -> bool {
    0 <= i && i + pattern.len() <= s.len() && s.subrange(i, i + pattern.len()) == pattern
}

/// Whether a pattern occurs in a text.
pub open spec fn occurs(s: Seq<char>, pattern: Seq<char>) -> bool {
    exists|i: int| occurs_at(s, pattern, i)
}

/// The place of the first occurrence of a pattern in a text that holds it.
pub open spec fn first_occurrence(s: Seq<char>, pattern: Seq<char>) -> int {
    choose|i: int|
        occurs_at(s, pattern, i) && forall|j: int| 0 <= j < i ==> !occurs_at(s, pattern, j)
}

/// The part of a text before the first occurrence of a pattern; the whole
/// text where the pattern does not occur.
pub open spec fn prefix_before(s: Seq<char>, pattern: Seq<char>) -> Seq<char> {
    if occurs(s, pattern) {
        s.take(first_occurrence(s, pattern))
    } else {
        s
    }
}

/// Whether a text ends with another.
pub open spec fn has_suffix(s: Seq<char>, suffix: Seq<char>) -> bool {
    suffix.len() <= s.len() && s.skip(s.len() - suffix.len()) == suffix
}

/// `str::to_lowercase`: the lower-case form of a text, named by
/// [`lowercase_of`].
#[verifier::external_body]
pub(crate) fn to_lowercase(s: &str) -> (r: String)
    ensures
        r@ == lowercase_of(s@),
{
    s.to_lowercase()
}

/// `char::is_alphanumeric`: whether a character is a letter or a digit,
/// named by [`alphanumeric`].
#[verifier::external_body]
pub(crate) fn is_alphanumeric(c: char) -> (r: bool)
    ensures
        r == alphanumeric(c),
{
    c.is_alphanumeric()
}

/// `String::push`: the text with one more character at its end.
#[verifier::external_body]
pub(crate) fn push_char(s: &mut String, c: char)
    ensures
        final(s)@ == old(s)@.push(c),
{
    s.push(c)
}

/// `str::eq`: whether two texts are the same.
#[verifier::external_body]
pub(crate) fn text_eq(a: &str, b: &str) -> (r: bool)
    ensures
        r == (a@ == b@),
{
    a == b
}

/// `str::ends_with` with a text as the pattern.
#[verifier::external_body]
pub(crate) fn ends_with(s: &str, suffix: &str) -> (r: bool)
    ensures
        r == has_suffix(s@, suffix@),
{
    s.ends_with(suffix)
}

/// `str::split_once` with a text as the pattern: the parts before and
/// after the first occurrence of the pattern, `None` where it does not
/// occur.
#[verifier::external_body]
pub(crate) fn split_once<'a>(s: &'a str, pattern: &str) -> (r: Option<(&'a str, &'a str)>)
    ensures
        match r {
            Some((before, after)) => {
                &&& occurs_at(s@, pattern@, before@.len() as int)
                &&& forall|j: int| 0 <= j < before@.len() ==> !occurs_at(s@, pattern@, j)
                &&& before@ == s@.take(before@.len() as int)
                &&& after@ == s@.skip((before@.len() + pattern@.len()) as int)
            },
            None => !occurs(s@, pattern@),
        },
{
    s.split_once(pattern)
}

/// The part of a text before the first occurrence of a pattern; the whole
/// text where the pattern does not occur.
pub fn text_before(s: &str, pattern: &str) -> (r: String)
    ensures
        r@ == prefix_before(s@, pattern@),
{
    match split_once(s, pattern) {
        Some((before, _)) => {
            proof {
                let at = before@.len() as int;
                let first = first_occurrence(s@, pattern@);
                assert(occurs_at(s@, pattern@, first) && forall|j: int|
                    0 <= j < first ==> !occurs_at(s@, pattern@, j));
                assert(first == at);
            }
            before.to_owned()
        },
        None => s.to_owned(),
    }
}

/// A copy of a text.
pub fn copy_text(s: &String) -> (r: String)
    ensures
        r@ == s@,
{
    s.clone()
}

/// A copy of an optional text.
pub fn copy_optional_text(s: &Option<String>) -> (r: Option<String>)
    ensures
        r.deep_view() == s.deep_view(),
{
    match s {
        Some(t) => Some(copy_text(t)),
        None => None,
    }
}

/// A copy of a list of texts.
pub fn copy_texts(v: &Vec<String>) -> (r: Vec<String>)
    ensures
        r.deep_view() == v.deep_view(),
{
    let mut out: Vec<String> = Vec::new();
    let mut i: usize = 0;
    while i < v.len()
        invariant
            i <= v.len(),
            out.len() == i,
            forall|j: int| 0 <= j < i ==> out[j]@ == v[j]@,
        decreases v.len() - i,
    {
        out.push(copy_text(&v[i]));
        i = i + 1;
    }
    assert(out.deep_view() =~= v.deep_view());
    out
}

} // verus!
