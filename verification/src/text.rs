//! Comparisons and searches in text.

use vstd::prelude::*;

verus! {

/// The text stands somewhere in the other one.
pub open spec fn occurs(text: Seq<char>, within: Seq<char>) -> bool {
    exists|i: int|
        0 <= i <= within.len() - text.len() && #[trigger] within.subrange(i, i + text.len()) == text
}

/// The text stands at the front of the other one.
pub open spec fn leads(text: Seq<char>, within: Seq<char>) -> bool {
    text.len() <= within.len() && within.take(text.len() as int) == text
}

/// The text stands at the end of the other one.
pub open spec fn trails(text: Seq<char>, within: Seq<char>) -> bool {
    text.len() <= within.len() && within.skip(within.len() - text.len()) == text
}

/// `<str as PartialEq>::eq`: two texts are equal if they have the same
/// characters.
#[verifier::external_body]
pub(crate) fn same(a: &str, b: &str) -> (equal: bool)
    ensures
        equal == (a@ == b@),
{
    a == b
}

/// `str::contains`, with a text to look for.
#[verifier::external_body]
pub(crate) fn has(within: &str, text: &str) -> (found: bool)
    ensures
        found == occurs(text@, within@),
{
    within.contains(text)
}

/// `str::starts_with`, with a text to look for.
#[verifier::external_body]
pub(crate) fn starts(within: &str, text: &str) -> (found: bool)
    ensures
        found == leads(text@, within@),
{
    within.starts_with(text)
}

/// `str::ends_with`, with a text to look for.
#[verifier::external_body]
pub(crate) fn ends(within: &str, text: &str) -> (found: bool)
    ensures
        found == trails(text@, within@),
{
    within.ends_with(text)
}

/// The capital of an ASCII letter; any other character stays as it is.
pub open spec fn capital(c: char) -> char {
    if 'a' <= c <= 'z' {
        (c as int - 32) as char
    } else {
        c
    }
}

/// `str::to_uppercase`, on text in ASCII: each small letter becomes its
/// capital, and nothing else changes.
#[verifier::external_body]
pub(crate) fn upper(text: &str) -> (capitals: String)
    requires
        forall|i: int| 0 <= i < text@.len() ==> (#[trigger] text@[i] as int) < 128,
    ensures
        capitals@ == text@.map_values(|c: char| capital(c)),
{
    text.to_uppercase()
}

} // verus!
