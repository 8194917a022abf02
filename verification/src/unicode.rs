use vstd::prelude::*;

verus! {

/// What `str::to_lowercase` gives for a string: the lowercase mapping of the Unicode
/// character database, applied with its context rules (such as the final sigma).
pub uninterp spec fn lowercase(s: Seq<char>) -> Seq<char>;

/// What `char::is_alphanumeric` says of a character: whether it has the Unicode
/// `Alphabetic` property or a numeric general category.
pub uninterp spec fn alphanumeric(c: char) -> bool;

/// Calls `str::to_lowercase`. Trusted: the result is the lowercase form that std computes
/// from `s` alone; what that form is, character by character, is not stated here.
#[verifier::external_body]
pub(crate) fn to_lowercase(s: &str) -> (r: String)
    ensures
        r@ == lowercase(s@),
{
    s.to_lowercase()
}

/// Calls `char::is_alphanumeric`. Trusted: the answer depends on `c` alone; which
/// characters the Unicode tables count is not stated here.
#[verifier::external_body]
pub(crate) fn is_alphanumeric(c: char) -> (b: bool)
    ensures
        b == alphanumeric(c),
{
    c.is_alphanumeric()
}

} // verus!
