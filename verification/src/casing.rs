//! Upper and lower case over the whole of Unicode.
use vstd::prelude::*;

verus! {

/// A text in lower case.
pub uninterp spec fn unicode_lowercase(s: Seq<char>) -> Seq<char>;

/// A character in upper case, which may take several characters.
pub uninterp spec fn unicode_uppercase(c: char) -> Seq<char>;

/// A character is a letter or a number.
pub uninterp spec fn unicode_alphanumeric(c: char) -> bool;

/// `str::to_lowercase`: Unicode's lower case of a text, a function of the text alone.
#[verifier::external_body]
pub(crate) fn lowercase(s: &str) -> (r: String)
    ensures
        r@ == unicode_lowercase(s@),
{
    s.to_lowercase()
}

/// `char::to_uppercase`: Unicode's upper case of a character, a function of the character alone.
#[verifier::external_body]
pub(crate) fn uppercase(c: char) -> (r: String)
    ensures
        r@ == unicode_uppercase(c),
{
    c.to_uppercase().to_string()
}

/// `char::is_alphanumeric`: Unicode's letters and numbers, a function of the character alone.
#[verifier::external_body]
pub(crate) fn alphanumeric(c: char) -> (r: bool)
    ensures
        r == unicode_alphanumeric(c),
{
    c.is_alphanumeric()
}

} // verus!
