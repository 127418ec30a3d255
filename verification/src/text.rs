//! The boundary to std's Unicode case handling.
//!
//! Case folding over the full range of Unicode is defined by large character
//! tables, so the results of std's case functions are only named here, not
//! written out.  Every contract in the crate speaks of these names.

use vstd::prelude::*;

verus! {

/// What `str::to_lowercase` returns for a string with these characters.
pub uninterp spec fn lower_of(s: Seq<char>) -> Seq<char>;

/// What `str::to_uppercase` returns for a string with these characters.
pub uninterp spec fn upper_of(s: Seq<char>) -> Seq<char>;

/// What `char::is_uppercase` returns for this character.
pub uninterp spec fn is_upper_char(c: char) -> bool;

/// Relies on `str::to_lowercase`: the lowercase equivalent per the Unicode
/// tables, a function of the characters alone (no locale is consulted).
#[verifier::external_body]
pub(crate) fn to_lowercase(s: &str) -> (r: String)
    ensures
        r@ == lower_of(s@),
{
    s.to_lowercase()
}

/// Relies on `str::to_uppercase`: the uppercase equivalent per the Unicode
/// tables, a function of the characters alone (no locale is consulted).
#[verifier::external_body]
pub(crate) fn to_uppercase(s: &str) -> (r: String)
    ensures
        r@ == upper_of(s@),
{
    s.to_uppercase()
}

/// Relies on `char::is_uppercase`: the `Uppercase` property of one character
/// per the Unicode tables.
#[verifier::external_body]
pub(crate) fn is_uppercase_char(c: char) -> (r: bool)
    ensures
        r == is_upper_char(c),
{
    c.is_uppercase()
}

/// Relies on `String::push`: appends the given character at the end.
#[verifier::external_body]
pub(crate) fn push_char(s: &mut String, c: char)
    ensures
        final(s)@ == old(s)@.push(c),
{
    s.push(c);
}

} // verus!
