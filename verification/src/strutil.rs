//! Thin trusted wrappers around std string operations that vstd gives no
//! specification to.

use vstd::prelude::*;

verus! {

/// Relies on `<str as PartialEq>::eq`: two string slices are equal exactly
/// when their character sequences are equal.
#[verifier::external_body]
pub(crate) fn str_eq(a: &str, b: &str) -> (r: bool)
    ensures
        r == (a@ == b@),
{
    a == b
}

/// Relies on `String::push`: appends one character at the end.
#[verifier::external_body]
pub(crate) fn push_char(s: &mut String, c: char)
    ensures
        final(s)@ == old(s)@.push(c),
{
    s.push(c);
}

} // verus!

verus! {

/// What `str::to_lowercase` returns: a function of the characters alone.
pub uninterp spec fn lower_of(s: Seq<char>) -> Seq<char>;

/// What `str::to_uppercase` returns: a function of the characters alone.
pub uninterp spec fn upper_of(s: Seq<char>) -> Seq<char>;

/// What `char::to_uppercase` returns: a function of the character alone.
pub uninterp spec fn char_upper_of(c: char) -> Seq<char>;

/// Relies on `str::to_lowercase`: the result depends on the characters
/// alone.
#[verifier::external_body]
pub(crate) fn to_lowercase(s: &str) -> (r: String)
    ensures
        r@ == lower_of(s@),
{
    s.to_lowercase()
}

/// Relies on `str::to_uppercase`: the result depends on the characters
/// alone.
#[verifier::external_body]
pub(crate) fn to_uppercase(s: &str) -> (r: String)
    ensures
        r@ == upper_of(s@),
{
    s.to_uppercase()
}

/// Relies on `char::to_uppercase`: the uppercase mapping of one character,
/// collected into a string.
#[verifier::external_body]
pub(crate) fn char_upper(c: char) -> (r: String)
    ensures
        r@ == char_upper_of(c),
{
    c.to_uppercase().to_string()
}

} // verus!
