//! Unicode character properties and case folding, reached through the
//! standard library.  Each is a function of its input alone; the
//! property tables themselves are not restated here.

use vstd::prelude::*;

verus! {

/// Whether `char::is_uppercase` holds of the character.
pub uninterp spec fn uppercase_of(c: char) -> bool;

/// Whether `char::is_lowercase` holds of the character.
pub uninterp spec fn lowercase_of(c: char) -> bool;

/// Whether `char::is_numeric` holds of the character.
pub uninterp spec fn numeric_of(c: char) -> bool;

/// The full Unicode lowercasing of a string, as `str::to_lowercase`
/// computes it.
pub uninterp spec fn lower_of(s: Seq<char>) -> Seq<char>;

/// Relies on `char::is_uppercase`: the Uppercase property of the
/// character.
#[verifier::external_body]
pub fn char_is_uppercase(c: char) -> (r: bool)
    ensures
        r == uppercase_of(c),
{
    c.is_uppercase()
}

/// Relies on `char::is_lowercase`: the Lowercase property of the
/// character.
#[verifier::external_body]
pub fn char_is_lowercase(c: char) -> (r: bool)
    ensures
        r == lowercase_of(c),
{
    c.is_lowercase()
}

/// Relies on `char::is_numeric`: the numeric general categories of the
/// character.
#[verifier::external_body]
pub fn char_is_numeric(c: char) -> (r: bool)
    ensures
        r == numeric_of(c),
{
    c.is_numeric()
}

/// Relies on `str::to_lowercase`: the Unicode lowercase mapping of the
/// whole string; an empty string stays empty.
#[verifier::external_body]
pub fn to_lowercase(s: &str) -> (r: String)
    ensures
        r@ == lower_of(s@),
        s@.len() == 0 ==> r@.len() == 0,
{
    s.to_lowercase()
}

} // verus!
