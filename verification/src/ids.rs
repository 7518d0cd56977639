//! Fresh identifier generation.  Randomness comes from the `uuid` crate;
//! everything stated here holds of every draw.

use vstd::prelude::*;
use crate::text::is_lower_hex_char;

verus! {

/// Whether `s` has the shape of a simple (unhyphenated) UUID rendering:
/// 32 lowercase hexadecimal digits.
pub open spec fn is_simple_uuid(s: Seq<char>) -> bool {
    s.len() == 32 && forall|i: int| 0 <= i < s.len() ==> is_lower_hex_char(#[trigger] s[i])
}

/// Whether `s` has the shape of a hyphenated UUID rendering: 36 characters,
/// hyphens exactly at positions 8, 13, 18 and 23, lowercase hexadecimal
/// digits elsewhere.
pub open spec fn is_hyphenated_uuid(s: Seq<char>) -> bool {
    &&& s.len() == 36
    &&& forall|i: int|
        0 <= i < s.len() ==> (if i == 8 || i == 13 || i == 18 || i == 23 {
            s[i] == '-'
        } else {
            is_lower_hex_char(#[trigger] s[i])
        })
}

/// Relies on `uuid::Uuid::new_v4` and the simple formatter: a fresh random
/// UUID rendered as 32 lowercase hexadecimal digits.
#[verifier::external_body]
pub fn fresh_uuid_simple() -> (r: String)
    ensures
        is_simple_uuid(r@),
{
    uuid::Uuid::new_v4().simple().to_string()
}

/// Relies on `uuid::Uuid::new_v4` and the default (hyphenated) formatter:
/// a fresh random UUID rendered as 36 characters in the 8-4-4-4-12 shape.
#[verifier::external_body]
pub fn fresh_uuid_hyphenated() -> (r: String)
    ensures
        is_hyphenated_uuid(r@),
{
    uuid::Uuid::new_v4().to_string()
}

} // verus!
