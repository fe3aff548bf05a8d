//! Identifiers that are made up.

use vstd::prelude::*;

verus! {

/// A lower-case hexadecimal digit.
pub open spec fn is_lower_hex(c: char) -> bool {
    '0' <= c <= '9' || 'a' <= c <= 'f'
}

/// The digit that says which layout a UUID has.
pub open spec fn is_variant_digit(c: char) -> bool {
    c == '8' || c == '9' || c == 'a' || c == 'b'
}

/// A random UUID without hyphens.
pub open spec fn is_simple_uuid(s: Seq<char>) -> bool {
    &&& s.len() == 32
    &&& forall|i: int| 0 <= i < s.len() ==> is_lower_hex(#[trigger] s[i])
    &&& s[12] == '4'
    &&& is_variant_digit(s[16])
}

/// Where a UUID has its hyphens.
pub open spec fn is_hyphen_place(i: int) -> bool {
    i == 8 || i == 13 || i == 18 || i == 23
}

/// A random UUID with its hyphens.
pub open spec fn is_uuid(s: Seq<char>) -> bool {
    &&& s.len() == 36
    &&& forall|i: int|
        0 <= i < s.len() ==> if is_hyphen_place(i) {
            #[trigger] s[i] == '-'
        } else {
            is_lower_hex(s[i])
        }
    &&& s[14] == '4'
    &&& is_variant_digit(s[19])
}

/// A new UUID of `uuid::Uuid::new_v4`, written in its `simple` form. Claims its shape:
/// 32 lower-case hexadecimal digits, with those that mark a random UUID in their places.
/// The other digits are left to chance.
#[verifier::external_body]
pub(crate) fn fresh_simple_uuid() -> (r: String)
    ensures
        is_simple_uuid(r@),
{
    uuid::Uuid::new_v4().simple().to_string()
}

/// A new UUID of `uuid::Uuid::new_v4`, written by its `Display`. Claims its shape: groups
/// of 8, 4, 4, 4 and 12 lower-case hexadecimal digits with hyphens between, with those
/// that mark a random UUID in their places. The other digits are left to chance.
#[verifier::external_body]
pub(crate) fn fresh_uuid() -> (r: String)
    ensures
        is_uuid(r@),
{
    uuid::Uuid::new_v4().to_string()
}

} // verus!
