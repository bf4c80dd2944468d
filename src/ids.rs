//! Fresh identifiers for cells and materialized threats.

use vstd::prelude::*;

verus! {

/// Length of the textual form of a generated identifier.
pub const ID_LEN: usize = 36;

/// Relies on `uuid::Uuid::new_v4` and the `Display` impl of `uuid::Uuid`:
/// a random version-4 identifier, rendered in hyphenated form (36 characters).
#[verifier::external_body]
pub(crate) fn fresh_id() -> (r: String)
    ensures
        r@.len() == ID_LEN,
{
    uuid::Uuid::new_v4().to_string()
}

} // verus!
