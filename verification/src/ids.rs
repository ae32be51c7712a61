//! Fresh hand identifiers.
use vstd::prelude::*;

verus! {

/// Relies on `uuid::Uuid::new_v4` and its `Display` form: a random
/// version-4 UUID rendered as 36 hyphenated lowercase hex characters.
/// The value is random, so nothing beyond its length is promised.
#[verifier::external_body]
pub(crate) fn fresh_hand_id() -> (r: String)
    ensures
        r@.len() == 36,
{
    uuid::Uuid::new_v4().to_string()
}

} // verus!
