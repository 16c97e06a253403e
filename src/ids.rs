//! Random identifiers and their textual form, from the `uuid` crate.

use vstd::prelude::*;

verus! {

/// Whether `uuid::Uuid::parse_str` accepts `s`.
pub uninterp spec fn uuid_accepts(s: Seq<char>) -> bool;

/// Relies on `uuid::Uuid::parse_str`: whether `s` is a UUID in one of the
/// textual forms the crate reads.
#[verifier::external_body]
pub(crate) fn uuid_parses(s: &str) -> (r: bool)
    ensures
        r == uuid_accepts(s@),
{
    uuid::Uuid::parse_str(s).is_ok()
}

/// Relies on `uuid::Uuid::new_v4` and its `Display`: a random UUID in the
/// 36-character hyphenated form, which `Uuid::parse_str` reads back.
#[verifier::external_body]
pub(crate) fn random_uuid_text() -> (r: String)
    ensures
        r@.len() == 36,
        uuid_accepts(r@),
{
    uuid::Uuid::new_v4().to_string()
}

/// Relies on `uuid::Uuid::new_v4` and the `Display` of its URN form: a random
/// token `urn:uuid:` followed by a hyphenated UUID, 45 characters in all.
#[verifier::external_body]
pub(crate) fn random_urn() -> (r: String)
    ensures
        r@.len() == 45,
{
    uuid::Uuid::new_v4().urn().to_string()
}

} // verus!
