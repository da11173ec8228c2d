use vstd::prelude::*;

verus! {

/// Relies on `ulid::Ulid::new` for a fresh identifier (drawn from the clock
/// and a random source), written out by `Ulid::to_string` as its 26
/// Crockford base32 characters.
#[verifier::external_body]
pub(crate) fn generate_unique_id() -> (r: String)
    ensures
        r@.len() == 26,
{
    ulid::Ulid::new().to_string()
}

} // verus!
