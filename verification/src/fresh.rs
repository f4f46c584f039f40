//! Fresh identifiers and random choices, drawn from the `uuid` and `rand` crates.
use vstd::prelude::*;
use rand::seq::SliceRandom;

verus! {

/// The version field (bits 76..80) of a UUID in its integer form.
pub open spec fn uuid_version(id: u128) -> u128 {
    (id >> 76u128) & 0xfu128
}

/// The two top bits of the variant field (bits 62..64) of a UUID in its integer form.
pub open spec fn uuid_variant_bits(id: u128) -> u128 {
    (id >> 62u128) & 0x3u128
}

/// A random (version 4, RFC 4122 variant) UUID in its integer form.
pub open spec fn fresh_id(id: u128) -> bool {
    uuid_version(id) == 4 && uuid_variant_bits(id) == 2
}

/// Calls `uuid::Uuid::new_v4` and returns the id in its integer form
/// (`Uuid::as_u128`, big-endian). The bytes are random; the crate sets the
/// version field to 4 and the variant to RFC 4122 (top bits `10`), which is
/// all that is claimed of the result.
#[verifier::external_body]
pub(crate) fn new_v4_id() -> (id: u128)
    ensures
        uuid_version(id) == 4,
        uuid_variant_bits(id) == 2,
{
    uuid::Uuid::new_v4().as_u128()
}

/// Calls `rand::seq::SliceRandom::choose` on `v` with the thread-local
/// generator: `None` exactly when `v` is empty, else one of its elements.
/// Which element is drawn is left unsaid: it is random.
#[verifier::external_body]
pub(crate) fn choose_random(v: &Vec<u128>) -> (r: Option<u128>)
    ensures
        r is None <==> v@.len() == 0,
        r matches Some(x) ==> v@.contains(x),
{
    v.as_slice().choose(&mut rand::thread_rng()).copied()
}

} // verus!
