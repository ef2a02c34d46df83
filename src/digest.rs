//! The XXH3 primitives this library is built on, as provided by `xxhash_rust`.
//!
//! Their algorithms are not restated here: each result is given a name, and
//! the contracts below say what the library relies on over those names.
use vstd::prelude::*;
use xxhash_rust::xxh3::Xxh3;

verus! {

/// The 128-bit XXH3 digest of a byte sequence (default secret, seed 0).
pub uninterp spec fn xxh3_128_of(bytes: Seq<u8>) -> u128;

/// The 128-bit XXH3 digest of a byte sequence under a 64-bit seed.
pub uninterp spec fn xxh3_128_seeded_of(bytes: Seq<u8>, seed: u64) -> u128;

/// The byte stream that has been fed into a streaming hasher so far.
pub uninterp spec fn fed_bytes(h: Xxh3) -> Seq<u8>;

/// Whether a streaming hasher runs with the default secret and seed 0, as
/// one made by `Xxh3::new` does.
pub uninterp spec fn is_default_hasher(h: Xxh3) -> bool;

#[verifier::external_type_specification]
#[verifier::external_body]
pub struct ExXxh3(Xxh3);

/// Relies on `xxhash_rust::xxh3::xxh3_128`: a function of the input bytes alone.
#[verifier::external_body]
pub(crate) fn xxh3_128(bytes: &[u8]) -> (r: u128)
    ensures
        r == xxh3_128_of(bytes@),
{
    xxhash_rust::xxh3::xxh3_128(bytes)
}

/// Relies on `xxhash_rust::xxh3::xxh3_128_with_seed`: a function of the input
/// bytes and the seed alone.
#[verifier::external_body]
pub(crate) fn xxh3_128_with_seed(bytes: &[u8], seed: u64) -> (r: u128)
    ensures
        r == xxh3_128_seeded_of(bytes@, seed),
{
    xxhash_rust::xxh3::xxh3_128_with_seed(bytes, seed)
}

/// Relies on `Xxh3::new`: a fresh hasher with the default secret and seed 0
/// that has been fed nothing.
#[verifier::external_body]
pub(crate) fn new_hasher() -> (r: Xxh3)
    ensures
        fed_bytes(r) == Seq::<u8>::empty(),
        is_default_hasher(r),
{
    Xxh3::new()
}

/// Relies on the derived `Clone` of `Xxh3`: the copy holds the same state.
pub assume_specification[ <Xxh3 as Clone>::clone ](h: &Xxh3) -> (r: Xxh3)
    ensures
        fed_bytes(r) == fed_bytes(*h),
        is_default_hasher(r) == is_default_hasher(*h),
;

/// Relies on `Xxh3::update`: the streaming hasher appends the chunk to the
/// input it digests, and keeps its secret and seed.
#[verifier::external_body]
pub(crate) fn hasher_update(h: &mut Xxh3, bytes: &[u8])
    ensures
        fed_bytes(*final(h)) == fed_bytes(*old(h)) + bytes@,
        is_default_hasher(*final(h)) == is_default_hasher(*old(h)),
{
    h.update(bytes)
}

/// Relies on `Xxh3::digest128`: a hasher made by `Xxh3::new` digests the
/// whole stream fed to it exactly as `xxh3_128` digests it in one piece.
#[verifier::external_body]
pub(crate) fn hasher_digest128(h: &Xxh3) -> (r: u128)
    requires
        is_default_hasher(*h),
    ensures
        r == xxh3_128_of(fed_bytes(*h)),
{
    h.digest128()
}

} // verus!
