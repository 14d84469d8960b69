//! The running XXH64 state of a frame, kept by `twox_hash`.
//!
//! Nothing here is proved: these are the statements about `twox_hash` that
//! the rest of the crate relies on.

use vstd::prelude::*;
use twox_hash::XxHash64;

verus! {

/// `twox_hash::XxHash64`, the state of a running XXH64 digest. Nothing of
/// its inside is known here.
#[verifier::external_type_specification]
#[verifier::external_body]
pub struct ExXxHash64(XxHash64);

/// The seed that a hasher was made with.
pub uninterp spec fn hasher_seed(hasher: XxHash64) -> u64;

/// All the bytes that a hasher has been given since it was made, in order.
pub uninterp spec fn hasher_input(hasher: XxHash64) -> Seq<u8>;

/// The XXH64 digest of `data` under `seed`.
pub uninterp spec fn xxh64(seed: u64, data: Seq<u8>) -> u64;

/// `XxHash64::with_seed`: a hasher that remembers its seed and has been
/// given no bytes yet.
#[verifier::external_body]
pub(crate) fn hasher_with_seed(seed: u64) -> (hasher: XxHash64)
    ensures
        hasher_seed(hasher) == seed,
        hasher_input(hasher) == Seq::<u8>::empty(),
{
    XxHash64::with_seed(seed)
}

/// `Hasher::write` of `XxHash64`: the bytes are added behind those that the
/// hasher has been given before. The hasher counts its input in a `u64`, so
/// the count must not pass `u64::MAX`.
#[verifier::external_body]
pub(crate) fn hasher_write(hasher: &mut XxHash64, bytes: &[u8])
    requires
        hasher_input(*old(hasher)).len() + bytes@.len() <= u64::MAX,
    ensures
        hasher_seed(*final(hasher)) == hasher_seed(*old(hasher)),
        hasher_input(*final(hasher)) == hasher_input(*old(hasher)) + bytes@,
{
    core::hash::Hasher::write(hasher, bytes)
}

/// `Hasher::finish` of `XxHash64`: the digest of everything the hasher has
/// been given, under its seed. It depends on the bytes alone, not on how
/// they were split over the calls of `write`.
#[verifier::external_body]
pub(crate) fn hasher_finish(hasher: &XxHash64) -> (digest: u64)
    ensures
        digest == xxh64(hasher_seed(*hasher), hasher_input(*hasher)),
{
    core::hash::Hasher::finish(hasher)
}

/// `XxHash64::total_len`: the number of bytes that the hasher has been
/// given.
#[verifier::external_body]
pub(crate) fn hasher_total_len(hasher: &XxHash64) -> (len: u64)
    ensures
        len == hasher_input(*hasher).len(),
{
    hasher.total_len()
}

/// `Clone::clone` of `XxHash64`: a second hasher with the same seed that
/// has been given the same bytes.
#[verifier::external_body]
pub(crate) fn hasher_clone(hasher: &XxHash64) -> (copy: XxHash64)
    ensures
        hasher_seed(copy) == hasher_seed(*hasher),
        hasher_input(copy) == hasher_input(*hasher),
{
    hasher.clone()
}

} // verus!
