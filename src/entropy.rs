//! Random values drawn from the `rand` crate. Nothing is promised of them
//! beyond their range: callers take what comes back as given. All three
//! use the thread-local generator, which panics only when the operating
//! system's random source cannot seed it.
use vstd::prelude::*;
use rand::Rng;

verus! {

/// Relies on `rand::random::<u64>`: a uniformly drawn 64-bit value, used as
/// a fresh record identifier.
#[verifier::external_body]
pub(crate) fn random_id() -> (r: u64) {
    rand::random::<u64>()
}

/// Relies on `rand::Rng::gen_range` over `1000..9999` on the thread-local
/// generator: a block seal in that half-open range.
#[verifier::external_body]
pub(crate) fn random_seal() -> (r: u64)
    ensures
        1000 <= r < 9999,
{
    rand::thread_rng().gen_range(1000u64..9999u64)
}

/// Relies on `rand::Rng::gen_range` over `0..10000` on the thread-local
/// generator: padding noise of less than 0.01 in fixed-point millionths.
#[verifier::external_body]
pub(crate) fn random_jitter() -> (r: i64)
    ensures
        0 <= r < 10000,
{
    rand::thread_rng().gen_range(0i64..10000i64)
}

} // verus!
