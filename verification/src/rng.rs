//! Trusted boundary to the outside `rand` crate.
//!
//! All randomness the harness consumes comes through these two draws; the
//! verified code takes the drawn values as arguments and is proved for every
//! value of them.

use vstd::prelude::*;

verus! {

/// Relies on rand::random: one byte drawn from the thread-local generator.
/// Nothing is promised of the value.
#[verifier::external_body]
pub(crate) fn random_u8() -> u8 {
    rand::random::<u8>()
}

/// Relies on rand::random: one boolean drawn from the thread-local generator.
/// Nothing is promised of the value.
#[verifier::external_body]
pub(crate) fn random_bool() -> bool {
    rand::random::<bool>()
}

/// Relies on rand::Rng::gen_range: a draw from the half-open range, which is
/// documented to fall inside it; an empty range panics and is excluded.
#[verifier::external_body]
pub(crate) fn random_index(low: usize, high: usize) -> (r: usize)
    requires
        low < high,
    ensures
        low <= r < high,
{
    rand::Rng::gen_range(&mut rand::thread_rng(), low..high)
}

} // verus!
