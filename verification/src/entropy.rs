//! The library's only source of randomness.

use vstd::prelude::*;

verus! {

/// Relies on rand::random: a fresh sample from the thread-local generator.
/// Nothing is promised of the value; every caller must cope with any result,
/// and two calls may return different values.
#[verifier::external_body]
pub(crate) fn random_u64() -> u64 {
    rand::random::<u64>()
}

} // verus!
