//! The single trusted boundary to the random number generator.

use vstd::prelude::*;

verus! {

/// Relies on rand::random: draws a word from the thread-local generator.
/// Nothing is promised of the result; every caller must cope with every
/// value.
#[verifier::external_body]
pub fn random_u64() -> (r: u64) {
    rand::random::<u64>()
}

} // verus!
