//! The machine's randomness source for the CXNN instruction.

use vstd::prelude::*;

verus! {

/// Relies on rand::random: one byte from the thread-local generator.
/// Nothing is promised of the value; every caller's contract must hold for
/// every byte that could come back.
#[verifier::external_body]
pub(crate) fn random_byte() -> u8 {
    rand::random::<u8>()
}

} // verus!
