//! Randomness, through `rand`.

use rand::RngCore;
use vstd::prelude::*;

verus! {

/// Bytes from `rand`'s thread-local generator (`RngCore::fill_bytes`). Nothing
/// is known of them.
#[verifier::external_body]
pub(crate) fn random_array<const N: usize>() -> [u8; N] {
    let mut bytes = [0u8; N];
    rand::thread_rng().fill_bytes(&mut bytes);
    bytes
}

} // verus!
