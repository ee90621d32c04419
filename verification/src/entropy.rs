//! Fresh cryptographic randomness, used both to generate seeds and blinding
//! scalars and to overwrite secret material before a call returns.  Nothing
//! can be promised of a random value, so the contracts state only what holds
//! of every outcome.

use vstd::prelude::*;

use rand::RngCore;

verus! {

/// Relies on rand::thread_rng / RngCore::fill_bytes: fills the buffer with
/// fresh randomness without changing its length.
#[verifier::external_body]
pub(crate) fn fill_random(buf: &mut Vec<u8>)
    ensures
        final(buf)@.len() == old(buf)@.len(),
{
    rand::thread_rng().fill_bytes(buf.as_mut_slice());
}

/// Relies on rand::thread_rng / RngCore::fill_bytes: overwrites all 32 bytes
/// with fresh randomness.
#[verifier::external_body]
pub(crate) fn fill_random_32(buf: &mut [u8; 32])
    ensures
        final(buf)@.len() == 32,
{
    rand::thread_rng().fill_bytes(buf);
}

/// Relies on rand::thread_rng / RngCore::fill_bytes: 32 bytes of fresh
/// randomness.
#[verifier::external_body]
pub(crate) fn random_32() -> (r: [u8; 32])
    ensures
        r@.len() == 32,
{
    let mut buf = [0u8; 32];
    rand::thread_rng().fill_bytes(&mut buf);
    buf
}

} // verus!
