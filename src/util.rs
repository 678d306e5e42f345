//! Clock and random source.

use vstd::prelude::*;

use aes_gcm::aead::rand_core::RngCore;
use aes_gcm::aead::OsRng;

verus! {

/// Relies on `std::time::SystemTime::now` and `duration_since(UNIX_EPOCH)`:
/// the current wall-clock time in whole seconds since the Unix epoch. A clock
/// set before the epoch reads as 0, and one past `i64::MAX` seconds as
/// `i64::MAX`; so the reading is never negative.
#[verifier::external_body]
pub fn timestamp() -> (r: i64)
    ensures
        r >= 0,
{
    std::time::SystemTime::now()
        .duration_since(std::time::UNIX_EPOCH)
        .map(|d| i64::try_from(d.as_secs()).unwrap_or(i64::MAX))
        .unwrap_or(0)
}

/// Relies on `OsRng::fill_bytes` (rand_core, through aes_gcm): overwrites every
/// byte of `buf` with bytes from the operating system's secure random source.
/// Only the length is known afterwards.
#[verifier::external_body]
pub fn fill_bytes(buf: &mut Vec<u8>)
    ensures
        final(buf)@.len() == old(buf)@.len(),
{
    OsRng.fill_bytes(buf.as_mut_slice());
}

/// A fresh vector of `len` random bytes.
pub fn random_bytes(len: usize) -> (r: Vec<u8>)
    ensures
        r@.len() == len,
{
    let mut v: Vec<u8> = vec![0u8; len];
    fill_bytes(&mut v);
    v
}

} // verus!
