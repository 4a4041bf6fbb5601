//! The process-wide cryptographically secure random source, used for KEXINIT
//! cookies and packet padding.

use rand::RngCore;
use vstd::prelude::*;

verus! {

/// Relies on `rand::rng()` and `rand_core::RngCore::fill_bytes`: fills the
/// buffer with bytes from the thread-local CSPRNG. Nothing is assumed of the
/// values themselves, only the length of what comes back.
#[verifier::external_body]
pub(crate) fn random_bytes(n: usize) -> (r: Vec<u8>)
    ensures
        r@.len() == n,
{
    let mut buf = vec![0u8; n];
    rand::rng().fill_bytes(&mut buf);
    buf
}

/// A fresh 16-byte KEXINIT cookie.
pub fn fresh_cookie() -> (r: Vec<u8>)
    ensures
        r@.len() == 16,
{
    random_bytes(16)
}

} // verus!
