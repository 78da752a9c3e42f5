//! Random bytes of the operating system.
use vstd::prelude::*;

verus! {

/// Calls `getrandom::getrandom`: random bytes, or `None` where the system has none. Nothing holds
/// of the bytes that holds of every outcome.
#[verifier::external_body]
pub(crate) fn random_array<const N: usize>() -> (bytes: Option<[u8; N]>) {
    let mut bytes = [0u8; N];
    match getrandom::getrandom(&mut bytes) {
        Ok(()) => Some(bytes),
        Err(_) => None,
    }
}

} // verus!
