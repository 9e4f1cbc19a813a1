//! The challenge that the agent is asked to sign.
use vstd::prelude::*;

verus! {

/// Length in bytes of every challenge.
pub const NONCE_LEN: usize = 1024;

/// Relies on `rand::random::<u8>`: one byte from the thread-local
/// cryptographically secure generator. Nothing is known of its value.
#[verifier::external_body]
fn random_byte() -> (r: u8) {
    rand::random::<u8>()
}

/// A fresh challenge of `NONCE_LEN` random bytes.
pub fn generate_nonce() -> (r: Vec<u8>)
    ensures
        r@.len() == NONCE_LEN,
{
    let mut nonce: Vec<u8> = Vec::with_capacity(NONCE_LEN);
    let mut i: usize = 0;
    while i < NONCE_LEN
        invariant
            i <= NONCE_LEN,
            nonce@.len() == i,
        decreases NONCE_LEN - i,
    {
        nonce.push(random_byte());
        i = i + 1;
    }
    nonce
}

} // verus!
