//! Challenge–response authentication against an SSH agent: the allowlist of
//! authorized keys, the nonce, and the decisions of one authentication attempt.
use vstd::prelude::*;

pub mod attempt;
pub mod keys;
pub mod nonce;

verus! {

/// Why an authentication attempt ended without a decision.
#[derive(Debug, Clone, Copy, PartialEq, Eq, Structural)]
pub enum AuthError {
    /// The arguments do not name exactly one authorized-keys file.
    Config,
    /// The authorized-keys file could not be read, or a line of it is malformed.
    KeyFile,
    /// The agent could not be reached, or did not list its identities.
    AgentConnection,
}

} // verus!
