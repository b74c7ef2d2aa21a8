//! What the logic asks of the soroban host: the SHA-256 digest of a code.

use soroban_sdk::{Bytes, Env};
use vstd::prelude::*;

verus! {

/// The soroban environment, a handle on the host. Opaque here: it is only
/// handed through to the host's hash function.
#[verifier::external_type_specification]
#[verifier::external_body]
pub struct ExEnv(Env);

/// The SHA-256 digest of `data`, as the soroban host computes it.
pub uninterp spec fn sha256_digest(data: Seq<u8>) -> Seq<u8>;

/// Copies `data` into host bytes with `soroban_sdk::Bytes::from_slice` and
/// hashes them with `soroban_sdk::crypto::Crypto::sha256`. Claimed: the result
/// is the 32-byte digest of `data`, a function of `data` alone. Not claimed:
/// that the call returns, since the host traps once the environment's
/// resource budget is spent; that budget is state of `env` and not stated.
#[verifier::external_body]
pub(crate) fn sha256(env: &Env, data: &[u8]) -> (digest: [u8; 32])
    ensures
        digest@ == sha256_digest(data@),
{
    let bytes = Bytes::from_slice(env, data);
    env.crypto().sha256(&bytes).to_array()
}

} // verus!
