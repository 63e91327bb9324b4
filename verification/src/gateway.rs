//! Collaborator boundaries of the relay core.
//!
//! The remote contract gateway performs the network reads and writes, and
//! the signing capability holds the key material. Both are injected by the
//! embedding program; the core states nothing about what they return, and
//! every verified function that consumes their results checks them first.

use vstd::prelude::*;

use crate::codec::Token;
use crate::types::ChainRequestResult;

verus! {

/// A per-chain contract endpoint: read-only calls and signed, state-changing
/// sends against the ledger-manager contract. Implementations live outside
/// the core (an HTTP transport, an in-memory fixture); failures surface as
/// `ChainRequestError::RequestError`.
pub trait Gateway {
    /// Read-only contract call: returns the raw ABI-encoded result bytes.
    fn call(&self, method_signature: &Vec<u8>, args: &Vec<Token>) -> ChainRequestResult<Vec<u8>>;

    /// Builds, signs and submits a state-changing transaction; returns its
    /// 32-byte identifier.
    fn send(
        &self,
        method_signature: &Vec<u8>,
        args: &Vec<Token>,
        gas_limit: Option<u64>,
        gas_price: Option<u64>,
        value: &Vec<u8>,
        nonce: Option<u64>,
        from: &Vec<u8>,
    ) -> ChainRequestResult<Vec<u8>>;
}

/// An injected signer: the core is agnostic to key custody and never asks
/// for more than one signature per logical authorization.
pub trait SigningCapability {
    /// Signs a 32-byte hash, returning a 65-byte recoverable signature;
    /// failures surface as `ChainRequestError::SigningError`.
    fn sign(&self, hash: &Vec<u8>) -> ChainRequestResult<Vec<u8>>;

    /// The 20-byte address of the signing key.
    fn signer_address(&self) -> Vec<u8>;
}

} // verus!
