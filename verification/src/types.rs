//! Domain records of the relay and the error kinds its operations surface.

use vstd::prelude::*;

verus! {

/// Latest relay-visible block header on a chain. The nonce is a strictly
/// increasing sequence counter per chain indexing relay-visible blocks.
#[derive(Clone, Copy, PartialEq, Eq, Structural, Debug)]
pub struct QpLocalBlock {
    pub chain_id: u64,
    pub nonce: u64,
    pub timestamp: u64,
}

/// Record of a block mined (replayed) on a destination chain. A `block_hash`
/// equal to the all-zero sentinel means "not yet mined".
#[derive(Clone, PartialEq, Eq, Debug)]
pub struct QpRemoteBlock {
    /// 32-byte hash of the mined block.
    pub block_hash: Vec<u8>,
    /// 20-byte address of the miner.
    pub miner: Vec<u8>,
    /// 32-byte big-endian unsigned 256-bit stake.
    pub stake: Vec<u8>,
    /// 32-byte big-endian unsigned 256-bit total value.
    pub total_value: Vec<u8>,
    pub block_metadata: QpLocalBlock,
}

impl QpRemoteBlock {
    pub open spec fn wf(&self) -> bool {
        &&& self.block_hash@.len() == 32
        &&& self.miner@.len() == 20
        &&& self.stake@.len() == 32
        &&& self.total_value@.len() == 32
    }
}

/// One bridged operation inside a block.
#[derive(Clone, PartialEq, Eq, Debug)]
pub struct QpTransaction {
    pub timestamp: u64,
    /// 20-byte address of the remote contract.
    pub remote_contract: Vec<u8>,
    /// 20-byte address of the original message sender.
    pub source_msg_sender: Vec<u8>,
    /// 20-byte address of the beneficiary.
    pub source_beneficiary: Vec<u8>,
    /// 20-byte address of the token contract.
    pub token: Vec<u8>,
    /// 32-byte big-endian unsigned 256-bit amount.
    pub amount: Vec<u8>,
    /// Variable-length method payload.
    pub method: Vec<u8>,
    pub gas: u64,
}

impl QpTransaction {
    pub open spec fn wf(&self) -> bool {
        &&& self.remote_contract@.len() == 20
        &&& self.source_msg_sender@.len() == 20
        &&& self.source_beneficiary@.len() == 20
        &&& self.token@.len() == 20
        &&& self.amount@.len() == 32
    }
}

/// Immutable per-chain configuration from which a structured-data domain
/// separator is derived.
#[derive(Clone, PartialEq, Eq, Debug)]
pub struct EIP712Config {
    pub contract_name: Vec<u8>,
    pub contract_version: Vec<u8>,
    /// 20-byte address of the verifying contract.
    pub verifying_address: Vec<u8>,
}

impl EIP712Config {
    pub open spec fn wf(&self) -> bool {
        self.verifying_address@.len() == 20
    }
}

/// Failure of a decode against a declared type schema.
#[derive(Clone, Copy, PartialEq, Eq, Structural, Debug)]
pub enum DecodeError {
    /// The buffer is not exactly an encoding matching the schema (wrong
    /// arity, wrong width, malformed length, or trailing data).
    SchemaMismatch,
}

/// Error kinds surfaced by relay operations.
#[derive(Clone, Copy, PartialEq, Eq, Structural, Debug)]
pub enum ChainRequestError {
    /// A response could not be decoded against its schema.
    DecodeError,
    /// A gateway call or send failed (network or node-side revert).
    RequestError,
    /// A mine raced with another relayer: the target slot already holds a
    /// non-zero block hash.
    RemoteBlockAlreadyMined,
    /// The injected signer was unavailable or returned an unusable signature.
    SigningError,
}

pub type ChainRequestResult<T> = Result<T, ChainRequestError>;

/// Handle correlating a submitted mine/finalize transaction with the chain
/// pair it was issued for.
#[derive(Clone, PartialEq, Eq, Debug)]
pub struct PendingTransaction {
    pub remote_chain_id: u64,
    pub local_chain_id: u64,
    /// 32-byte identifier returned by the gateway for the submission.
    pub tx_id: Vec<u8>,
}

} // verus!
