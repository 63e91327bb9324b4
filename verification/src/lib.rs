//! Cross-chain relay core: a binary ABI codec, a structured-data signing
//! pipeline, and the mine/finalize policy of a ledger-bridging client.
//!
//! The relay reads block and nonce state from a remote chain through an
//! injected gateway, decides whether a batch of transactions may be mined
//! (replayed) on the local chain or finalized, and builds the corresponding
//! signed submissions.

pub mod types;
pub mod codec;
pub mod eip712;
pub mod gateway;
pub mod records;
pub mod client;
pub mod service;
pub mod revert;
