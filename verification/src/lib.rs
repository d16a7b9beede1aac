//! A cross-chain message bridge core: nonce-ordered message lanes between two
//! independent ledgers, with storage-proof verification against finalized
//! headers and reward accounting for third-party relayers.
//!
//! The bridge moves opaque payloads over *lanes*. The sending side queues
//! messages on an [`outbound::OutboundLane`]; a relayer carries a storage
//! proof of those messages to the receiving side, whose
//! [`inbound::InboundLane`] enforces strict nonce contiguity and bounded
//! buffering; a proof of the receiving side's lane state then travels back
//! and lets the sender prune delivered messages and credit the relayers.

pub mod chains;
pub mod codec;
pub mod config;
pub mod dispatch;
pub mod header_chain;
pub mod inbound;
pub mod laws;
pub mod outbound;
pub mod protocol;
pub mod rewards;
pub mod storage_proof;
pub mod types;
