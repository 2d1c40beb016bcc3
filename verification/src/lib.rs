//! A minimal proof-of-work ledger: an append-only chain of blocks, an
//! account-balance state machine derived from it, a mempool with nonce-based
//! admission control, and the message protocol and dispatch logic of a
//! gossip node.

pub mod bytes;
pub mod chain;
pub mod crypto;
pub mod errors;
pub mod hash;
pub mod keys;
pub mod mempool;
pub mod message;
pub mod node;
pub mod state;
pub mod time;
pub mod types;
pub mod util;
pub mod wire;
