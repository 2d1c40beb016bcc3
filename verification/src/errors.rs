//! Error taxonomy: transaction shape errors, ledger state errors, mempool
//! admission errors, chain validation errors and wire protocol errors.

use vstd::prelude::*;

verus! {

/// A transaction is malformed: wrong shape or an inconsistent signature.
#[derive(Clone, Copy, Debug, PartialEq, Eq, Structural)]
pub enum TxError {
    EmptyFrom,
    EmptyTo,
    SameFromTo,
    ZeroAmount,
    MemoTooLong,
    SignatureFieldsMismatch,
    FromPubkeyMismatch,
    BadSignature,
}

impl TxError {
    pub fn message(&self) -> &'static str {
        match self {
            TxError::EmptyFrom => "tx.from must be non-empty",
            TxError::EmptyTo => "tx.to must be non-empty",
            TxError::SameFromTo => "tx.from and tx.to must differ",
            TxError::ZeroAmount => "tx.amount must be > 0",
            TxError::MemoTooLong => "tx.memo must be at most 128 chars",
            TxError::SignatureFieldsMismatch => {
                "tx signature fields must be both present or both absent"
            },
            TxError::FromPubkeyMismatch => "signed tx must use from=<pubkey_hex>",
            TxError::BadSignature => "tx signature verification failed",
        }
    }
}

/// A transaction breaks the ledger state rules when applied to a block.
#[derive(Clone, Copy, Debug, PartialEq, Eq, Structural)]
pub enum StateError {
    MisplacedCoinbase,
    InvalidNonce,
    AmountOverflow,
    InsufficientBalance,
}

impl StateError {
    pub fn message(&self) -> &'static str {
        match self {
            StateError::MisplacedCoinbase => {
                "misplaced coinbase (only the first tx in a block may be a coinbase)"
            },
            StateError::InvalidNonce => "Invalid nonce: tx nonce must equal the sender's nonce",
            StateError::AmountOverflow => "Amount + Fee overflow",
            StateError::InsufficientBalance => {
                "Insufficient balance: sender cannot cover amount + fee"
            },
        }
    }
}

/// The mempool refuses a pending transaction.
#[derive(Clone, Copy, Debug, PartialEq, Eq, Structural)]
pub enum AdmissionError {
    Malformed(TxError),
    InvalidNonce,
    DuplicateNonce,
    DuplicateTx,
}

impl AdmissionError {
    pub fn message(&self) -> &'static str {
        match self {
            AdmissionError::Malformed(e) => e.message(),
            AdmissionError::InvalidNonce => {
                "invalid nonce for sender (expected base + pending count)"
            },
            AdmissionError::DuplicateNonce => "duplicate nonce for sender",
            AdmissionError::DuplicateTx => "duplicate tx (same id already pending)",
        }
    }
}

/// Chain-level validation failures: structure, consensus and state.
#[derive(Clone, Copy, Debug, PartialEq, Eq, Structural)]
pub enum ChainError {
    NoBlocks,
    GenesisPrevHash,
    GenesisMerkle,
    State(StateError),
    TxInvalid(TxError),
    Linkage,
    MerkleMismatch,
    Pow,
}

impl ChainError {
    pub fn message(&self) -> &'static str {
        match self {
            ChainError::NoBlocks => "chain has no blocks",
            ChainError::GenesisPrevHash => "genesis prev_hash must be 64 zeros",
            ChainError::GenesisMerkle => "genesis merkle_root mismatch",
            ChainError::State(e) => e.message(),
            ChainError::TxInvalid(e) => e.message(),
            ChainError::Linkage => "block prev_hash mismatch (broken linkage)",
            ChainError::MerkleMismatch => "block merkle_root mismatch",
            ChainError::Pow => "block fails PoW (difficulty not met)",
        }
    }
}

/// Wire protocol failures on a framed message.
#[derive(Clone, Copy, Debug, PartialEq, Eq, Structural)]
pub enum ProtocolError {
    FrameTooLarge,
    Truncated,
    Malformed,
    OversizedPayload,
}

impl ProtocolError {
    pub fn message(&self) -> &'static str {
        match self {
            ProtocolError::FrameTooLarge => "Message too large: declared frame length over cap",
            ProtocolError::Truncated => "message frame truncated",
            ProtocolError::Malformed => "malformed message payload",
            ProtocolError::OversizedPayload => "message payload exceeds the frame limit",
        }
    }
}

} // verus!
