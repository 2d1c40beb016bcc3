//! The wire message set: a closed tagged union, together with the gossip
//! classification that drives loop suppression.

use vstd::prelude::*;
use crate::chain::{hash_block, spec_block_hash};
use crate::hash::spec_tx_id;
use crate::types::{Block, BlockHeader, Transaction};

verus! {

/// The closed set of peer-to-peer messages.
#[derive(Clone, Debug, PartialEq, Eq)]
pub enum Message {
    Ping,
    Pong,
    GetStatus,
    Status { height: u64, tip_hash: String },
    GetBlocks { start_height: u64 },
    Blocks(Vec<Block>),
    NewTransaction(Transaction),
    NewBlock(Block),
    Inventory { tx_hashes: Vec<String>, block_hashes: Vec<String> },
    GetMempool,
    Handshake { version: u32, best_height: u64 },
    GetHeaders { start_height: u64, limit: u32 },
    Headers(Vec<BlockHeader>),
    GetData { block_hashes: Vec<String> },
    Addr { addrs: Vec<String> },
    GetAddr,
}

/// Whether a message is gossip: only `NewTransaction` and `NewBlock` carry
/// an id and are re-broadcast.
pub open spec fn spec_is_gossip(m: Message) -> bool {
    m is NewTransaction || m is NewBlock
}

/// The loop-suppression id a gossip message carries: the transaction's id
/// or the block's hash.
pub open spec fn spec_gossip_id(m: Message) -> Option<Seq<char>> {
    match m {
        Message::NewTransaction(tx) => Some(spec_tx_id(tx)),
        Message::NewBlock(b) => Some(spec_block_hash(b.header, b.txs@)),
        _ => None,
    }
}

impl Message {
    /// The hard cap on a declared frame length.
    pub fn size_limit() -> (r: usize)
        ensures
            r == 15728640,
    {
        15 * 1024 * 1024
    }

    /// Whether the message is gossip-classified.
    pub fn is_gossip(&self) -> (r: bool)
        ensures
            r == spec_is_gossip(*self),
    {
        match self {
            Message::NewTransaction(_) => true,
            Message::NewBlock(_) => true,
            _ => false,
        }
    }

    /// The unique id of a gossip message, used to suppress re-broadcast
    /// loops; `None` for every other message.
    pub fn gossip_id(&self) -> (r: Option<String>)
        ensures
            r is Some <==> spec_gossip_id(*self) is Some,
            r matches Some(s) ==> spec_gossip_id(*self) == Some(s@),
    {
        match self {
            Message::NewTransaction(tx) => Some(tx.id()),
            Message::NewBlock(block) => Some(hash_block(block)),
            _ => None,
        }
    }

    /// The variant's name.
    pub fn get_type_name(&self) -> (r: &'static str)
        ensures
            match self {
                Message::Ping => r@ == "Ping"@,
                Message::Pong => r@ == "Pong"@,
                Message::GetStatus => r@ == "GetStatus"@,
                Message::Status { .. } => r@ == "Status"@,
                Message::GetBlocks { .. } => r@ == "GetBlocks"@,
                Message::Blocks(_) => r@ == "Blocks"@,
                Message::NewTransaction(_) => r@ == "NewTransaction"@,
                Message::NewBlock(_) => r@ == "NewBlock"@,
                Message::Inventory { .. } => r@ == "Inventory"@,
                Message::GetMempool => r@ == "GetMempool"@,
                Message::Handshake { .. } => r@ == "Handshake"@,
                Message::GetHeaders { .. } => r@ == "GetHeaders"@,
                Message::Headers(_) => r@ == "Headers"@,
                Message::GetData { .. } => r@ == "GetData"@,
                Message::Addr { .. } => r@ == "Addr"@,
                Message::GetAddr => r@ == "GetAddr"@,
            },
    {
        match self {
            Message::Ping => "Ping",
            Message::Pong => "Pong",
            Message::GetStatus => "GetStatus",
            Message::Status { .. } => "Status",
            Message::GetBlocks { .. } => "GetBlocks",
            Message::Blocks(_) => "Blocks",
            Message::NewTransaction(_) => "NewTransaction",
            Message::NewBlock(_) => "NewBlock",
            Message::Inventory { .. } => "Inventory",
            Message::GetMempool => "GetMempool",
            Message::Handshake { .. } => "Handshake",
            Message::GetHeaders { .. } => "GetHeaders",
            Message::Headers(_) => "Headers",
            Message::GetData { .. } => "GetData",
            Message::Addr { .. } => "Addr",
            Message::GetAddr => "GetAddr",
        }
    }
}

} // verus!
