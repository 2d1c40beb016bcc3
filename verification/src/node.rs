//! The node's shared state and its message dispatch: the peer table, the
//! seen-set for gossip loop suppression, the live chain and mempool, and
//! the decision logic for every inbound message. The runtime around it
//! owns sockets and mailboxes and performs the returned actions.

use vstd::prelude::*;
use vstd::string::StringExecFns;
use crate::chain::{
    hash_block, spec_append_check, spec_block_hash, spec_chain_next_nonce, Chain,
};
use crate::hash::{spec_tx_id, tx_hash};
use crate::mempool::{spec_admit, spec_contains_id, spec_first_id_index, Mempool};
use crate::message::{spec_gossip_id, spec_is_gossip, Message};
use crate::types::{Block, BlockHeader, Transaction};
use crate::util::str_eq;

verus! {

/// A command for a peer session's writer duty.
#[derive(Debug)]
pub enum PeerCmd {
    SendMessage(Message),
}

/// An outward effect the dispatch decided on; the session runtime performs
/// it: a reply to one peer, or gossip to every peer but the origin.
#[derive(Debug)]
pub enum Action {
    SendTo(String, Message),
    BroadcastExcept(String, Message),
}

/// Shared node state for concurrent peer handling, kept under one exclusive
/// lock by the runtime.
#[derive(Debug)]
pub struct NodeState {
    pub peers: Vec<String>,
    pub seen_messages: Vec<String>,
    pub chain: Chain,
    pub mempool: Mempool,
}

/// Whether a gossip id is in the seen-set.
pub open spec fn spec_seen(seen: Seq<String>, id: Seq<char>) -> bool {
    exists|j: int| 0 <= j < seen.len() && (#[trigger] seen[j])@ == id
}

/// Whether an address is in the peer table.
pub open spec fn spec_has_peer(peers: Seq<String>, addr: Seq<char>) -> bool {
    exists|j: int| 0 <= j < peers.len() && (#[trigger] peers[j])@ == addr
}

/// Two chains with the same difficulty and the same blocks.
pub open spec fn chain_same(a: Chain, b: Chain) -> bool {
    a.pow_difficulty == b.pow_difficulty && a.blocks@ == b.blocks@
}

/// Two node states that agree on everything observable.
pub open spec fn node_same(a: NodeState, b: NodeState) -> bool {
    a.peers@ == b.peers@ && a.seen_messages@ == b.seen_messages@ && chain_same(a.chain, b.chain)
        && a.mempool.txs@ == b.mempool.txs@
}

/// The seen-set of `b` is that of `a` plus one entry carrying `id`.
pub open spec fn seen_extended(a: NodeState, b: NodeState, id: Seq<char>) -> bool {
    b.seen_messages@.len() == a.seen_messages@.len() + 1 && (forall|j: int|
        0 <= j < a.seen_messages@.len() ==> b.seen_messages@[j] == a.seen_messages@[j])
        && b.seen_messages@.last()@ == id
}

/// The pool after removing, in order, the first pending transaction whose
/// id matches each of `txs[i..]`.
pub open spec fn spec_remove_ids(
    pool: Seq<Transaction>,
    txs: Seq<Transaction>,
    i: int,
) -> Seq<Transaction>
    decreases txs.len() - i,
{
    if i < 0 || i >= txs.len() {
        pool
    } else {
        let id = spec_tx_id(txs[i]);
        let pool2 = if spec_contains_id(pool, id) {
            pool.remove(spec_first_id_index(pool, id))
        } else {
            pool
        };
        spec_remove_ids(pool2, txs, i + 1)
    }
}

/// The first block with the given hash, if any.
pub open spec fn spec_find_block(blocks: Seq<Block>, h: Seq<char>) -> Option<Block>
    decreases blocks.len(),
{
    if blocks.len() == 0 {
        None
    } else if spec_block_hash(blocks[0].header, blocks[0].txs@) == h {
        Some(blocks[0])
    } else {
        spec_find_block(blocks.drop_first(), h)
    }
}

/// The locally known blocks matching the requested hashes, in request
/// order, unknown hashes skipped.
pub open spec fn spec_blocks_for(blocks: Seq<Block>, hashes: Seq<String>) -> Seq<Block>
    decreases hashes.len(),
{
    if hashes.len() == 0 {
        Seq::<Block>::empty()
    } else {
        let rest = spec_blocks_for(blocks, hashes.drop_last());
        match spec_find_block(blocks, hashes.last()@) {
            Some(b) => rest.push(b),
            None => rest,
        }
    }
}

/// Element-wise agreement of blocks on header and transactions.
pub open spec fn blocks_sim(a: Seq<Block>, b: Seq<Block>) -> bool {
    a.len() == b.len() && forall|k: int|
        0 <= k < a.len() ==> (#[trigger] a[k]).header == b[k].header && a[k].txs@ == b[k].txs@
}

/// The header slice a `GetHeaders{start, limit}` request is owed: up to
/// `limit` consecutive headers starting at `start`, empty when out of
/// range.
pub open spec fn headers_slice_ok(
    blocks: Seq<Block>,
    start: u64,
    limit: u32,
    hs: Seq<BlockHeader>,
) -> bool {
    &&& hs.len() == if start >= blocks.len() {
        0int
    } else if blocks.len() - start >= limit {
        limit as int
    } else {
        blocks.len() - start
    }
    &&& forall|j: int| 0 <= j < hs.len() ==> hs[j] == blocks[start + j].header
}

proof fn lemma_find_block_at(blocks: Seq<Block>, i: int)
    requires
        0 <= i < blocks.len(),
        forall|j: int|
            0 <= j < i ==> spec_block_hash(
                (#[trigger] blocks[j]).header,
                blocks[j].txs@,
            ) != spec_block_hash(blocks[i].header, blocks[i].txs@),
    ensures
        spec_find_block(blocks, spec_block_hash(blocks[i].header, blocks[i].txs@)) == Some(
            blocks[i],
        ),
    decreases i,
{
    if i > 0 {
        assert forall|j: int| 0 <= j < i - 1 implies spec_block_hash(
            (#[trigger] blocks.drop_first()[j]).header,
            blocks.drop_first()[j].txs@,
        ) != spec_block_hash(blocks.drop_first()[i - 1].header, blocks.drop_first()[i - 1].txs@)
        by {
            assert(blocks.drop_first()[j] == blocks[j + 1]);
            assert(blocks.drop_first()[i - 1] == blocks[i]);
        }
        assert(blocks.drop_first()[i - 1] == blocks[i]);
        lemma_find_block_at(blocks.drop_first(), i - 1);
    }
}

proof fn lemma_find_block_none(blocks: Seq<Block>, h: Seq<char>)
    requires
        forall|j: int|
            0 <= j < blocks.len() ==> spec_block_hash(
                (#[trigger] blocks[j]).header,
                blocks[j].txs@,
            ) != h,
    ensures
        spec_find_block(blocks, h) is None,
    decreases blocks.len(),
{
    if blocks.len() > 0 {
        lemma_find_block_none(blocks.drop_first(), h);
    }
}

impl NodeState {
    /// A node state owning the given chain and mempool, with no peers and
    /// an empty seen-set.
    pub fn new(chain: Chain, mempool: Mempool) -> (r: NodeState)
        ensures
            r.peers@.len() == 0,
            r.seen_messages@.len() == 0,
            chain_same(r.chain, chain),
            r.mempool.txs@ == mempool.txs@,
    {
        NodeState { peers: Vec::new(), seen_messages: Vec::new(), chain, mempool }
    }

    /// Whether a gossip id was already seen.
    pub fn is_seen(&self, id: &str) -> (r: bool)
        ensures
            r == spec_seen(self.seen_messages@, id@),
    {
        let mut i: usize = 0;
        while i < self.seen_messages.len()
            invariant
                i <= self.seen_messages@.len(),
                forall|j: int| 0 <= j < i ==> (#[trigger] self.seen_messages@[j])@ != id@,
            decreases self.seen_messages@.len() - i,
        {
            if str_eq(self.seen_messages[i].as_str(), id) {
                return true;
            }
            i = i + 1;
        }
        false
    }

    /// Atomically test-and-insert a gossip id; true exactly when it was
    /// new. The rest of the state is untouched.
    pub fn mark_seen(&mut self, id: String) -> (r: bool)
        ensures
            r == !spec_seen(old(self).seen_messages@, id@),
            final(self).peers@ == old(self).peers@,
            chain_same(final(self).chain, old(self).chain),
            final(self).mempool.txs@ == old(self).mempool.txs@,
            r ==> final(self).seen_messages@ == old(self).seen_messages@.push(id),
            !r ==> final(self).seen_messages@ == old(self).seen_messages@,
    {
        if self.is_seen(id.as_str()) {
            return false;
        }
        self.seen_messages.push(id);
        true
    }

    /// How many peers are registered.
    pub fn get_peer_count(&self) -> (r: usize)
        ensures
            r == self.peers@.len(),
    {
        self.peers.len()
    }

    /// The position of a peer address, if registered; the first match.
    pub fn peer_index(&self, addr: &str) -> (r: Option<usize>)
        ensures
            match r {
                Some(i) => i < self.peers@.len() && (self.peers@[i as int])@ == addr@,
                None => !spec_has_peer(self.peers@, addr@),
            },
    {
        let mut i: usize = 0;
        while i < self.peers.len()
            invariant
                i <= self.peers@.len(),
                forall|j: int| 0 <= j < i ==> (#[trigger] self.peers@[j])@ != addr@,
            decreases self.peers@.len() - i,
        {
            if str_eq(self.peers[i].as_str(), addr) {
                return Some(i);
            }
            i = i + 1;
        }
        None
    }

    /// Register a session's address; true when newly added (the runtime
    /// then adds the matching mailbox at the same position).
    pub fn register_peer(&mut self, addr: String) -> (r: bool)
        ensures
            r == !spec_has_peer(old(self).peers@, addr@),
            final(self).seen_messages@ == old(self).seen_messages@,
            chain_same(final(self).chain, old(self).chain),
            final(self).mempool.txs@ == old(self).mempool.txs@,
            r ==> final(self).peers@ == old(self).peers@.push(addr),
            !r ==> final(self).peers@ == old(self).peers@,
    {
        match self.peer_index(addr.as_str()) {
            Some(_) => {
                proof {
                    assert(spec_has_peer(self.peers@, addr@));
                }
                false
            },
            None => {
                self.peers.push(addr);
                true
            },
        }
    }

    /// Deregister a session's address; the removed position is handed back
    /// so the runtime can drop the matching mailbox.
    pub fn deregister_peer(&mut self, addr: &str) -> (r: Option<usize>)
        ensures
            final(self).seen_messages@ == old(self).seen_messages@,
            chain_same(final(self).chain, old(self).chain),
            final(self).mempool.txs@ == old(self).mempool.txs@,
            match r {
                Some(i) => i < old(self).peers@.len() && (old(self).peers@[i as int])@ == addr@
                    && final(self).peers@ == old(self).peers@.remove(i as int),
                None => !spec_has_peer(old(self).peers@, addr@) && final(self).peers@ == old(
                    self,
                ).peers@,
            },
    {
        match self.peer_index(addr) {
            Some(i) => {
                self.peers.remove(i);
                Some(i)
            },
            None => None,
        }
    }

    /// Up to `limit` consecutive headers starting at height `start_height`;
    /// empty when out of range.
    pub fn get_headers(&self, start_height: u64, limit: u32) -> (r: Vec<BlockHeader>)
        ensures
            headers_slice_ok(self.chain.blocks@, start_height, limit, r@),
    {
        let mut out: Vec<BlockHeader> = Vec::new();
        let n = self.chain.blocks.len();
        if start_height >= n as u64 {
            return out;
        }
        let start = start_height as usize;
        let mut i: usize = 0;
        while i < n - start && i < limit as usize
            invariant
                start < n,
                n == self.chain.blocks@.len(),
                start == start_height as int,
                i <= n - start,
                i <= limit as int,
                out@.len() == i,
                forall|j: int|
                    0 <= j < i ==> out@[j] == self.chain.blocks@[start_height + j].header,
            decreases n - start - i,
        {
            out.push(self.chain.blocks[start + i].header.duplicate());
            i = i + 1;
        }
        out
    }

    /// The locally known blocks among the requested hashes, in request
    /// order, skipping unknown ones.
    pub fn get_blocks_by_hash(&self, hashes: &Vec<String>) -> (r: Vec<Block>)
        ensures
            blocks_sim(r@, spec_blocks_for(self.chain.blocks@, hashes@)),
    {
        let mut out: Vec<Block> = Vec::new();
        let mut i: usize = 0;
        while i < hashes.len()
            invariant
                i <= hashes@.len(),
                blocks_sim(out@, spec_blocks_for(self.chain.blocks@, hashes@.subrange(0, i as int))),
            decreases hashes@.len() - i,
        {
            let ghost pre = hashes@.subrange(0, i as int);
            let h = &hashes[i];
            let mut bi: usize = 0;
            let mut found = false;
            while bi < self.chain.blocks.len() && !found
                invariant
                    bi <= self.chain.blocks@.len(),
                    i < hashes@.len(),
                    h == &hashes@[i as int],
                    !found ==> forall|j: int|
                        0 <= j < bi ==> spec_block_hash(
                            (#[trigger] self.chain.blocks@[j]).header,
                            self.chain.blocks@[j].txs@,
                        ) != h@,
                    found ==> bi > 0 && bi <= self.chain.blocks@.len() && spec_find_block(
                        self.chain.blocks@,
                        h@,
                    ) == Some(self.chain.blocks@[bi - 1]) && out@.len() == spec_blocks_for(
                        self.chain.blocks@,
                        pre,
                    ).len() + 1 && blocks_sim(
                        out@.drop_last(),
                        spec_blocks_for(self.chain.blocks@, pre),
                    ) && out@.last().header == self.chain.blocks@[bi - 1].header
                        && out@.last().txs@ == self.chain.blocks@[bi - 1].txs@,
                    !found ==> blocks_sim(out@, spec_blocks_for(self.chain.blocks@, pre)),
                decreases self.chain.blocks@.len() - bi,
            {
                let bh = hash_block(&self.chain.blocks[bi]);
                if str_eq(bh.as_str(), h.as_str()) {
                    proof {
                        lemma_find_block_at(self.chain.blocks@, bi as int);
                    }
                    out.push(self.chain.blocks[bi].duplicate());
                    found = true;
                }
                bi = bi + 1;
            }
            proof {
                assert(hashes@.subrange(0, i + 1).drop_last() =~= pre);
                assert(hashes@.subrange(0, i + 1).last() == hashes@[i as int]);
                let full = spec_blocks_for(self.chain.blocks@, hashes@.subrange(0, i + 1));
                let rest = spec_blocks_for(self.chain.blocks@, pre);
                if !found {
                    lemma_find_block_none(self.chain.blocks@, h@);
                    assert(full == rest);
                } else {
                    let b = spec_find_block(self.chain.blocks@, h@).unwrap();
                    assert(full == rest.push(b));
                    assert forall|k: int|
                        0 <= k < out@.len() implies (#[trigger] out@[k]).header == full[k].header
                        && out@[k].txs@ == full[k].txs@ by {
                        if k < out@.len() - 1 {
                            assert(out@.drop_last()[k] == out@[k]);
                            assert(out@.drop_last()[k].header == rest[k].header && out@.drop_last()[
                            k].txs@ == rest[k].txs@);
                            assert(rest.push(b)[k] == rest[k]);
                        } else {
                            assert(out@[k] == out@.last());
                            assert(full[k] == b);
                        }
                    }
                }
                assert(blocks_sim(out@, full));
            }
            i = i + 1;
        }
        proof {
            assert(hashes@.subrange(0, hashes@.len() as int) =~= hashes@);
        }
        out
    }

    /// Gossip path for a fresh or stale transaction: gate on the seen-set,
    /// then attempt admission against the chain-derived base nonce; only a
    /// fresh, admitted transaction is re-broadcast.
    fn handle_new_transaction(&mut self, tx: Transaction, from: &str) -> (r: Vec<Action>)
        ensures
            spec_seen(old(self).seen_messages@, spec_tx_id(tx)) ==> node_same(
                *old(self),
                *final(self),
            ) && r@.len() == 0,
            !spec_seen(old(self).seen_messages@, spec_tx_id(tx)) ==> {
                &&& seen_extended(*old(self), *final(self), spec_tx_id(tx))
                &&& final(self).peers@ == old(self).peers@
                &&& chain_same(final(self).chain, old(self).chain)
                &&& (spec_admit(
                    old(self).mempool.txs@,
                    tx,
                    spec_chain_next_nonce(old(self).chain.blocks@, tx.from@),
                ) is Ok ==> final(self).mempool.txs@ == old(self).mempool.txs@.push(tx)
                    && r@.len() == 1 && (r@[0] matches Action::BroadcastExcept(f, m) && f@ == from@
                    && m == Message::NewTransaction(tx)))
                &&& (spec_admit(
                    old(self).mempool.txs@,
                    tx,
                    spec_chain_next_nonce(old(self).chain.blocks@, tx.from@),
                ) is Err ==> final(self).mempool.txs@ == old(self).mempool.txs@ && r@.len() == 0)
            },
    {
        let id = tx.id();
        if !self.mark_seen(id) {
            return Vec::new();
        }
        let base = self.chain.next_nonce_for(tx.from.as_str());
        let tx2 = tx.duplicate();
        match self.mempool.add_tx_checked(tx, base) {
            Err(_) => Vec::new(),
            Ok(()) => {
                let mut acts: Vec<Action> = Vec::new();
                acts.push(
                    Action::BroadcastExcept(String::from_str(from), Message::NewTransaction(tx2)),
                );
                acts
            },
        }
    }

    /// Gossip path for a fresh or stale block: gate on the seen-set, then
    /// attempt the single-step chain append; on success the block's
    /// transactions leave the mempool and the block is re-broadcast.
    #[verifier::rlimit(100)]
    #[verifier::spinoff_prover]
    fn handle_new_block(&mut self, block: Block, from: &str) -> (r: Vec<Action>)
        requires
            old(self).chain.blocks@.len() > 0,
        ensures
            spec_seen(old(self).seen_messages@, spec_block_hash(block.header, block.txs@))
                ==> node_same(*old(self), *final(self)) && r@.len() == 0,
            !spec_seen(old(self).seen_messages@, spec_block_hash(block.header, block.txs@)) ==> {
                &&& seen_extended(
                    *old(self),
                    *final(self),
                    spec_block_hash(block.header, block.txs@),
                )
                &&& final(self).peers@ == old(self).peers@
                &&& (spec_append_check(
                    old(self).chain.blocks@,
                    old(self).chain.pow_difficulty as int,
                    block,
                ) is Ok ==> final(self).chain.blocks@ == old(self).chain.blocks@.push(block)
                    && final(self).chain.pow_difficulty == old(self).chain.pow_difficulty
                    && final(self).mempool.txs@ == spec_remove_ids(
                    old(self).mempool.txs@,
                    block.txs@,
                    0,
                ) && r@.len() == 1 && (r@[0] matches Action::BroadcastExcept(f, m) && f@ == from@
                    && (m matches Message::NewBlock(b2) && b2.header == block.header && b2.txs@
                    == block.txs@)))
                &&& (spec_append_check(
                    old(self).chain.blocks@,
                    old(self).chain.pow_difficulty as int,
                    block,
                ) is Err ==> chain_same(final(self).chain, old(self).chain)
                    && final(self).mempool.txs@ == old(self).mempool.txs@ && r@.len() == 0)
            },
    {
        let id = hash_block(&block);
        if !self.mark_seen(id) {
            return Vec::new();
        }
        match self.accept_gossip_block(block) {
            None => Vec::new(),
            Some(b2) => {
                let mut acts: Vec<Action> = Vec::new();
                acts.push(Action::BroadcastExcept(String::from_str(from), Message::NewBlock(b2)));
                acts
            },
        }
    }

    /// Try the single-step append of a gossiped block; on success drop its
    /// transactions from the mempool and hand back a copy to re-broadcast.
    #[verifier::rlimit(100)]
    #[verifier::spinoff_prover]
    fn accept_gossip_block(&mut self, block: Block) -> (r: Option<Block>)
        requires
            old(self).chain.blocks@.len() > 0,
        ensures
            final(self).peers@ == old(self).peers@,
            final(self).seen_messages@ == old(self).seen_messages@,
            spec_append_check(
                old(self).chain.blocks@,
                old(self).chain.pow_difficulty as int,
                block,
            ) is Ok ==> final(self).chain.blocks@ == old(self).chain.blocks@.push(block)
                && final(self).chain.pow_difficulty == old(self).chain.pow_difficulty
                && final(self).mempool.txs@ == spec_remove_ids(
                old(self).mempool.txs@,
                block.txs@,
                0,
            ) && (r matches Some(b2) && b2.header == block.header && b2.txs@ == block.txs@),
            spec_append_check(
                old(self).chain.blocks@,
                old(self).chain.pow_difficulty as int,
                block,
            ) is Err ==> chain_same(final(self).chain, old(self).chain)
                && final(self).mempool.txs@ == old(self).mempool.txs@ && r is None,
    {
        let b2 = block.duplicate();
        match self.chain.append_block(block) {
            Err(_) => None,
            Ok(()) => {
                let ghost pool0 = self.mempool.txs@;
                let ghost gblocks = self.chain.blocks@;
                let ghost gdiff = self.chain.pow_difficulty;
                let mut i: usize = 0;
                while i < b2.txs.len()
                    invariant
                        i <= b2.txs@.len(),
                        self.peers@ == old(self).peers@,
                        self.seen_messages@ == old(self).seen_messages@,
                        self.chain.blocks@ == gblocks,
                        self.chain.pow_difficulty == gdiff,
                        spec_remove_ids(pool0, b2.txs@, 0) == spec_remove_ids(
                            self.mempool.txs@,
                            b2.txs@,
                            i as int,
                        ),
                    decreases b2.txs@.len() - i,
                {
                    let h = tx_hash(&b2.txs[i]);
                    self.mempool.remove_tx(h.as_str());
                    i = i + 1;
                }
                Some(b2)
            },
        }
    }

    /// Dispatch one inbound message and decide the outward effects.
    ///
    /// `Ping` is answered with `Pong`; gossip is gated by the seen-set and,
    /// when fresh and accepted, applied to the mempool or chain and
    /// re-broadcast to everyone but the origin — a rejected or stale gossip
    /// message is dropped silently; `GetHeaders` and `GetData` are answered
    /// from the chain; everything else is ignored.
    #[verifier::rlimit(60)]
    pub fn process_message(&mut self, msg: Message, from: &str) -> (r: Vec<Action>)
        requires
            old(self).chain.blocks@.len() > 0,
        ensures
            (msg is Pong || msg is GetStatus || msg is Status || msg is GetBlocks || msg
                is Blocks || msg is Inventory || msg is GetMempool || msg is Handshake || msg
                is Headers || msg is Addr || msg is GetAddr) ==> node_same(
                *old(self),
                *final(self),
            ) && r@.len() == 0,
            msg is Ping ==> node_same(*old(self), *final(self)) && r@.len() == 1 && (r@[0] matches
                Action::SendTo(t, m) && t@ == from@ && m == Message::Pong),
            (spec_is_gossip(msg) && spec_seen(
                old(self).seen_messages@,
                spec_gossip_id(msg).unwrap(),
            )) ==> node_same(*old(self), *final(self)) && r@.len() == 0,
            msg matches Message::NewTransaction(tx) ==> !spec_seen(
                old(self).seen_messages@,
                spec_tx_id(tx),
            ) ==> {
                &&& seen_extended(*old(self), *final(self), spec_tx_id(tx))
                &&& final(self).peers@ == old(self).peers@
                &&& chain_same(final(self).chain, old(self).chain)
                &&& (spec_admit(
                    old(self).mempool.txs@,
                    tx,
                    spec_chain_next_nonce(old(self).chain.blocks@, tx.from@),
                ) is Ok ==> final(self).mempool.txs@ == old(self).mempool.txs@.push(tx)
                    && r@.len() == 1 && (r@[0] matches Action::BroadcastExcept(f, m) && f@ == from@
                    && m == Message::NewTransaction(tx)))
                &&& (spec_admit(
                    old(self).mempool.txs@,
                    tx,
                    spec_chain_next_nonce(old(self).chain.blocks@, tx.from@),
                ) is Err ==> final(self).mempool.txs@ == old(self).mempool.txs@ && r@.len() == 0)
            },
            msg matches Message::NewBlock(b) ==> !spec_seen(
                old(self).seen_messages@,
                spec_block_hash(b.header, b.txs@),
            ) ==> {
                &&& seen_extended(*old(self), *final(self), spec_block_hash(b.header, b.txs@))
                &&& final(self).peers@ == old(self).peers@
                &&& (spec_append_check(
                    old(self).chain.blocks@,
                    old(self).chain.pow_difficulty as int,
                    b,
                ) is Ok ==> final(self).chain.blocks@ == old(self).chain.blocks@.push(b)
                    && final(self).chain.pow_difficulty == old(self).chain.pow_difficulty
                    && final(self).mempool.txs@ == spec_remove_ids(old(self).mempool.txs@, b.txs@, 0) && r@.len()
                    == 1 && (r@[0] matches Action::BroadcastExcept(f, m) && f@ == from@ && (
                    m matches Message::NewBlock(b2) && b2.header == b.header && b2.txs@
                    == b.txs@)))
                &&& (spec_append_check(
                    old(self).chain.blocks@,
                    old(self).chain.pow_difficulty as int,
                    b,
                ) is Err ==> chain_same(final(self).chain, old(self).chain)
                    && final(self).mempool.txs@ == old(self).mempool.txs@ && r@.len() == 0)
            },
            msg matches Message::GetHeaders { start_height, limit } ==> node_same(
                *old(self),
                *final(self),
            ) && r@.len() == 1 && (r@[0] matches Action::SendTo(t, m) && t@ == from@ && (
            m matches Message::Headers(hs) && headers_slice_ok(
                old(self).chain.blocks@,
                start_height,
                limit,
                hs@,
            ))),
            msg matches Message::GetData { block_hashes } ==> node_same(*old(self), *final(self))
                && r@.len() == 1 && (r@[0] matches Action::SendTo(t, m) && t@ == from@ && (
            m matches Message::Blocks(bs) && blocks_sim(
                bs@,
                spec_blocks_for(old(self).chain.blocks@, block_hashes@),
            ))),
    {
        match msg {
            Message::Ping => {
                let mut acts: Vec<Action> = Vec::new();
                acts.push(Action::SendTo(String::from_str(from), Message::Pong));
                acts
            },
            Message::NewTransaction(tx) => self.handle_new_transaction(tx, from),
            Message::NewBlock(block) => self.handle_new_block(block, from),
            Message::GetHeaders { start_height, limit } => {
                let headers = self.get_headers(start_height, limit);
                let mut acts: Vec<Action> = Vec::new();
                acts.push(Action::SendTo(String::from_str(from), Message::Headers(headers)));
                acts
            },
            Message::GetData { block_hashes } => {
                let blocks = self.get_blocks_by_hash(&block_hashes);
                let mut acts: Vec<Action> = Vec::new();
                acts.push(Action::SendTo(String::from_str(from), Message::Blocks(blocks)));
                acts
            },
            _ => Vec::new(),
        }
    }
}

} // verus!
