use rusty_chain::chain::Chain;
use rusty_chain::mempool::Mempool;
use rusty_chain::message::Message;
use rusty_chain::node::{Action, NodeState};
use rusty_chain::types::Transaction;

fn fresh_node() -> NodeState {
    NodeState::new(Chain::new_genesis(), Mempool::default())
}

#[test]
fn ping_is_answered_with_pong() {
    let mut node = fresh_node();
    let acts = node.process_message(Message::Ping, "peer-a");
    assert_eq!(acts.len(), 1);
    match &acts[0] {
        Action::SendTo(to, m) => {
            assert_eq!(to, "peer-a");
            assert_eq!(*m, Message::Pong);
        }
        other => panic!("unexpected action: {:?}", other),
    }
}

#[test]
fn handshake_and_unknown_messages_are_ignored() {
    let mut node = fresh_node();
    let acts = node.process_message(
        Message::Handshake {
            version: 1,
            best_height: 10,
        },
        "peer-a",
    );
    assert!(acts.is_empty());

    let acts2 = node.process_message(Message::GetMempool, "peer-a");
    assert!(acts2.is_empty());
}

#[test]
fn fresh_transaction_is_admitted_and_rebroadcast() {
    let mut node = fresh_node();
    let tx = Transaction::new("alice".to_string(), "bob".to_string(), 1, 0);
    // The mempool admits it (shape ok, nonce 0 expected), even though the
    // chain would later refuse the unfunded spend.
    let acts = node.process_message(Message::NewTransaction(tx.clone()), "origin");
    assert_eq!(node.mempool.txs.len(), 1);
    assert_eq!(acts.len(), 1);
    match &acts[0] {
        Action::BroadcastExcept(except, m) => {
            assert_eq!(except, "origin");
            assert_eq!(*m, Message::NewTransaction(tx));
        }
        other => panic!("unexpected action: {:?}", other),
    }
}

#[test]
fn seen_transaction_is_neither_revalidated_nor_rebroadcast() {
    let mut node = fresh_node();
    let tx = Transaction::new("alice".to_string(), "bob".to_string(), 1, 0);

    let first = node.process_message(Message::NewTransaction(tx.clone()), "origin");
    assert_eq!(first.len(), 1);
    assert_eq!(node.mempool.txs.len(), 1);

    // The same id again, even from another peer: silently dropped.
    let second = node.process_message(Message::NewTransaction(tx), "other-peer");
    assert!(second.is_empty());
    assert_eq!(node.mempool.txs.len(), 1);
}

#[test]
fn invalid_transaction_is_dropped_silently_but_marked_seen() {
    let mut node = fresh_node();
    let bad = Transaction::new("alice".to_string(), "alice".to_string(), 1, 0);
    let acts = node.process_message(Message::NewTransaction(bad), "origin");
    assert!(acts.is_empty());
    assert_eq!(node.mempool.txs.len(), 0);
}

#[test]
fn fresh_block_is_appended_and_rebroadcast_and_seen_twice_dropped() {
    // Mine a block on one chain, gossip it to a node holding only genesis.
    let mut miner_chain = Chain::new_genesis();
    let mined = miner_chain.mine_empty_block(1).unwrap();

    let genesis_chain = Chain {
        pow_difficulty: 1,
        blocks: vec![miner_chain.blocks[0].clone()],
    };
    let mut node = NodeState::new(genesis_chain, Mempool::default());

    let first = node.process_message(Message::NewBlock(mined.clone()), "origin");
    assert_eq!(node.chain.blocks.len(), 2);
    assert_eq!(first.len(), 1);
    match &first[0] {
        Action::BroadcastExcept(except, m) => {
            assert_eq!(except, "origin");
            assert_eq!(*m, Message::NewBlock(mined.clone()));
        }
        other => panic!("unexpected action: {:?}", other),
    }

    // The same block again: suppressed, chain unchanged.
    let second = node.process_message(Message::NewBlock(mined), "elsewhere");
    assert!(second.is_empty());
    assert_eq!(node.chain.blocks.len(), 2);
}

#[test]
fn accepted_block_clears_its_transactions_from_the_mempool() {
    let mut miner_chain = Chain::new_genesis();
    let cb = Transaction::new("SYSTEM".to_string(), "alice".to_string(), 50, 0);
    let mined = miner_chain.mine_block(vec![cb.clone()], 1, None).unwrap();

    let genesis_chain = Chain {
        pow_difficulty: 1,
        blocks: vec![miner_chain.blocks[0].clone()],
    };
    let mut mp = Mempool::default();
    mp.add_tx(cb).unwrap();
    let mut node = NodeState::new(genesis_chain, mp);
    assert_eq!(node.mempool.txs.len(), 1);

    node.process_message(Message::NewBlock(mined), "origin");
    assert_eq!(node.chain.blocks.len(), 2);
    assert_eq!(node.mempool.txs.len(), 0);
}

#[test]
fn invalid_block_is_dropped_silently() {
    let mut node = fresh_node();
    let mut bogus = node.chain.blocks[0].clone();
    bogus.header.prev_hash = "ff".repeat(32);
    let acts = node.process_message(Message::NewBlock(bogus), "origin");
    assert!(acts.is_empty());
    assert_eq!(node.chain.blocks.len(), 1);
}

#[test]
fn get_headers_is_answered_with_the_slice() {
    let mut chain = Chain::new_genesis();
    chain.mine_empty_block(1).unwrap();
    chain.mine_empty_block(1).unwrap();
    let mut node = NodeState::new(chain, Mempool::default());

    let acts = node.process_message(
        Message::GetHeaders {
            start_height: 1,
            limit: 5,
        },
        "asker",
    );
    assert_eq!(acts.len(), 1);
    match &acts[0] {
        Action::SendTo(to, Message::Headers(hs)) => {
            assert_eq!(to, "asker");
            assert_eq!(hs.len(), 2);
            assert_eq!(hs[0], node.chain.blocks[1].header);
        }
        other => panic!("unexpected action: {:?}", other),
    }

    // Out of range: an empty slice.
    let acts2 = node.process_message(
        Message::GetHeaders {
            start_height: 50,
            limit: 5,
        },
        "asker",
    );
    match &acts2[0] {
        Action::SendTo(_, Message::Headers(hs)) => assert!(hs.is_empty()),
        other => panic!("unexpected action: {:?}", other),
    }
}

#[test]
fn get_data_is_answered_with_known_blocks_only() {
    let mut chain = Chain::new_genesis();
    let mined = chain.mine_empty_block(1).unwrap();
    let known = rusty_chain::chain::hash_block(&mined);
    let mut node = NodeState::new(chain, Mempool::default());

    let acts = node.process_message(
        Message::GetData {
            block_hashes: vec![known, "not-a-hash".to_string()],
        },
        "asker",
    );
    assert_eq!(acts.len(), 1);
    match &acts[0] {
        Action::SendTo(to, Message::Blocks(bs)) => {
            assert_eq!(to, "asker");
            assert_eq!(bs.len(), 1);
            assert_eq!(bs[0].header, node.chain.blocks[1].header);
        }
        other => panic!("unexpected action: {:?}", other),
    }
}

#[test]
fn peer_registry_tracks_sessions() {
    let mut node = fresh_node();
    assert_eq!(node.get_peer_count(), 0);
    assert!(node.register_peer("a:1".to_string()));
    assert!(node.register_peer("b:2".to_string()));
    assert!(!node.register_peer("a:1".to_string()));
    assert_eq!(node.get_peer_count(), 2);

    assert_eq!(node.deregister_peer("a:1"), Some(0));
    assert_eq!(node.deregister_peer("a:1"), None);
    assert_eq!(node.get_peer_count(), 1);
}

#[test]
fn mark_seen_is_a_test_and_insert() {
    let mut node = fresh_node();
    assert!(!node.is_seen("x"));
    assert!(node.mark_seen("x".to_string()));
    assert!(node.is_seen("x"));
    assert!(!node.mark_seen("x".to_string()));
}
