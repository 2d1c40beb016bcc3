use rusty_chain::message::Message;
use rusty_chain::types::{Block, BlockHeader, Transaction};

#[test]
fn test_message_roundtrip() {
    let msg = Message::Ping;
    let encoded = msg.encode().unwrap();
    let decoded = Message::decode(&encoded).unwrap();
    assert_eq!(msg, decoded);
}

#[test]
fn test_message_too_large() {
    let mut buf = Vec::new();
    buf.extend_from_slice(&(20 * 1024 * 1024u32).to_be_bytes());
    let res = Message::decode(&buf);
    assert!(res.is_err());
}

#[test]
fn test_message_inventory_empty() {
    let msg = Message::Inventory {
        tx_hashes: vec![],
        block_hashes: vec![],
    };
    let encoded = msg.encode().unwrap();
    let decoded = Message::decode(&encoded).unwrap();
    assert_eq!(msg, decoded);
}

#[test]
fn test_message_handshake() {
    let msg = Message::Handshake {
        version: 1,
        best_height: 123,
    };
    let encoded = msg.encode().unwrap();
    let decoded = Message::decode(&encoded).unwrap();
    assert_eq!(msg, decoded);
}

#[test]
fn test_message_is_gossip() {
    assert!(
        Message::NewTransaction(Transaction::new("a".to_string(), "b".to_string(), 10, 0))
            .is_gossip()
    );
    assert!(Message::NewBlock(Block {
        header: BlockHeader {
            prev_hash: "".to_string(),
            merkle_root: "".to_string(),
            timestamp_ms: 0,
            nonce: 0,
        },
        txs: vec![],
    })
    .is_gossip());
    assert!(!Message::Ping.is_gossip());
}

#[test]
fn test_message_get_headers_roundtrip() {
    let msg = Message::GetHeaders {
        start_height: 10,
        limit: 100,
    };
    let encoded = msg.encode().unwrap();
    let decoded = Message::decode(&encoded).unwrap();
    assert_eq!(msg, decoded);
}

#[test]
fn test_message_type_name() {
    assert_eq!(Message::Ping.get_type_name(), "Ping");
    assert_eq!(Message::GetMempool.get_type_name(), "GetMempool");
    assert_eq!(
        Message::NewTransaction(Transaction::new("a".to_string(), "b".to_string(), 10, 0))
            .get_type_name(),
        "NewTransaction"
    );
}

#[test]
fn test_message_addr_getaddr() {
    let msg = Message::Addr {
        addrs: vec!["127.0.0.1:8080".to_string()],
    };
    let encoded = msg.encode().unwrap();
    let decoded = Message::decode(&encoded).unwrap();
    assert_eq!(msg, decoded);

    let msg2 = Message::GetAddr;
    let encoded2 = msg2.encode().unwrap();
    let decoded2 = Message::decode(&encoded2).unwrap();
    assert_eq!(msg2, decoded2);
}

#[test]
fn test_memo_limit_128() {
    let mut tx = Transaction::new("A".to_string(), "B".to_string(), 100, 0);
    tx.memo = Some("a".repeat(128));
    assert!(tx.validate_basic().is_ok());

    tx.memo = Some("a".repeat(129));
    assert!(tx.validate_basic().is_err());
}

#[test]
fn message_roundtrip_new_transaction_signed() {
    let mut tx = Transaction::new_with_fee("alice".to_string(), "bob".to_string(), 10, 5, 3);
    tx.pubkey_hex = Some("ab".repeat(32));
    tx.signature_b64 = Some("c2ln".to_string());
    tx.memo = Some("gift".to_string());
    let msg = Message::NewTransaction(tx);
    let encoded = msg.encode().unwrap();
    let decoded = Message::decode(&encoded).unwrap();
    assert_eq!(msg, decoded);
}

#[test]
fn message_roundtrip_blocks_and_headers() {
    let header = BlockHeader {
        prev_hash: "00".repeat(32),
        timestamp_ms: 7,
        nonce: 9,
        merkle_root: "11".repeat(32),
    };
    let block = Block {
        header: header.clone(),
        txs: vec![
            Transaction::new("alice".to_string(), "bob".to_string(), 1, 0),
            Transaction::new("SYSTEM".to_string(), "carol".to_string(), 50, 0),
        ],
    };

    let m1 = Message::Blocks(vec![block.clone(), block.clone()]);
    assert_eq!(m1, Message::decode(&m1.encode().unwrap()).unwrap());

    let m2 = Message::Headers(vec![header.clone()]);
    assert_eq!(m2, Message::decode(&m2.encode().unwrap()).unwrap());

    let m3 = Message::NewBlock(block);
    assert_eq!(m3, Message::decode(&m3.encode().unwrap()).unwrap());

    let m4 = Message::Status {
        height: 3,
        tip_hash: "ff".repeat(32),
    };
    assert_eq!(m4, Message::decode(&m4.encode().unwrap()).unwrap());
}

#[test]
fn message_decode_rejects_garbage() {
    // An unknown tag.
    let mut frame = Vec::new();
    frame.extend_from_slice(&1u32.to_be_bytes());
    frame.push(200u8);
    assert!(Message::decode(&frame).is_err());

    // A declared length that does not match the payload.
    let mut frame2 = Vec::new();
    frame2.extend_from_slice(&5u32.to_be_bytes());
    frame2.push(0u8);
    assert!(Message::decode(&frame2).is_err());

    // Too short for a prefix at all.
    assert!(Message::decode(&[1u8, 2u8]).is_err());
}

#[test]
fn declared_len_checks_the_cap() {
    let ok = 1000u32.to_be_bytes();
    assert_eq!(Message::declared_len(&ok).unwrap(), 1000);

    let too_big = (20 * 1024 * 1024u32).to_be_bytes();
    let err = Message::declared_len(&too_big).unwrap_err().message();
    assert!(err.contains("too large"), "unexpected error: {err}");
}

#[test]
fn gossip_ids_are_the_tx_id_and_block_hash() {
    let tx = Transaction::new("alice".to_string(), "bob".to_string(), 1, 0);
    let id = tx.id();
    assert_eq!(Message::NewTransaction(tx).gossip_id(), Some(id));

    let c = rusty_chain::chain::Chain::new_genesis();
    let b = c.blocks[0].clone();
    let h = rusty_chain::chain::hash_block(&b);
    assert_eq!(Message::NewBlock(b).gossip_id(), Some(h));

    assert_eq!(Message::Ping.gossip_id(), None);
    assert_eq!(Message::size_limit(), 15 * 1024 * 1024);
}
