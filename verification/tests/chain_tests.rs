use rusty_chain::chain::{hash_block, merkle_root, pow_ok, Chain};
use rusty_chain::hash::tx_hash;
use rusty_chain::types::Transaction;

#[test]
fn genesis_has_height_zero() {
    let c = Chain::new_genesis();
    assert_eq!(c.height(), 0);
    assert_eq!(c.blocks.len(), 1);
}

#[test]
fn validate_accepts_genesis() {
    let c = Chain::new_genesis();
    c.validate().unwrap();
}

#[test]
fn validate_rejects_broken_prev_hash_linkage() {
    let mut c = Chain::new_genesis();
    c.blocks.push(c.blocks[0].clone());

    // Tamper with linkage.
    c.blocks[1].header.prev_hash = "deadbeef".to_string();

    let err = c.validate().unwrap_err().message();
    assert!(err.contains("prev_hash"), "unexpected error: {err}");
}

#[test]
fn mine_produces_pow_ok_hash() {
    let mut c = Chain::new_genesis();
    let difficulty = 2;

    let mined = c.mine_empty_block(difficulty).unwrap();
    c.validate().unwrap();

    let h = hash_block(&mined);
    assert!(pow_ok(&h, difficulty), "expected pow_ok for hash={h}");
}

#[test]
fn validate_rejects_block_failing_pow() {
    let mut c = Chain::new_genesis();

    // Mine with low difficulty so we can more easily force a failure.
    c.mine_empty_block(1).unwrap();

    // Raise chain difficulty after the fact; block[1] will likely not satisfy it.
    c.pow_difficulty = 6;

    let err = c.validate().unwrap_err().message();
    assert!(err.contains("fails PoW"), "unexpected error: {err}");
}

#[test]
fn merkle_root_changes_with_tx_order() {
    let tx1 = Transaction::new("a".to_string(), "b".to_string(), 1, 0);
    let tx2 = Transaction::new("c".to_string(), "d".to_string(), 2, 1);

    let r1 = merkle_root(&[tx1.clone(), tx2.clone()]);
    let r2 = merkle_root(&[tx2, tx1]);

    assert_ne!(r1, r2, "merkle root should depend on tx order");
    assert!(!r1.is_empty());
}

#[test]
fn tx_hash_is_stable() {
    let tx = Transaction::new("alice".to_string(), "bob".to_string(), 42, 7);

    let h1 = tx_hash(&tx);
    let h2 = tx_hash(&tx);
    assert_eq!(h1, h2);
}

#[test]
fn merkle_root_of_empty_set_is_defined() {
    let r = merkle_root(&[]);
    assert_eq!(r.len(), 64);
    // SHA-256 of the empty byte string.
    assert_eq!(
        r,
        "e3b0c44298fc1c149afbf4c8996fb92427ae41e4649b934ca495991b7852b855"
    );
}

#[test]
fn pow_ok_checks_leading_zeros() {
    assert!(pow_ok("00ab", 2));
    assert!(!pow_ok("0a0b", 2));
    assert!(pow_ok("anything", 0));
    // Difficulty past the end of the hash is trivially satisfied.
    assert!(pow_ok("0", 5));
}

#[test]
fn validate_rejects_tampered_merkle_root() {
    let mut c = Chain::new_genesis();
    c.mine_empty_block(1).unwrap();
    c.blocks[1].header.merkle_root = "00".repeat(32);
    let err = c.validate().unwrap_err().message();
    assert!(err.contains("merkle_root"), "unexpected error: {err}");
}

#[test]
fn validate_rejects_empty_chain() {
    let c = Chain {
        pow_difficulty: 3,
        blocks: vec![],
    };
    let err = c.validate().unwrap_err().message();
    assert!(err.contains("no blocks"), "unexpected error: {err}");
}

#[test]
fn validate_rejects_bad_genesis_prev_hash() {
    let mut c = Chain::new_genesis();
    c.blocks[0].header.prev_hash = "ff".repeat(32);
    let err = c.validate().unwrap_err().message();
    assert!(err.contains("64 zeros"), "unexpected error: {err}");
}

#[test]
fn hash_block_changes_with_any_field() {
    let c = Chain::new_genesis();
    let b = &c.blocks[0];
    let h0 = hash_block(b);

    let mut b1 = b.clone();
    b1.header.nonce = b.header.nonce.wrapping_add(1);
    assert_ne!(h0, hash_block(&b1));

    let mut b2 = b.clone();
    b2.header.timestamp_ms = b.header.timestamp_ms.wrapping_add(1);
    assert_ne!(h0, hash_block(&b2));

    let mut b3 = b.clone();
    b3.txs
        .push(Transaction::new("x".to_string(), "y".to_string(), 1, 0));
    assert_ne!(h0, hash_block(&b3));
}

#[test]
fn append_block_accepts_a_mined_tip() {
    let mut c = Chain::new_genesis();
    let mined = c.mine_empty_block(1).unwrap();

    // Rebuild a second chain holding only genesis and append the block there.
    let mut c2 = Chain {
        pow_difficulty: c.pow_difficulty,
        blocks: vec![c.blocks[0].clone()],
    };
    c2.append_block(mined).unwrap();
    assert_eq!(c2.height(), 1);
    c2.validate().unwrap();
}

#[test]
fn append_block_rejects_bad_linkage() {
    let mut c = Chain::new_genesis();
    let mut mined = c.mine_empty_block(1).unwrap();
    mined.header.prev_hash = "00".repeat(32);

    let mut c2 = Chain {
        pow_difficulty: c.pow_difficulty,
        blocks: vec![c.blocks[0].clone()],
    };
    let err = c2.append_block(mined).unwrap_err().message();
    assert!(err.contains("prev_hash"), "unexpected error: {err}");
    assert_eq!(c2.height(), 0);
}

#[test]
fn default_paths_are_stable() {
    assert_eq!(Chain::default_path(), "data/chain.json");
    assert_eq!(
        rusty_chain::mempool::Mempool::default_path(),
        "data/mempool.json"
    );
    assert_eq!(rusty_chain::keys::KeyFile::keys_dir(), "data/keys");
    assert_eq!(
        rusty_chain::keys::KeyFile::path_for("alice"),
        "data/keys/alice.json"
    );
}
