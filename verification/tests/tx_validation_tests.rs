use base64::Engine;
use ed25519_dalek::Signer;
use rusty_chain::crypto::sha256_hex;
use rusty_chain::mempool::Mempool;
use rusty_chain::types::Transaction;

#[test]
fn validate_basic_accepts_ok_tx() {
    let tx = Transaction::new("alice".to_string(), "bob".to_string(), 1, 0);

    tx.validate_basic().unwrap();
}

#[test]
fn validate_basic_rejects_empty_from() {
    let tx = Transaction::new("".to_string(), "bob".to_string(), 1, 0);

    let err = tx.validate_basic().unwrap_err().message();
    assert!(err.contains("from"), "unexpected error: {err}");
}

#[test]
fn validate_basic_rejects_zero_amount() {
    let tx = Transaction::new("alice".to_string(), "bob".to_string(), 0, 0);

    let err = tx.validate_basic().unwrap_err().message();
    assert!(err.contains("amount"), "unexpected error: {err}");
}

#[test]
fn mempool_add_rejects_invalid_tx() {
    let mut mp = Mempool::default();
    let tx = Transaction::new("alice".to_string(), "alice".to_string(), 1, 0);

    let err = mp.add_tx(tx).unwrap_err().message();
    assert!(err.contains("must differ"), "unexpected error: {err}");
    assert_eq!(mp.txs.len(), 0);
}

#[test]
fn mempool_add_rejects_duplicate_tx() {
    let mut mp = Mempool::default();
    let tx = Transaction::new("alice".to_string(), "bob".to_string(), 1, 0);

    mp.add_tx(tx.clone()).unwrap();

    let err = mp.add_tx(tx).unwrap_err().message();
    assert!(err.contains("duplicate tx"), "unexpected error: {err}");
    assert_eq!(mp.txs.len(), 1);
}

#[test]
fn mempool_add_rejects_signed_tx_with_from_mismatch() {
    let sk = ed25519_dalek::SigningKey::generate(&mut rand::rngs::OsRng);
    let vk = sk.verifying_key();

    let mut tx = Transaction::new("alice".to_string(), "bob".to_string(), 1, 0);
    let sig = base64::engine::general_purpose::STANDARD.encode(sk.sign(&tx.signing_bytes()).to_bytes());
    tx.pubkey_hex = Some(hex::encode(vk.to_bytes()));
    tx.signature_b64 = Some(sig);

    let mut mp = Mempool::default();
    let err = mp.add_tx(tx).unwrap_err().message();
    assert!(err.contains("from=<pubkey_hex>"), "unexpected error: {err}");
    assert_eq!(mp.txs.len(), 0);
}

#[test]
fn validate_basic_rejects_blank_from() {
    // Whitespace-only endpoints are as illegal as empty ones.
    let tx = Transaction::new("   ".to_string(), "bob".to_string(), 1, 0);
    let err = tx.validate_basic().unwrap_err().message();
    assert!(err.contains("from"), "unexpected error: {err}");
}

#[test]
fn validate_basic_rejects_empty_to() {
    let tx = Transaction::new("alice".to_string(), "".to_string(), 1, 0);
    let err = tx.validate_basic().unwrap_err().message();
    assert!(err.contains("to"), "unexpected error: {err}");
}

#[test]
fn sha256_hex_matches_known_digests() {
    assert_eq!(
        sha256_hex(b""),
        "e3b0c44298fc1c149afbf4c8996fb92427ae41e4649b934ca495991b7852b855"
    );
    assert_eq!(
        sha256_hex(b"abc"),
        "ba7816bf8f01cfea414140de5dae2223b00361a396177a9cb410ff61f20015ad"
    );
}

#[test]
fn tx_ids_differ_with_any_payload_field() {
    let tx = Transaction::new_with_fee("alice".to_string(), "bob".to_string(), 10, 1, 0);
    let id = tx.id();

    let mut t1 = tx.clone();
    t1.amount = 11;
    assert_ne!(id, t1.id());

    let mut t2 = tx.clone();
    t2.fee = 2;
    assert_ne!(id, t2.id());

    let mut t3 = tx.clone();
    t3.nonce = 1;
    assert_ne!(id, t3.id());

    let mut t4 = tx.clone();
    t4.to = "carol".to_string();
    assert_ne!(id, t4.id());
}
