use base64::Engine;
use ed25519_dalek::Signer;
use rusty_chain::types::Transaction;

fn generate_keypair() -> (ed25519_dalek::SigningKey, ed25519_dalek::VerifyingKey) {
    let sk = ed25519_dalek::SigningKey::generate(&mut rand::rngs::OsRng);
    let vk = sk.verifying_key();
    (sk, vk)
}

fn sign_bytes(sk: &ed25519_dalek::SigningKey, msg: &[u8]) -> String {
    let sig = sk.sign(msg);
    base64::engine::general_purpose::STANDARD.encode(sig.to_bytes())
}

fn verifying_key_to_hex(vk: &ed25519_dalek::VerifyingKey) -> String {
    hex::encode(vk.to_bytes())
}

#[test]
fn signed_tx_verifies() {
    let (sk, vk) = generate_keypair();

    // A signed transaction must spend from the signer's own address.
    let mut tx = Transaction::new(verifying_key_to_hex(&vk), "bob".to_string(), 10, 0);
    let sig = sign_bytes(&sk, &tx.signing_bytes());

    tx.pubkey_hex = Some(verifying_key_to_hex(&vk));
    tx.signature_b64 = Some(sig);

    tx.verify_signature_if_present().unwrap();
}

#[test]
fn signed_tx_rejects_tampering() {
    let (sk, vk) = generate_keypair();

    let mut tx = Transaction::new(verifying_key_to_hex(&vk), "bob".to_string(), 10, 0);
    let sig = sign_bytes(&sk, &tx.signing_bytes());

    tx.pubkey_hex = Some(verifying_key_to_hex(&vk));
    tx.signature_b64 = Some(sig);

    // Tamper after signing.
    tx.amount = 999;

    let err = tx.verify_signature_if_present().unwrap_err().message();
    assert!(
        err.contains("signature") || err.contains("Verification"),
        "err={err}"
    );
}

#[test]
fn tx_signature_requires_both_fields() {
    let mut tx = Transaction::new("alice".to_string(), "bob".to_string(), 1, 0);
    tx.pubkey_hex = Some("00".repeat(32));

    let err = tx.verify_signature_if_present().unwrap_err().message();
    assert!(err.contains("both"), "err={err}");
}

#[test]
fn signing_leaves_tx_id_unchanged() {
    let (sk, vk) = generate_keypair();

    let mut tx = Transaction::new(verifying_key_to_hex(&vk), "bob".to_string(), 10, 0);
    let id_before = tx.id();

    let sig = sign_bytes(&sk, &tx.signing_bytes());
    tx.pubkey_hex = Some(verifying_key_to_hex(&vk));
    tx.signature_b64 = Some(sig);
    tx.memo = Some("a note".to_string());

    assert_eq!(id_before, tx.id());
}

#[test]
fn garbage_signature_fields_do_not_verify() {
    let mut tx = Transaction::new("alice".to_string(), "bob".to_string(), 10, 0);
    tx.pubkey_hex = Some("alice".to_string());
    tx.signature_b64 = Some("not base64!!!".to_string());

    // from == pubkey_hex, so the check reaches signature verification and fails.
    let err = tx.verify_signature_if_present().unwrap_err().message();
    assert!(err.contains("signature"), "err={err}");
}
