use rusty_chain::chain::{validate_nonce_sequence, Chain};
use rusty_chain::mempool::Mempool;
use rusty_chain::types::Transaction;

#[test]
fn chain_next_nonce_for_starts_at_zero() {
    let c = Chain::new_genesis();
    assert_eq!(c.next_nonce_for("alice"), 0);
}

#[test]
fn chain_next_nonce_for_is_max_plus_one() {
    let mut c = Chain::new_genesis();

    let tx1 = Transaction::new("alice".to_string(), "bob".to_string(), 1, 0);
    let tx2 = Transaction::new("alice".to_string(), "bob".to_string(), 1, 5);

    c.mine_block(vec![tx1, tx2], 0, None).unwrap();

    assert_eq!(c.next_nonce_for("alice"), 6);
    assert_eq!(c.next_nonce_for("bob"), 0);
}

#[test]
fn mempool_add_tx_checked_enforces_sequential_nonces() {
    let mut mp = Mempool::default();
    let base = 0;

    let tx0 = Transaction::new("alice".to_string(), "bob".to_string(), 1, 0);
    mp.add_tx_checked(tx0, base).unwrap();

    // Gap should fail (expected nonce=1).
    let tx2 = Transaction::new("alice".to_string(), "bob".to_string(), 1, 2);
    let err = mp.add_tx_checked(tx2, base).unwrap_err().message();
    assert!(err.contains("invalid nonce"), "unexpected error: {err}");

    // Next sequential nonce should succeed.
    let tx1 = Transaction::new("alice".to_string(), "bob".to_string(), 1, 1);
    mp.add_tx_checked(tx1, base).unwrap();

    assert_eq!(mp.txs.len(), 2);
}

#[test]
fn mempool_next_nonce_for_includes_pending_count() {
    let mut mp = Mempool::default();
    let base = 10;

    assert_eq!(mp.next_nonce_for("alice", base), 10);

    mp.add_tx_checked(
        Transaction::new("alice".to_string(), "bob".to_string(), 1, 10),
        base,
    )
    .unwrap();

    mp.add_tx_checked(
        Transaction::new("alice".to_string(), "bob".to_string(), 1, 11),
        base,
    )
    .unwrap();

    assert_eq!(mp.next_nonce_for("alice", base), 12);
    assert_eq!(mp.next_nonce_for("bob", base), 10);
}

#[test]
fn mempool_rejects_duplicate_sender_nonce() {
    let mut mp = Mempool::default();
    // Admit without the sequential rule to set up a pending (alice, 5).
    mp.add_tx(Transaction::new("alice".to_string(), "bob".to_string(), 1, 5))
        .unwrap();

    // Under base 5 the expected nonce is 6 (one pending from alice).
    let dup = Transaction::new("alice".to_string(), "carol".to_string(), 2, 5);
    let err = mp.add_tx_checked(dup, 4).unwrap_err().message();
    assert!(err.contains("duplicate nonce"), "unexpected error: {err}");
}

#[test]
fn mempool_remove_tx_drops_by_id_and_ignores_unknown() {
    let mut mp = Mempool::default();
    let tx = Transaction::new("alice".to_string(), "bob".to_string(), 1, 0);
    let id = tx.id();
    mp.add_tx(tx).unwrap();
    assert_eq!(mp.txs.len(), 1);

    mp.remove_tx("not-a-real-id");
    assert_eq!(mp.txs.len(), 1);

    mp.remove_tx(&id);
    assert_eq!(mp.txs.len(), 0);
}

#[test]
fn mempool_drain_empties_in_order() {
    let mut mp = Mempool::default();
    mp.add_tx_checked(
        Transaction::new("alice".to_string(), "bob".to_string(), 1, 0),
        0,
    )
    .unwrap();
    mp.add_tx_checked(
        Transaction::new("alice".to_string(), "bob".to_string(), 2, 1),
        0,
    )
    .unwrap();

    let drained = mp.drain();
    assert_eq!(drained.len(), 2);
    assert_eq!(drained[0].amount, 1);
    assert_eq!(drained[1].amount, 2);
    assert_eq!(mp.txs.len(), 0);
}

#[test]
fn validate_nonce_sequence_accepts_consecutive_and_rejects_gaps() {
    let c = Chain::new_genesis();

    let good = vec![
        Transaction::new("alice".to_string(), "bob".to_string(), 1, 0),
        Transaction::new("alice".to_string(), "bob".to_string(), 1, 1),
        Transaction::new("carol".to_string(), "bob".to_string(), 1, 0),
    ];
    validate_nonce_sequence(&c, &good).unwrap();

    let gapped = vec![
        Transaction::new("alice".to_string(), "bob".to_string(), 1, 0),
        Transaction::new("alice".to_string(), "bob".to_string(), 1, 2),
    ];
    let err = validate_nonce_sequence(&c, &gapped).unwrap_err().message();
    assert!(err.contains("invalid nonce"), "unexpected error: {err}");
}

#[test]
fn mempool_scenario_base_zero_pool_ends_at_two() {
    let mut mp = Mempool::default();

    mp.add_tx_checked(
        Transaction::new("alice".to_string(), "bob".to_string(), 1, 0),
        0,
    )
    .unwrap();

    let err = mp
        .add_tx_checked(
            Transaction::new("alice".to_string(), "bob".to_string(), 1, 2),
            0,
        )
        .unwrap_err()
        .message();
    assert!(err.contains("invalid nonce"), "unexpected error: {err}");

    mp.add_tx_checked(
        Transaction::new("alice".to_string(), "bob".to_string(), 1, 1),
        0,
    )
    .unwrap();

    assert_eq!(mp.txs.len(), 2);
}
