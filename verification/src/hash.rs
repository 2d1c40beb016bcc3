//! Transaction identity: the SHA-256 hex digest of the signing payload
//! bytes. Signature fields and memo never enter it.

use vstd::prelude::*;
use crate::crypto::{sha256_hex, spec_sha256_hex_of};
use crate::types::{spec_signing_bytes, Transaction};

verus! {

/// A transaction's identity: the digest of its signing payload bytes.
pub open spec fn spec_tx_id(tx: Transaction) -> Seq<char> {
    spec_sha256_hex_of(spec_signing_bytes(tx))
}

/// Stable transaction id: the digest of the signing payload, so an id never
/// changes when a signature is attached.
pub fn tx_hash(tx: &Transaction) -> (r: String)
    ensures
        r@ == spec_tx_id(*tx),
        r@.len() == 64,
{
    let bytes = tx.signing_bytes();
    sha256_hex(bytes.as_slice())
}

impl Transaction {
    /// The transaction's identity, used by the mempool and for gossip
    /// deduplication.
    pub fn id(&self) -> (r: String)
        ensures
            r@ == spec_tx_id(*self),
            r@.len() == 64,
    {
        tx_hash(self)
    }
}

/// A transaction's id is invariant under signing: two transactions with the
/// same payload fields have the same id, whatever their signature fields
/// and memos.
pub proof fn lemma_tx_id_ignores_signature_fields(tx1: Transaction, tx2: Transaction)
    requires
        tx1.from@ == tx2.from@,
        tx1.to@ == tx2.to@,
        tx1.amount == tx2.amount,
        tx1.fee == tx2.fee,
        tx1.nonce == tx2.nonce,
    ensures
        spec_tx_id(tx1) == spec_tx_id(tx2),
{
    assert(spec_signing_bytes(tx1) == spec_signing_bytes(tx2));
}

} // verus!
