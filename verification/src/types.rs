//! The ledger data types: transactions, block headers and blocks, with the
//! shape and signature rules a transaction must satisfy before admission.

use vstd::prelude::*;
use crate::bytes::{spec_str_bytes, spec_u64_be, push_str_bytes, push_u64_be};
use crate::crypto::spec_ed25519_verifies;
use crate::errors::TxError;
use crate::util::{spec_trimmed, str_eq, trim_str};

verus! {

/// A transfer of value, or a coinbase mint when `from` is the sentinel
/// "SYSTEM" address. The signature fields and the memo never enter the
/// transaction's identity.
#[derive(Clone, Debug, PartialEq, Eq)]
pub struct Transaction {
    pub from: String,
    pub to: String,
    pub amount: u64,
    pub fee: u64,
    pub nonce: u64,
    /// Optional ed25519 public key (hex) used to verify `signature_b64`.
    pub pubkey_hex: Option<String>,
    /// Optional ed25519 signature (base64) over the signing payload bytes.
    pub signature_b64: Option<String>,
    /// Optional free-form note, at most 128 characters.
    pub memo: Option<String>,
}

/// The fields a signature covers; attaching a signature never changes them.
#[derive(Clone, Debug, PartialEq, Eq)]
pub struct TxSignPayload {
    pub from: String,
    pub to: String,
    pub amount: u64,
    pub fee: u64,
    pub nonce: u64,
}

/// Block header: linkage, timestamp, proof-of-work counter and merkle root.
#[derive(Clone, Debug, PartialEq, Eq)]
pub struct BlockHeader {
    pub prev_hash: String,
    pub timestamp_ms: u64,
    pub nonce: u64,
    pub merkle_root: String,
}

/// Block = header + ordered transactions.
#[derive(Clone, Debug, PartialEq, Eq)]
pub struct Block {
    pub header: BlockHeader,
    pub txs: Vec<Transaction>,
}

/// Whether a transaction mints new value.
pub open spec fn spec_is_coinbase(tx: Transaction) -> bool {
    tx.from@ == "SYSTEM"@
}

/// The canonical bytes a signature covers: the five payload fields,
/// strings length-prefixed, integers big-endian.
pub open spec fn spec_signing_bytes(tx: Transaction) -> Seq<u8> {
    spec_str_bytes(tx.from@) + spec_str_bytes(tx.to@) + spec_u64_be(tx.amount) + spec_u64_be(
        tx.fee,
    ) + spec_u64_be(tx.nonce)
}

/// The shape rules: non-blank endpoints that differ, a positive amount and a
/// bounded memo.
pub open spec fn spec_validate_basic(tx: Transaction) -> Result<(), TxError> {
    if spec_trimmed(tx.from@).len() == 0 {
        Err(TxError::EmptyFrom)
    } else if spec_trimmed(tx.to@).len() == 0 {
        Err(TxError::EmptyTo)
    } else if tx.from@ == tx.to@ {
        Err(TxError::SameFromTo)
    } else if tx.amount == 0 {
        Err(TxError::ZeroAmount)
    } else if match tx.memo {
        Some(m) => m@.len() > 128,
        None => false,
    } {
        Err(TxError::MemoTooLong)
    } else {
        Ok(())
    }
}

/// The signature rules: both fields or neither; if both, the key must be the
/// sender and the signature must verify over the signing payload bytes.
pub open spec fn spec_verify_signature(tx: Transaction) -> Result<(), TxError> {
    match (tx.pubkey_hex, tx.signature_b64) {
        (Option::None, Option::None) => Ok(()),
        (Option::Some(_), Option::None) => Err(TxError::SignatureFieldsMismatch),
        (Option::None, Option::Some(_)) => Err(TxError::SignatureFieldsMismatch),
        (Option::Some(pk), Option::Some(sig)) => {
            if tx.from@ != pk@ {
                Err(TxError::FromPubkeyMismatch)
            } else if !spec_ed25519_verifies(pk@, spec_signing_bytes(tx), sig@) {
                Err(TxError::BadSignature)
            } else {
                Ok(())
            }
        },
    }
}

/// Full admission shape check: shape rules first, then the signature rules.
pub open spec fn spec_validate_accept(tx: Transaction) -> Result<(), TxError> {
    if spec_validate_basic(tx) is Err {
        spec_validate_basic(tx)
    } else {
        spec_verify_signature(tx)
    }
}

/// Two signing payload encodings starting at the same place agree on every
/// payload field: the encoding is prefix-deterministic.
pub(crate) proof fn lemma_signing_bytes_det(t1: Transaction, t2: Transaction, s: Seq<u8>)
    requires
        crate::bytes::is_prefix(spec_signing_bytes(t1), s),
        crate::bytes::is_prefix(spec_signing_bytes(t2), s),
        vstd::utf8::encode_utf8(t1.from@).len() <= u64::MAX,
        vstd::utf8::encode_utf8(t1.to@).len() <= u64::MAX,
        vstd::utf8::encode_utf8(t2.from@).len() <= u64::MAX,
        vstd::utf8::encode_utf8(t2.to@).len() <= u64::MAX,
    ensures
        t1.from@ == t2.from@,
        t1.to@ == t2.to@,
        t1.amount == t2.amount,
        t1.fee == t2.fee,
        t1.nonce == t2.nonce,
{
    let a1 = spec_str_bytes(t1.from@);
    let b1 = spec_str_bytes(t1.to@);
    let c1 = spec_u64_be(t1.amount);
    let d1 = spec_u64_be(t1.fee);
    let e1 = spec_u64_be(t1.nonce);
    let a2 = spec_str_bytes(t2.from@);
    let b2 = spec_str_bytes(t2.to@);
    let c2 = spec_u64_be(t2.amount);
    let d2 = spec_u64_be(t2.fee);
    let e2 = spec_u64_be(t2.nonce);
    assert(spec_signing_bytes(t1) =~= a1 + (b1 + (c1 + (d1 + e1))));
    assert(spec_signing_bytes(t2) =~= a2 + (b2 + (c2 + (d2 + e2))));
    crate::bytes::lemma_prefix_split(a1, b1 + (c1 + (d1 + e1)), s);
    crate::bytes::lemma_prefix_split(a2, b2 + (c2 + (d2 + e2)), s);
    crate::bytes::lemma_str_bytes_det(t1.from@, t2.from@, s);
    let s1 = s.skip(a1.len() as int);
    assert(s.skip(a2.len() as int) == s1);
    crate::bytes::lemma_prefix_split(b1, c1 + (d1 + e1), s1);
    crate::bytes::lemma_prefix_split(b2, c2 + (d2 + e2), s1);
    crate::bytes::lemma_str_bytes_det(t1.to@, t2.to@, s1);
    let s2 = s1.skip(b1.len() as int);
    assert(s1.skip(b2.len() as int) == s2);
    crate::bytes::lemma_prefix_split(c1, d1 + e1, s2);
    crate::bytes::lemma_prefix_split(c2, d2 + e2, s2);
    crate::bytes::lemma_u64_be_det(t1.amount, t2.amount, s2);
    let s3 = s2.skip(8);
    crate::bytes::lemma_prefix_split(d1, e1, s3);
    crate::bytes::lemma_prefix_split(d2, e2, s3);
    crate::bytes::lemma_u64_be_det(t1.fee, t2.fee, s3);
    let s4 = s3.skip(8);
    crate::bytes::lemma_u64_be_det(t1.nonce, t2.nonce, s4);
}

/// The signing payload encoding is injective: two transactions with the
/// same signing bytes agree on every payload field. Distinct payloads can
/// therefore share an id only through a digest collision. (The length
/// bounds hold of any string that fits in memory.)
pub proof fn lemma_signing_bytes_injective(t1: Transaction, t2: Transaction)
    requires
        spec_signing_bytes(t1) == spec_signing_bytes(t2),
        vstd::utf8::encode_utf8(t1.from@).len() <= u64::MAX,
        vstd::utf8::encode_utf8(t1.to@).len() <= u64::MAX,
        vstd::utf8::encode_utf8(t2.from@).len() <= u64::MAX,
        vstd::utf8::encode_utf8(t2.to@).len() <= u64::MAX,
    ensures
        t1.from@ == t2.from@,
        t1.to@ == t2.to@,
        t1.amount == t2.amount,
        t1.fee == t2.fee,
        t1.nonce == t2.nonce,
{
    let s = spec_signing_bytes(t1);
    assert(s.subrange(0, s.len() as int) =~= s);
    assert(crate::bytes::is_prefix(spec_signing_bytes(t1), s));
    assert(crate::bytes::is_prefix(spec_signing_bytes(t2), s));
    lemma_signing_bytes_det(t1, t2, s);
}

impl Transaction {
    pub fn new(from: String, to: String, amount: u64, nonce: u64) -> (r: Transaction)
        ensures
            r.from == from,
            r.to == to,
            r.amount == amount,
            r.fee == 0,
            r.nonce == nonce,
            r.pubkey_hex is None,
            r.signature_b64 is None,
            r.memo is None,
    {
        Transaction {
            from,
            to,
            amount,
            fee: 0,
            nonce,
            pubkey_hex: None,
            signature_b64: None,
            memo: None,
        }
    }

    pub fn new_with_fee(from: String, to: String, amount: u64, fee: u64, nonce: u64) -> (r:
        Transaction)
        ensures
            r.from == from,
            r.to == to,
            r.amount == amount,
            r.fee == fee,
            r.nonce == nonce,
            r.pubkey_hex is None,
            r.signature_b64 is None,
            r.memo is None,
    {
        Transaction { from, to, amount, fee, nonce, pubkey_hex: None, signature_b64: None, memo: None }
    }

    /// An equal copy; spelled out so the equality is known to the verifier.
    pub fn duplicate(&self) -> (r: Transaction)
        ensures
            r == *self,
    {
        let r = Transaction {
            from: self.from.clone(),
            to: self.to.clone(),
            amount: self.amount,
            fee: self.fee,
            nonce: self.nonce,
            pubkey_hex: clone_opt_string(&self.pubkey_hex),
            signature_b64: clone_opt_string(&self.signature_b64),
            memo: clone_opt_string(&self.memo),
        };
        r
    }

    pub fn is_coinbase(&self) -> (r: bool)
        ensures
            r == spec_is_coinbase(*self),
    {
        str_eq(self.from.as_str(), "SYSTEM")
    }

    pub fn signing_payload(&self) -> (r: TxSignPayload)
        ensures
            r.from == self.from,
            r.to == self.to,
            r.amount == self.amount,
            r.fee == self.fee,
            r.nonce == self.nonce,
    {
        TxSignPayload {
            from: self.from.clone(),
            to: self.to.clone(),
            amount: self.amount,
            fee: self.fee,
            nonce: self.nonce,
        }
    }

    /// The bytes whose digest is the transaction's identity and over which a
    /// signature is made: only the payload fields enter.
    pub fn signing_bytes(&self) -> (r: Vec<u8>)
        ensures
            r@ == spec_signing_bytes(*self),
    {
        let mut v: Vec<u8> = Vec::new();
        push_str_bytes(&mut v, self.from.as_str());
        push_str_bytes(&mut v, self.to.as_str());
        push_u64_be(&mut v, self.amount);
        push_u64_be(&mut v, self.fee);
        push_u64_be(&mut v, self.nonce);
        assert(v@ =~= spec_signing_bytes(*self));
        v
    }

    pub fn validate_basic(&self) -> (r: Result<(), TxError>)
        ensures
            r == spec_validate_basic(*self),
    {
        if trim_str(self.from.as_str()).is_empty() {
            return Err(TxError::EmptyFrom);
        }
        if trim_str(self.to.as_str()).is_empty() {
            return Err(TxError::EmptyTo);
        }
        if str_eq(self.from.as_str(), self.to.as_str()) {
            return Err(TxError::SameFromTo);
        }
        if self.amount == 0 {
            return Err(TxError::ZeroAmount);
        }
        match &self.memo {
            Some(m) => {
                if m.as_str().unicode_len() > 128 {
                    return Err(TxError::MemoTooLong);
                }
            },
            None => {},
        }
        Ok(())
    }

    /// Verify the signature if present: both fields or neither; a lone field,
    /// a key that is not the sender, or a failing signature are errors.
    pub fn verify_signature_if_present(&self) -> (r: Result<(), TxError>)
        ensures
            r == spec_verify_signature(*self),
    {
        match (&self.pubkey_hex, &self.signature_b64) {
            (Option::None, Option::None) => Ok(()),
            (Option::Some(_), Option::None) => Err(TxError::SignatureFieldsMismatch),
            (Option::None, Option::Some(_)) => Err(TxError::SignatureFieldsMismatch),
            (Option::Some(pk), Option::Some(sig)) => {
                if !str_eq(self.from.as_str(), pk.as_str()) {
                    return Err(TxError::FromPubkeyMismatch);
                }
                let msg = self.signing_bytes();
                if !crate::crypto::ed25519_verify(pk.as_str(), msg.as_slice(), sig.as_str()) {
                    return Err(TxError::BadSignature);
                }
                Ok(())
            },
        }
    }

    /// Shape legality plus signature verification, as required for admission
    /// into the mempool or a block.
    pub fn validate_accept(&self) -> (r: Result<(), TxError>)
        ensures
            r == spec_validate_accept(*self),
    {
        match self.validate_basic() {
            Err(e) => Err(e),
            Ok(()) => self.verify_signature_if_present(),
        }
    }
}

/// An equal copy of an optional string.
fn clone_opt_string(s: &Option<String>) -> (r: Option<String>)
    ensures
        r == *s,
{
    match s {
        Option::None => Option::None,
        Option::Some(t) => Option::Some(t.clone()),
    }
}

impl BlockHeader {
    /// An equal copy; spelled out so the equality is known to the verifier.
    pub fn duplicate(&self) -> (r: BlockHeader)
        ensures
            r == *self,
    {
        BlockHeader {
            prev_hash: self.prev_hash.clone(),
            timestamp_ms: self.timestamp_ms,
            nonce: self.nonce,
            merkle_root: self.merkle_root.clone(),
        }
    }
}

impl Block {
    /// A copy with an equal header and element-wise equal transactions.
    pub fn duplicate(&self) -> (r: Block)
        ensures
            r.header == self.header,
            r.txs@ == self.txs@,
    {
        let header = self.header.duplicate();
        let mut txs: Vec<Transaction> = Vec::new();
        let mut i: usize = 0;
        while i < self.txs.len()
            invariant
                i <= self.txs.len(),
                txs@ =~= self.txs@.subrange(0, i as int),
            decreases self.txs.len() - i,
        {
            txs.push(self.txs[i].duplicate());
            i = i + 1;
        }
        assert(txs@ =~= self.txs@);
        Block { header, txs }
    }
}

} // verus!
