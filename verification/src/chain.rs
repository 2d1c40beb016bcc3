//! The chain and consensus engine: block hashing, the merkle root over
//! transaction ids, the proof-of-work test, and the chain itself with
//! mining, validation and tip append.

use vstd::prelude::*;
use vstd::string::StringExecFns;
use crate::bytes::{
    push_opt_str_bytes, push_str_bytes, push_u64_be, spec_opt_str_bytes, spec_opt_view,
    spec_str_bytes, spec_u64_be,
};
use crate::crypto::{sha256_hex, spec_sha256_hex_of};
use crate::errors::{ChainError, StateError, TxError};
use crate::hash::{spec_tx_id, tx_hash};
use crate::mempool::spec_expected_nonce;
use crate::state::{spec_apply_txs, spec_block_check, Account, State};
use crate::time::now_ms;
use crate::types::{
    spec_signing_bytes, spec_validate_accept, Block, BlockHeader, Transaction,
};
use crate::util::str_eq;
use vstd::utf8::encode_utf8;

verus! {

/// The canonical bytes of a block header.
pub open spec fn spec_header_bytes(h: BlockHeader) -> Seq<u8> {
    spec_str_bytes(h.prev_hash@) + spec_u64_be(h.timestamp_ms) + spec_u64_be(h.nonce)
        + spec_str_bytes(h.merkle_root@)
}

/// The canonical bytes of a whole transaction: the signing payload fields,
/// then the optional signature fields and memo.
pub open spec fn spec_tx_bytes(tx: Transaction) -> Seq<u8> {
    spec_signing_bytes(tx) + spec_opt_str_bytes(spec_opt_view(tx.pubkey_hex))
        + spec_opt_str_bytes(spec_opt_view(tx.signature_b64)) + spec_opt_str_bytes(
        spec_opt_view(tx.memo),
    )
}

/// The canonical bytes of a transaction list, in order.
pub open spec fn spec_txs_bytes(txs: Seq<Transaction>) -> Seq<u8>
    decreases txs.len(),
{
    if txs.len() == 0 {
        Seq::<u8>::empty()
    } else {
        spec_tx_bytes(txs[0]) + spec_txs_bytes(txs.drop_first())
    }
}

/// Appending a transaction appends its bytes.
pub proof fn lemma_txs_bytes_push(txs: Seq<Transaction>, t: Transaction)
    ensures
        spec_txs_bytes(txs.push(t)) == spec_txs_bytes(txs) + spec_tx_bytes(t),
    decreases txs.len(),
{
    let e2 = txs.push(t);
    if txs.len() == 0 {
        assert(e2[0] == t);
        assert(e2.drop_first() =~= Seq::<Transaction>::empty());
        assert(spec_txs_bytes(e2) == spec_tx_bytes(t) + spec_txs_bytes(e2.drop_first()));
        assert(spec_tx_bytes(t) + Seq::<u8>::empty() =~= spec_tx_bytes(t));
        assert(Seq::<u8>::empty() + spec_tx_bytes(t) =~= spec_tx_bytes(t));
    } else {
        assert(e2[0] == txs[0]);
        assert(e2.drop_first() =~= txs.drop_first().push(t));
        lemma_txs_bytes_push(txs.drop_first(), t);
        assert(spec_txs_bytes(e2) == spec_tx_bytes(txs[0]) + (spec_txs_bytes(txs.drop_first())
            + spec_tx_bytes(t)));
        assert(spec_tx_bytes(txs[0]) + (spec_txs_bytes(txs.drop_first()) + spec_tx_bytes(t)) =~= (
        spec_tx_bytes(txs[0]) + spec_txs_bytes(txs.drop_first())) + spec_tx_bytes(t));
    }
}

/// The canonical bytes of a whole block: header, transaction count, then
/// each transaction.
#[verifier::opaque]
pub open spec fn spec_block_bytes(h: BlockHeader, txs: Seq<Transaction>) -> Seq<u8> {
    spec_header_bytes(h) + spec_u64_be(txs.len() as u64) + spec_txs_bytes(txs)
}

/// A block's identity: the hex digest of its canonical bytes. It serves as
/// the PoW subject and as the next block's `prev_hash`.
pub open spec fn spec_block_hash(h: BlockHeader, txs: Seq<Transaction>) -> Seq<char> {
    spec_sha256_hex_of(spec_block_bytes(h, txs))
}

/// The concatenation of the ids of a transaction list, in order.
pub open spec fn spec_tx_ids_concat(txs: Seq<Transaction>) -> Seq<char>
    decreases txs.len(),
{
    if txs.len() == 0 {
        Seq::<char>::empty()
    } else {
        spec_tx_ids_concat(txs.drop_last()) + spec_tx_id(txs.last())
    }
}

/// The merkle root: the digest of the empty byte string for no
/// transactions, else the digest of the concatenated transaction ids.
/// Order-sensitive by construction.
pub open spec fn spec_merkle_root(txs: Seq<Transaction>) -> Seq<char> {
    if txs.len() == 0 {
        spec_sha256_hex_of(Seq::<u8>::empty())
    } else {
        spec_sha256_hex_of(encode_utf8(spec_tx_ids_concat(txs)))
    }
}

/// Swapping two transactions with distinct ids changes the merkle digest's
/// preimage: the concatenated id strings differ, so only a digest collision
/// could leave the root unchanged. (Ids as computed are equal-length hex
/// digests.)
pub proof fn lemma_merkle_input_order_sensitive(t1: Transaction, t2: Transaction)
    requires
        spec_tx_id(t1).len() == spec_tx_id(t2).len(),
        spec_tx_id(t1) != spec_tx_id(t2),
    ensures
        spec_tx_ids_concat(seq![t1, t2]) != spec_tx_ids_concat(seq![t2, t1]),
{
    let a = spec_tx_id(t1);
    let b = spec_tx_id(t2);
    assert(seq![t1, t2].drop_last() =~= seq![t1]);
    assert(seq![t2, t1].drop_last() =~= seq![t2]);
    assert(seq![t1].drop_last() =~= Seq::<Transaction>::empty());
    assert(seq![t2].drop_last() =~= Seq::<Transaction>::empty());
    assert(seq![t1, t2].last() == t2 && seq![t2, t1].last() == t1);
    assert(seq![t1].last() == t1 && seq![t2].last() == t2);
    assert(spec_tx_ids_concat(seq![t1]) == spec_tx_ids_concat(Seq::<Transaction>::empty()) + a);
    assert(spec_tx_ids_concat(seq![t2]) == spec_tx_ids_concat(Seq::<Transaction>::empty()) + b);
    assert(spec_tx_ids_concat(seq![t1]) =~= a);
    assert(spec_tx_ids_concat(seq![t2]) =~= b);
    assert(spec_tx_ids_concat(seq![t1, t2]) == spec_tx_ids_concat(seq![t1]) + b);
    assert(spec_tx_ids_concat(seq![t2, t1]) == spec_tx_ids_concat(seq![t2]) + a);
    if spec_tx_ids_concat(seq![t1, t2]) == spec_tx_ids_concat(seq![t2, t1]) {
        assert(a + b == b + a);
        assert forall|i: int| 0 <= i < a.len() implies a[i] == b[i] by {
            assert((a + b)[i] == a[i]);
            assert((b + a)[i] == b[i]);
        }
        assert(a =~= b);
    }
}

/// Whether a string's UTF-8 form fits the length prefix; true of any
/// string that fits in memory.
pub open spec fn spec_str_fits(s: Seq<char>) -> bool {
    vstd::utf8::encode_utf8(s).len() <= u64::MAX
}

/// Whether every string of a transaction fits its length prefix.
pub open spec fn spec_tx_fits(tx: Transaction) -> bool {
    &&& spec_str_fits(tx.from@)
    &&& spec_str_fits(tx.to@)
    &&& (tx.pubkey_hex matches Some(p) ==> spec_str_fits(p@))
    &&& (tx.signature_b64 matches Some(p) ==> spec_str_fits(p@))
    &&& (tx.memo matches Some(p) ==> spec_str_fits(p@))
}

/// Whether a header's strings fit their length prefixes.
pub open spec fn spec_header_fits(h: BlockHeader) -> bool {
    spec_str_fits(h.prev_hash@) && spec_str_fits(h.merkle_root@)
}

/// Whether a whole block fits the encoding's length prefixes.
pub open spec fn spec_block_fits(h: BlockHeader, txs: Seq<Transaction>) -> bool {
    spec_header_fits(h) && txs.len() <= u64::MAX && forall|i: int|
        0 <= i < txs.len() ==> spec_tx_fits(#[trigger] txs[i])
}

/// Agreement of two transactions on every field, by view.
pub open spec fn tx_sim(a: Transaction, b: Transaction) -> bool {
    &&& a.from@ == b.from@
    &&& a.to@ == b.to@
    &&& a.amount == b.amount
    &&& a.fee == b.fee
    &&& a.nonce == b.nonce
    &&& spec_opt_view(a.pubkey_hex) == spec_opt_view(b.pubkey_hex)
    &&& spec_opt_view(a.signature_b64) == spec_opt_view(b.signature_b64)
    &&& spec_opt_view(a.memo) == spec_opt_view(b.memo)
}

/// Agreement of two headers on every field, by view.
pub open spec fn header_sim(a: BlockHeader, b: BlockHeader) -> bool {
    a.prev_hash@ == b.prev_hash@ && a.timestamp_ms == b.timestamp_ms && a.nonce == b.nonce
        && a.merkle_root@ == b.merkle_root@
}

/// The offsets of a transaction's components inside its encoding.
pub open spec fn spec_tx_off1(t: Transaction) -> int {
    spec_str_bytes(t.from@).len() as int
}

pub open spec fn spec_tx_off2(t: Transaction) -> int {
    spec_tx_off1(t) + spec_str_bytes(t.to@).len()
}

pub open spec fn spec_tx_off5(t: Transaction) -> int {
    spec_tx_off2(t) + 24
}

pub open spec fn spec_tx_off6(t: Transaction) -> int {
    spec_tx_off5(t) + spec_opt_str_bytes(spec_opt_view(t.pubkey_hex)).len()
}

pub open spec fn spec_tx_off7(t: Transaction) -> int {
    spec_tx_off6(t) + spec_opt_str_bytes(spec_opt_view(t.signature_b64)).len()
}

/// A transaction encoding at the head of `s` puts each component at its
/// offset.
#[verifier::rlimit(100)]
#[verifier::spinoff_prover]
pub proof fn lemma_tx_bytes_split(t: Transaction, s: Seq<u8>)
    requires
        crate::bytes::is_prefix(spec_tx_bytes(t), s),
    ensures
        crate::bytes::is_prefix(spec_str_bytes(t.from@), s),
        crate::bytes::is_prefix(spec_str_bytes(t.to@), s.skip(spec_tx_off1(t))),
        crate::bytes::is_prefix(spec_u64_be(t.amount), s.skip(spec_tx_off2(t))),
        crate::bytes::is_prefix(spec_u64_be(t.fee), s.skip(spec_tx_off2(t) + 8)),
        crate::bytes::is_prefix(spec_u64_be(t.nonce), s.skip(spec_tx_off2(t) + 16)),
        crate::bytes::is_prefix(
            spec_opt_str_bytes(spec_opt_view(t.pubkey_hex)),
            s.skip(spec_tx_off5(t)),
        ),
        crate::bytes::is_prefix(
            spec_opt_str_bytes(spec_opt_view(t.signature_b64)),
            s.skip(spec_tx_off6(t)),
        ),
        crate::bytes::is_prefix(spec_opt_str_bytes(spec_opt_view(t.memo)), s.skip(spec_tx_off7(t))),
        spec_tx_bytes(t).len() == spec_tx_off7(t) + spec_opt_str_bytes(spec_opt_view(t.memo)).len(),
        crate::bytes::is_prefix(spec_signing_bytes(t), s),
        spec_signing_bytes(t).len() == spec_tx_off5(t),
{
    let a = spec_str_bytes(t.from@);
    let b = spec_str_bytes(t.to@);
    let c = spec_u64_be(t.amount);
    let d = spec_u64_be(t.fee);
    let e = spec_u64_be(t.nonce);
    let f = spec_opt_str_bytes(spec_opt_view(t.pubkey_hex));
    let g = spec_opt_str_bytes(spec_opt_view(t.signature_b64));
    let h = spec_opt_str_bytes(spec_opt_view(t.memo));
    let sg = spec_signing_bytes(t);
    assert(spec_tx_bytes(t) =~= sg + (f + (g + h)));
    crate::bytes::lemma_prefix_split(sg, f + (g + h), s);
    assert(sg =~= a + (b + (c + (d + e))));
    crate::bytes::lemma_prefix_split(a, b + (c + (d + e)), s);
    let s1 = s.skip(spec_tx_off1(t));
    crate::bytes::lemma_prefix_split(b, c + (d + (e)), s1);
    crate::bytes::lemma_skip_skip(s, spec_tx_off1(t), b.len() as int);
    let s2 = s.skip(spec_tx_off2(t));
    crate::bytes::lemma_prefix_split(c, d + (e), s2);
    crate::bytes::lemma_skip_skip(s, spec_tx_off2(t), 8);
    let s3 = s.skip(spec_tx_off2(t) + 8);
    crate::bytes::lemma_prefix_split(d, e, s3);
    crate::bytes::lemma_skip_skip(s, spec_tx_off2(t) + 8, 8);
    let s5 = s.skip(spec_tx_off5(t));
    crate::bytes::lemma_prefix_split(f, g + h, s5);
    crate::bytes::lemma_skip_skip(s, spec_tx_off5(t), f.len() as int);
    let s6 = s.skip(spec_tx_off6(t));
    crate::bytes::lemma_prefix_split(g, h, s6);
    crate::bytes::lemma_skip_skip(s, spec_tx_off6(t), g.len() as int);
}

/// A signing payload encoding at the head of `s` puts each field at its
/// offset.
pub(crate) proof fn lemma_signing_bytes_split(t: Transaction, s: Seq<u8>)
    requires
        crate::bytes::is_prefix(spec_signing_bytes(t), s),
    ensures
        crate::bytes::is_prefix(spec_str_bytes(t.from@), s),
        crate::bytes::is_prefix(spec_str_bytes(t.to@), s.skip(spec_tx_off1(t))),
        crate::bytes::is_prefix(spec_u64_be(t.amount), s.skip(spec_tx_off2(t))),
        crate::bytes::is_prefix(spec_u64_be(t.fee), s.skip(spec_tx_off2(t) + 8)),
        crate::bytes::is_prefix(spec_u64_be(t.nonce), s.skip(spec_tx_off2(t) + 16)),
        spec_signing_bytes(t).len() == spec_tx_off5(t),
{
    let a = spec_str_bytes(t.from@);
    let b = spec_str_bytes(t.to@);
    let c = spec_u64_be(t.amount);
    let d = spec_u64_be(t.fee);
    let e = spec_u64_be(t.nonce);
    assert(spec_signing_bytes(t) =~= a + (b + (c + (d + e))));
    crate::bytes::lemma_prefix_split(a, b + (c + (d + e)), s);
    let s1 = s.skip(spec_tx_off1(t));
    crate::bytes::lemma_prefix_split(b, c + (d + e), s1);
    crate::bytes::lemma_skip_skip(s, spec_tx_off1(t), b.len() as int);
    let s2 = s.skip(spec_tx_off2(t));
    crate::bytes::lemma_prefix_split(c, d + e, s2);
    crate::bytes::lemma_skip_skip(s, spec_tx_off2(t), 8);
    let s3 = s.skip(spec_tx_off2(t) + 8);
    crate::bytes::lemma_prefix_split(d, e, s3);
    crate::bytes::lemma_skip_skip(s, spec_tx_off2(t) + 8, 8);
}

/// Two whole-transaction encodings starting at the same place agree.
proof fn lemma_tx_bytes_det(t1: Transaction, t2: Transaction, s: Seq<u8>)
    requires
        crate::bytes::is_prefix(spec_tx_bytes(t1), s),
        crate::bytes::is_prefix(spec_tx_bytes(t2), s),
        spec_tx_fits(t1),
        spec_tx_fits(t2),
    ensures
        tx_sim(t1, t2),
        spec_tx_bytes(t1) == spec_tx_bytes(t2),
{
    let a1 = crate::types::spec_signing_bytes(t1);
    let b1 = spec_opt_str_bytes(spec_opt_view(t1.pubkey_hex));
    let c1 = spec_opt_str_bytes(spec_opt_view(t1.signature_b64));
    let d1 = spec_opt_str_bytes(spec_opt_view(t1.memo));
    let a2 = crate::types::spec_signing_bytes(t2);
    let b2 = spec_opt_str_bytes(spec_opt_view(t2.pubkey_hex));
    let c2 = spec_opt_str_bytes(spec_opt_view(t2.signature_b64));
    let d2 = spec_opt_str_bytes(spec_opt_view(t2.memo));
    assert(spec_tx_bytes(t1) =~= a1 + (b1 + (c1 + d1)));
    assert(spec_tx_bytes(t2) =~= a2 + (b2 + (c2 + d2)));
    crate::bytes::lemma_prefix_split(a1, b1 + (c1 + d1), s);
    crate::bytes::lemma_prefix_split(a2, b2 + (c2 + d2), s);
    crate::types::lemma_signing_bytes_det(t1, t2, s);
    assert(a1 == a2);
    let s1 = s.skip(a1.len() as int);
    crate::bytes::lemma_prefix_split(b1, c1 + d1, s1);
    crate::bytes::lemma_prefix_split(b2, c2 + d2, s1);
    crate::bytes::lemma_opt_str_bytes_det(
        spec_opt_view(t1.pubkey_hex),
        spec_opt_view(t2.pubkey_hex),
        s1,
    );
    let s2 = s1.skip(b1.len() as int);
    crate::bytes::lemma_prefix_split(c1, d1, s2);
    crate::bytes::lemma_prefix_split(c2, d2, s2);
    crate::bytes::lemma_opt_str_bytes_det(
        spec_opt_view(t1.signature_b64),
        spec_opt_view(t2.signature_b64),
        s2,
    );
    let s3 = s2.skip(c1.len() as int);
    crate::bytes::lemma_opt_str_bytes_det(spec_opt_view(t1.memo), spec_opt_view(t2.memo), s3);
    assert(spec_tx_bytes(t1) =~= spec_tx_bytes(t2));
}

/// Two header encodings starting at the same place agree.
proof fn lemma_header_bytes_det(h1: BlockHeader, h2: BlockHeader, s: Seq<u8>)
    requires
        crate::bytes::is_prefix(spec_header_bytes(h1), s),
        crate::bytes::is_prefix(spec_header_bytes(h2), s),
        spec_header_fits(h1),
        spec_header_fits(h2),
    ensures
        header_sim(h1, h2),
        spec_header_bytes(h1) == spec_header_bytes(h2),
{
    let a1 = spec_str_bytes(h1.prev_hash@);
    let b1 = spec_u64_be(h1.timestamp_ms);
    let c1 = spec_u64_be(h1.nonce);
    let d1 = spec_str_bytes(h1.merkle_root@);
    let a2 = spec_str_bytes(h2.prev_hash@);
    let b2 = spec_u64_be(h2.timestamp_ms);
    let c2 = spec_u64_be(h2.nonce);
    let d2 = spec_str_bytes(h2.merkle_root@);
    assert(spec_header_bytes(h1) =~= a1 + (b1 + (c1 + d1)));
    assert(spec_header_bytes(h2) =~= a2 + (b2 + (c2 + d2)));
    crate::bytes::lemma_prefix_split(a1, b1 + (c1 + d1), s);
    crate::bytes::lemma_prefix_split(a2, b2 + (c2 + d2), s);
    crate::bytes::lemma_str_bytes_det(h1.prev_hash@, h2.prev_hash@, s);
    let s1 = s.skip(a1.len() as int);
    crate::bytes::lemma_prefix_split(b1, c1 + d1, s1);
    crate::bytes::lemma_prefix_split(b2, c2 + d2, s1);
    crate::bytes::lemma_u64_be_det(h1.timestamp_ms, h2.timestamp_ms, s1);
    let s2 = s1.skip(8);
    crate::bytes::lemma_prefix_split(c1, d1, s2);
    crate::bytes::lemma_prefix_split(c2, d2, s2);
    crate::bytes::lemma_u64_be_det(h1.nonce, h2.nonce, s2);
    let s3 = s2.skip(8);
    crate::bytes::lemma_str_bytes_det(h1.merkle_root@, h2.merkle_root@, s3);
    assert(spec_header_bytes(h1) =~= spec_header_bytes(h2));
}

/// Two transaction-list encodings of equal count agree element-wise.
proof fn lemma_txs_bytes_det(l1: Seq<Transaction>, l2: Seq<Transaction>, s: Seq<u8>)
    requires
        l1.len() == l2.len(),
        crate::bytes::is_prefix(spec_txs_bytes(l1), s),
        crate::bytes::is_prefix(spec_txs_bytes(l2), s),
        forall|i: int| 0 <= i < l1.len() ==> spec_tx_fits(#[trigger] l1[i]),
        forall|i: int| 0 <= i < l2.len() ==> spec_tx_fits(#[trigger] l2[i]),
    ensures
        spec_txs_bytes(l1) == spec_txs_bytes(l2),
        forall|i: int| 0 <= i < l1.len() ==> tx_sim(#[trigger] l1[i], l2[i]),
    decreases l1.len(),
{
    if l1.len() > 0 {
        let h1 = spec_tx_bytes(l1[0]);
        let r1 = spec_txs_bytes(l1.drop_first());
        let h2 = spec_tx_bytes(l2[0]);
        let r2 = spec_txs_bytes(l2.drop_first());
        crate::bytes::lemma_prefix_split(h1, r1, s);
        crate::bytes::lemma_prefix_split(h2, r2, s);
        lemma_tx_bytes_det(l1[0], l2[0], s);
        let s1 = s.skip(h1.len() as int);
        assert forall|i: int| 0 <= i < l1.drop_first().len() implies spec_tx_fits(
            #[trigger] l1.drop_first()[i],
        ) by {
            assert(l1.drop_first()[i] == l1[i + 1]);
        }
        assert forall|i: int| 0 <= i < l2.drop_first().len() implies spec_tx_fits(
            #[trigger] l2.drop_first()[i],
        ) by {
            assert(l2.drop_first()[i] == l2[i + 1]);
        }
        lemma_txs_bytes_det(l1.drop_first(), l2.drop_first(), s1);
        assert forall|i: int| 0 <= i < l1.len() implies tx_sim(#[trigger] l1[i], l2[i]) by {
            if i > 0 {
                assert(l1.drop_first()[i - 1] == l1[i]);
                assert(l2.drop_first()[i - 1] == l2[i]);
            }
        }
        assert(spec_txs_bytes(l1) =~= spec_txs_bytes(l2));
    }
}

/// The block encoding is injective: two blocks with the same canonical
/// bytes agree on the header and on every transaction field. Distinct
/// blocks can therefore share a hash only through a digest collision. (The
/// length bounds hold of any block that fits in memory.)
pub proof fn lemma_block_bytes_injective(
    h1: BlockHeader,
    t1: Seq<Transaction>,
    h2: BlockHeader,
    t2: Seq<Transaction>,
)
    requires
        spec_block_bytes(h1, t1) == spec_block_bytes(h2, t2),
        spec_block_fits(h1, t1),
        spec_block_fits(h2, t2),
    ensures
        header_sim(h1, h2),
        t1.len() == t2.len(),
        forall|i: int| 0 <= i < t1.len() ==> tx_sim(#[trigger] t1[i], t2[i]),
{
    reveal(spec_block_bytes);
    let s = spec_block_bytes(h1, t1);
    assert(s.subrange(0, s.len() as int) =~= s);
    let a1 = spec_header_bytes(h1);
    let b1 = spec_u64_be(t1.len() as u64);
    let c1 = spec_txs_bytes(t1);
    let a2 = spec_header_bytes(h2);
    let b2 = spec_u64_be(t2.len() as u64);
    let c2 = spec_txs_bytes(t2);
    assert(s =~= a1 + (b1 + c1));
    assert(s =~= a2 + (b2 + c2));
    assert(crate::bytes::is_prefix(a1 + (b1 + c1), s));
    assert(crate::bytes::is_prefix(a2 + (b2 + c2), s));
    crate::bytes::lemma_prefix_split(a1, b1 + c1, s);
    crate::bytes::lemma_prefix_split(a2, b2 + c2, s);
    lemma_header_bytes_det(h1, h2, s);
    let s1 = s.skip(a1.len() as int);
    crate::bytes::lemma_prefix_split(b1, c1, s1);
    crate::bytes::lemma_prefix_split(b2, c2, s1);
    crate::bytes::lemma_u64_be_det(t1.len() as u64, t2.len() as u64, s1);
    assert(t1.len() == t2.len());
    let s2 = s1.skip(8);
    lemma_txs_bytes_det(t1, t2, s2);
}

/// Proof of work: the first `d` characters of the hash (or all of them, if
/// it is shorter) are '0'.
pub open spec fn spec_pow_ok(h: Seq<char>, d: int) -> bool {
    forall|i: int| 0 <= i < d && i < h.len() ==> h[i] == '0'
}

/// 64 zero characters: the `prev_hash` of a genesis block.
pub open spec fn zeros64() -> Seq<char> {
    Seq::new(64, |i: int| '0')
}

pub(crate) fn push_tx_bytes(v: &mut Vec<u8>, tx: &Transaction)
    ensures
        final(v)@ == old(v)@ + spec_tx_bytes(*tx),
{
    let mut b = tx.signing_bytes();
    v.append(&mut b);
    push_opt_str_bytes(v, &tx.pubkey_hex);
    push_opt_str_bytes(v, &tx.signature_b64);
    push_opt_str_bytes(v, &tx.memo);
    assert(v@ =~= old(v)@ + spec_tx_bytes(*tx));
}

/// The canonical bytes of a block, as hashed.
pub(crate) fn block_bytes(block: &Block) -> (r: Vec<u8>)
    ensures
        r@ == spec_block_bytes(block.header, block.txs@),
{
    let mut v: Vec<u8> = Vec::new();
    push_str_bytes(&mut v, block.header.prev_hash.as_str());
    push_u64_be(&mut v, block.header.timestamp_ms);
    push_u64_be(&mut v, block.header.nonce);
    push_str_bytes(&mut v, block.header.merkle_root.as_str());
    push_u64_be(&mut v, block.txs.len() as u64);
    let ghost prefix = v@;
    let mut i: usize = 0;
    while i < block.txs.len()
        invariant
            i <= block.txs@.len(),
            v@ == prefix + spec_txs_bytes(block.txs@.subrange(0, i as int)),
        decreases block.txs@.len() - i,
    {
        let ghost pre = block.txs@.subrange(0, i as int);
        push_tx_bytes(&mut v, &block.txs[i]);
        proof {
            assert(block.txs@.subrange(0, i + 1) =~= pre.push(block.txs@[i as int]));
            lemma_txs_bytes_push(pre, block.txs@[i as int]);
            assert(v@ =~= prefix + spec_txs_bytes(block.txs@.subrange(0, i + 1)));
        }
        i = i + 1;
    }
    proof {
        reveal(spec_block_bytes);
        assert(block.txs@.subrange(0, block.txs@.len() as int) =~= block.txs@);
        assert(v@ =~= spec_block_bytes(block.header, block.txs@));
    }
    v
}

/// A block's content hash: deterministic over the full header and
/// transaction set.
pub fn hash_block(block: &Block) -> (r: String)
    ensures
        r@ == spec_block_hash(block.header, block.txs@),
        r@.len() == 64,
{
    let bytes = block_bytes(block);
    sha256_hex(bytes.as_slice())
}

/// The merkle root over the ordered transaction ids; the empty list has its
/// own defined digest.
pub fn merkle_root(txs: &[Transaction]) -> (r: String)
    ensures
        r@ == spec_merkle_root(txs@),
        r@.len() == 64,
{
    if txs.len() == 0 {
        let empty: Vec<u8> = Vec::new();
        return sha256_hex(empty.as_slice());
    }
    let mut joined = String::new();
    let mut i: usize = 0;
    while i < txs.len()
        invariant
            i <= txs@.len(),
            joined@ == spec_tx_ids_concat(txs@.subrange(0, i as int)),
        decreases txs@.len() - i,
    {
        let ghost pre = txs@.subrange(0, i as int);
        let h = tx_hash(&txs[i]);
        joined.append(h.as_str());
        proof {
            assert(txs@.subrange(0, i + 1).drop_last() =~= pre);
            assert(txs@.subrange(0, i + 1).last() == txs@[i as int]);
        }
        i = i + 1;
    }
    proof {
        assert(txs@.subrange(0, txs@.len() as int) =~= txs@);
    }
    let bytes = joined.as_str().as_bytes_vec();
    sha256_hex(bytes.as_slice())
}

/// Very small PoW: the block hash must start with `difficulty` '0' hex
/// characters (trivially satisfied past the end of the hash).
pub fn pow_ok(block_hash: &str, difficulty: usize) -> (r: bool)
    ensures
        r == spec_pow_ok(block_hash@, difficulty as int),
{
    let len = block_hash.unicode_len();
    let n = if difficulty < len {
        difficulty
    } else {
        len
    };
    let mut i: usize = 0;
    while i < n
        invariant
            n <= block_hash@.len(),
            n <= difficulty,
            i <= n,
            (n as int) == if (difficulty as int) < block_hash@.len() {
                difficulty as int
            } else {
                block_hash@.len() as int
            },
            forall|j: int| 0 <= j < i ==> block_hash@[j] == '0',
        decreases n - i,
    {
        if block_hash.get_char(i) != '0' {
            return false;
        }
        i = i + 1;
    }
    true
}

/// The chain: an append-only block sequence, first always genesis, plus the
/// single chain-wide proof-of-work difficulty.
#[derive(Debug)]
pub struct Chain {
    /// Chain-wide PoW difficulty (leading '0' hex chars); every block is
    /// checked against the currently stored value.
    pub pow_difficulty: usize,
    pub blocks: Vec<Block>,
}

/// The first state error when the blocks are replayed from an empty state,
/// starting at block `i` with accounts `m`.
pub open spec fn spec_fold_err(
    m: Map<Seq<char>, Account>,
    blocks: Seq<Block>,
    i: int,
) -> Option<StateError>
    decreases blocks.len() - i,
{
    if i < 0 || i >= blocks.len() {
        None
    } else {
        match spec_block_check(m, blocks[i].txs@, 0) {
            Some(e) => Some(e),
            None => spec_fold_err(spec_apply_txs(m, blocks[i].txs@, 0), blocks, i + 1),
        }
    }
}

/// The accounts after replaying the blocks from `i` on, starting at `m`.
pub open spec fn spec_fold_state(
    m: Map<Seq<char>, Account>,
    blocks: Seq<Block>,
    i: int,
) -> Map<Seq<char>, Account>
    decreases blocks.len() - i,
{
    if i < 0 || i >= blocks.len() {
        m
    } else {
        spec_fold_state(spec_apply_txs(m, blocks[i].txs@, 0), blocks, i + 1)
    }
}

/// The first state error of the whole chain, replayed from genesis.
pub open spec fn spec_chain_state_err(blocks: Seq<Block>) -> Option<StateError> {
    spec_fold_err(Map::<Seq<char>, Account>::empty(), blocks, 0)
}

/// The accounts derived from the whole chain.
pub open spec fn spec_chain_state(blocks: Seq<Block>) -> Map<Seq<char>, Account> {
    spec_fold_state(Map::<Seq<char>, Account>::empty(), blocks, 0)
}

/// The first shape or signature error among `txs[i..]`.
pub open spec fn spec_txs_accept_err(txs: Seq<Transaction>, i: int) -> Option<TxError>
    decreases txs.len() - i,
{
    if i < 0 || i >= txs.len() {
        None
    } else {
        match spec_validate_accept(txs[i]) {
            Err(e) => Some(e),
            Ok(_) => spec_txs_accept_err(txs, i + 1),
        }
    }
}

/// The first structural or consensus error among the blocks after genesis,
/// from block `i` on: transaction shape, linkage, merkle root, then PoW
/// against the difficulty `d`.
pub open spec fn spec_struct_err(blocks: Seq<Block>, d: int, i: int) -> Option<ChainError>
    decreases blocks.len() - i,
{
    if i < 1 || i >= blocks.len() {
        None
    } else {
        let prev = blocks[i - 1];
        let cur = blocks[i];
        match spec_txs_accept_err(cur.txs@, 0) {
            Some(e) => Some(ChainError::TxInvalid(e)),
            None => if cur.header.prev_hash@ != spec_block_hash(prev.header, prev.txs@) {
                Some(ChainError::Linkage)
            } else if cur.header.merkle_root@ != spec_merkle_root(cur.txs@) {
                Some(ChainError::MerkleMismatch)
            } else if !spec_pow_ok(spec_block_hash(cur.header, cur.txs@), d) {
                Some(ChainError::Pow)
            } else {
                spec_struct_err(blocks, d, i + 1)
            },
        }
    }
}

/// What full chain validation returns: genesis shape, then the replayed
/// state, then per-block structure and PoW under the difficulty `d`.
pub open spec fn spec_validate_chain(blocks: Seq<Block>, d: int) -> Result<(), ChainError> {
    if blocks.len() == 0 {
        Err(ChainError::NoBlocks)
    } else if blocks[0].header.prev_hash@ != zeros64() {
        Err(ChainError::GenesisPrevHash)
    } else if blocks[0].header.merkle_root@ != spec_merkle_root(blocks[0].txs@) {
        Err(ChainError::GenesisMerkle)
    } else {
        match spec_chain_state_err(blocks) {
            Some(se) => Err(ChainError::State(se)),
            None => match spec_struct_err(blocks, d, 1) {
                Some(e) => Err(e),
                None => Ok(()),
            },
        }
    }
}

/// A valid chain: one that full validation accepts.
pub open spec fn spec_chain_valid(blocks: Seq<Block>, d: int) -> bool {
    spec_validate_chain(blocks, d) is Ok
}

/// Every valid chain has a well-defined replayed state: its state fold
/// raises no error, so deriving the accounts from it cannot fail.
pub broadcast proof fn lemma_valid_chain_has_state(blocks: Seq<Block>, d: int)
    requires
        #[trigger] spec_chain_valid(blocks, d),
    ensures
        spec_chain_state_err(blocks) is None,
{
}

/// What the single-step tip append checks for a candidate block `b`:
/// transaction shape, linkage to the tip, merkle root, PoW under `d`, and
/// the state transition on the replayed accounts.
#[verifier::opaque]
pub open spec fn spec_append_check(blocks: Seq<Block>, d: int, b: Block) -> Result<(), ChainError>
    recommends
        blocks.len() > 0,
{
    match spec_txs_accept_err(b.txs@, 0) {
        Some(e) => Err(ChainError::TxInvalid(e)),
        None => if b.header.prev_hash@ != spec_block_hash(
            blocks.last().header,
            blocks.last().txs@,
        ) {
            Err(ChainError::Linkage)
        } else if b.header.merkle_root@ != spec_merkle_root(b.txs@) {
            Err(ChainError::MerkleMismatch)
        } else if !spec_pow_ok(spec_block_hash(b.header, b.txs@), d) {
            Err(ChainError::Pow)
        } else {
            match spec_chain_state_err(blocks) {
                Some(se) => Err(ChainError::State(se)),
                None => match spec_block_check(spec_chain_state(blocks), b.txs@, 0) {
                    Some(se) => Err(ChainError::State(se)),
                    None => Ok(()),
                },
            }
        },
    }
}

/// The largest nonce a sender used in `txs`, folded over an accumulator.
pub open spec fn spec_max_nonce_txs(
    txs: Seq<Transaction>,
    sender: Seq<char>,
    acc: Option<u64>,
) -> Option<u64>
    decreases txs.len(),
{
    if txs.len() == 0 {
        acc
    } else {
        let acc2 = if txs[0].from@ == sender {
            match acc {
                None => Some(txs[0].nonce),
                Some(m) => Some(
                    if m > txs[0].nonce {
                        m
                    } else {
                        txs[0].nonce
                    },
                ),
            }
        } else {
            acc
        };
        spec_max_nonce_txs(txs.drop_first(), sender, acc2)
    }
}

/// The largest nonce a sender used anywhere in the blocks.
pub open spec fn spec_max_nonce_blocks(
    blocks: Seq<Block>,
    sender: Seq<char>,
    acc: Option<u64>,
) -> Option<u64>
    decreases blocks.len(),
{
    if blocks.len() == 0 {
        acc
    } else {
        spec_max_nonce_blocks(
            blocks.drop_first(),
            sender,
            spec_max_nonce_txs(blocks[0].txs@, sender, acc),
        )
    }
}

/// The next nonce the chain expects of a sender: one past its largest
/// in-chain nonce (saturating), or 0 if it never sent.
pub open spec fn spec_chain_next_nonce(blocks: Seq<Block>, sender: Seq<char>) -> u64 {
    match spec_max_nonce_blocks(blocks, sender, None) {
        None => 0,
        Some(m) => m.saturating_add(1),
    }
}

/// The summed fees of a transaction list, saturating.
pub open spec fn spec_fee_sum(txs: Seq<Transaction>) -> u64
    decreases txs.len(),
{
    if txs.len() == 0 {
        0
    } else {
        spec_fee_sum(txs.drop_last()).saturating_add(txs.last().fee)
    }
}

/// The coinbase that mining for `miner` prepends: a mint of the fixed block
/// reward of 50 plus the batch's fees.
pub open spec fn spec_coinbase_for(tx: Transaction, miner: Seq<char>, fees: u64) -> bool {
    tx.from@ == "SYSTEM"@ && tx.to@ == miner && tx.amount == (50u64).saturating_add(fees)
        && tx.fee == 0 && tx.nonce == 0 && tx.pubkey_hex is None && tx.signature_b64 is None
        && tx.memo is None
}

/// The total transaction count over the blocks.
pub open spec fn spec_tx_count(blocks: Seq<Block>) -> int
    decreases blocks.len(),
{
    if blocks.len() == 0 {
        0
    } else {
        spec_tx_count(blocks.drop_last()) + blocks.last().txs@.len()
    }
}

proof fn lemma_tx_count_nonneg(blocks: Seq<Block>)
    ensures
        spec_tx_count(blocks) >= 0,
    decreases blocks.len(),
{
    if blocks.len() > 0 {
        lemma_tx_count_nonneg(blocks.drop_last());
    }
}

/// The first shape or signature error among the transactions, if any.
fn txs_accept_check(txs: &Vec<Transaction>) -> (r: Result<(), TxError>)
    ensures
        r is Ok <==> spec_txs_accept_err(txs@, 0) is None,
        r matches Err(e) ==> spec_txs_accept_err(txs@, 0) == Some(e),
{
    let mut j: usize = 0;
    while j < txs.len()
        invariant
            j <= txs@.len(),
            spec_txs_accept_err(txs@, 0) == spec_txs_accept_err(txs@, j as int),
        decreases txs@.len() - j,
    {
        match txs[j].validate_accept() {
            Ok(_) => {},
            Err(e) => {
                return Err(e);
            },
        }
        j = j + 1;
    }
    Ok(())
}

fn default_pow_difficulty() -> (r: usize)
    ensures
        r == 3,
{
    3
}

impl Chain {
    /// A fresh chain holding only a genesis block: all-zero `prev_hash`,
    /// no transactions, the merkle root of the empty set, and the default
    /// difficulty.
    pub fn new_genesis() -> (r: Chain)
        ensures
            r.pow_difficulty == 3,
            r.blocks@.len() == 1,
            r.blocks@[0].header.prev_hash@ == zeros64(),
            r.blocks@[0].header.nonce == 0,
            r.blocks@[0].header.merkle_root@ == spec_merkle_root(Seq::<Transaction>::empty()),
            r.blocks@[0].txs@.len() == 0,
            spec_chain_valid(r.blocks@, r.pow_difficulty as int),
    {
        let empty: Vec<Transaction> = Vec::new();
        let header = BlockHeader {
            prev_hash: zeros_hash(),
            timestamp_ms: now_ms(),
            nonce: 0,
            merkle_root: merkle_root(empty.as_slice()),
        };
        let genesis = Block { header, txs: empty };
        let mut blocks: Vec<Block> = Vec::new();
        blocks.push(genesis);
        let r = Chain { pow_difficulty: default_pow_difficulty(), blocks };
        proof {
            let m0 = Map::<Seq<char>, Account>::empty();
            assert(r.blocks@[0].txs@ =~= Seq::<Transaction>::empty());
            assert(spec_block_check(m0, r.blocks@[0].txs@, 0) is None);
            assert(spec_fold_err(spec_apply_txs(m0, r.blocks@[0].txs@, 0), r.blocks@, 1) is None);
            assert(spec_chain_state_err(r.blocks@) is None);
            assert(spec_struct_err(r.blocks@, r.pow_difficulty as int, 1) is None);
        }
        r
    }

    /// The height: blocks past genesis.
    pub fn height(&self) -> (r: usize)
        ensures
            r as int == if self.blocks@.len() == 0 {
                0int
            } else {
                self.blocks@.len() - 1
            },
    {
        self.blocks.len().saturating_sub(1)
    }

    /// The hash of the tip block.
    pub fn tip_hash(&self) -> (r: String)
        requires
            self.blocks@.len() > 0,
        ensures
            r@ == spec_block_hash(self.blocks@.last().header, self.blocks@.last().txs@),
    {
        let i = self.blocks.len() - 1;
        hash_block(&self.blocks[i])
    }

    /// How many transactions the chain holds, saturating at usize::MAX.
    pub fn tx_count(&self) -> (r: usize)
        ensures
            r as int == if spec_tx_count(self.blocks@) > usize::MAX {
                usize::MAX as int
            } else {
                spec_tx_count(self.blocks@)
            },
    {
        let mut count: usize = 0;
        let mut i: usize = 0;
        while i < self.blocks.len()
            invariant
                i <= self.blocks@.len(),
                count as int == if spec_tx_count(self.blocks@.subrange(0, i as int))
                    > usize::MAX {
                    usize::MAX as int
                } else {
                    spec_tx_count(self.blocks@.subrange(0, i as int))
                },
            decreases self.blocks@.len() - i,
        {
            let ghost pre = self.blocks@.subrange(0, i as int);
            count = count.saturating_add(self.blocks[i].txs.len());
            proof {
                assert(self.blocks@.subrange(0, i + 1).drop_last() =~= pre);
                assert(self.blocks@.subrange(0, i + 1).last() == self.blocks@[i as int]);
                lemma_tx_count_nonneg(pre);
            }
            i = i + 1;
        }
        proof {
            assert(self.blocks@.subrange(0, self.blocks@.len() as int) =~= self.blocks@);
        }
        count
    }

    /// The next expected nonce for `sender` from the chain alone: one past
    /// the largest nonce it used, or 0 if it never sent.
    pub fn next_nonce_for(&self, sender: &str) -> (r: u64)
        ensures
            r == spec_chain_next_nonce(self.blocks@, sender@),
    {
        let mut acc: Option<u64> = None;
        let mut bi: usize = 0;
        proof {
            assert(self.blocks@.skip(0) =~= self.blocks@);
        }
        while bi < self.blocks.len()
            invariant
                bi <= self.blocks@.len(),
                spec_max_nonce_blocks(self.blocks@, sender@, None) == spec_max_nonce_blocks(
                    self.blocks@.skip(bi as int),
                    sender@,
                    acc,
                ),
            decreases self.blocks@.len() - bi,
        {
            let b = &self.blocks[bi];
            let ghost acc0 = acc;
            let mut ti: usize = 0;
            proof {
                assert(b.txs@.skip(0) =~= b.txs@);
            }
            while ti < b.txs.len()
                invariant
                    ti <= b.txs@.len(),
                    bi < self.blocks@.len(),
                    b == &self.blocks[bi as int],
                    spec_max_nonce_blocks(self.blocks@, sender@, None) == spec_max_nonce_blocks(
                        self.blocks@.skip(bi as int),
                        sender@,
                        acc0,
                    ),
                    spec_max_nonce_txs(b.txs@, sender@, acc0) == spec_max_nonce_txs(
                        b.txs@.skip(ti as int),
                        sender@,
                        acc,
                    ),
                decreases b.txs@.len() - ti,
            {
                let ghost rest = b.txs@.skip(ti as int);
                let tx = &b.txs[ti];
                if str_eq(tx.from.as_str(), sender) {
                    acc = match acc {
                        None => Some(tx.nonce),
                        Some(m) => Some(
                            if m > tx.nonce {
                                m
                            } else {
                                tx.nonce
                            },
                        ),
                    };
                }
                proof {
                    assert(rest[0] == b.txs@[ti as int]);
                    assert(rest.drop_first() =~= b.txs@.skip(ti + 1));
                }
                ti = ti + 1;
            }
            proof {
                assert(b.txs@.skip(b.txs@.len() as int) =~= Seq::<Transaction>::empty());
                let ghost brest = self.blocks@.skip(bi as int);
                assert(brest[0] == self.blocks@[bi as int]);
                assert(brest.drop_first() =~= self.blocks@.skip(bi + 1));
            }
            bi = bi + 1;
        }
        proof {
            assert(self.blocks@.skip(self.blocks@.len() as int) =~= Seq::<Block>::empty());
        }
        match acc {
            None => 0,
            Some(m) => m.saturating_add(1),
        }
    }

    /// Where the chain is persisted by default.
    pub fn default_path() -> (r: String)
        ensures
            r@ == "data/chain.json"@,
    {
        String::from_str("data/chain.json")
    }

    /// Derive the account state by replaying every block from genesis.
    pub fn compute_state(&self) -> (r: Result<State, ChainError>)
        ensures
            match r {
                Ok(s) => spec_chain_state_err(self.blocks@) is None && s@ == spec_chain_state(
                    self.blocks@,
                ),
                Err(e) => match spec_chain_state_err(self.blocks@) {
                    Some(se) => e == ChainError::State(se),
                    None => false,
                },
            },
    {
        let mut st = State::new();
        let mut i: usize = 0;
        while i < self.blocks.len()
            invariant
                i <= self.blocks@.len(),
                spec_chain_state_err(self.blocks@) == spec_fold_err(st@, self.blocks@, i as int),
                spec_chain_state(self.blocks@) == spec_fold_state(st@, self.blocks@, i as int),
            decreases self.blocks@.len() - i,
        {
            match st.apply_block(&self.blocks[i]) {
                Ok(()) => {},
                Err(se) => {
                    return Err(ChainError::State(se));
                },
            }
            i = i + 1;
        }
        Ok(st)
    }

    /// Full chain validation: genesis shape, the replayed state, and for
    /// every block after genesis its transactions' shape, the linkage to
    /// its predecessor, its merkle root, and PoW against the chain's
    /// currently stored difficulty.
    #[verifier::rlimit(60)]
    pub fn validate(&self) -> (r: Result<(), ChainError>)
        ensures
            r == spec_validate_chain(self.blocks@, self.pow_difficulty as int),
            r is Ok <==> spec_chain_valid(self.blocks@, self.pow_difficulty as int),
    {
        if self.blocks.len() == 0 {
            return Err(ChainError::NoBlocks);
        }
        let genesis = &self.blocks[0];
        let zeros = zeros_hash();
        if !str_eq(genesis.header.prev_hash.as_str(), zeros.as_str()) {
            return Err(ChainError::GenesisPrevHash);
        }
        let genesis_merkle = merkle_root(genesis.txs.as_slice());
        if !str_eq(genesis.header.merkle_root.as_str(), genesis_merkle.as_str()) {
            return Err(ChainError::GenesisMerkle);
        }
        match self.compute_state() {
            Ok(_) => {},
            Err(e) => {
                return Err(e);
            },
        }
        let mut i: usize = 1;
        while i < self.blocks.len()
            invariant
                1 <= i <= self.blocks@.len(),
                self.blocks@.len() > 0,
                self.blocks@[0].header.prev_hash@ == zeros64(),
                self.blocks@[0].header.merkle_root@ == spec_merkle_root(self.blocks@[0].txs@),
                spec_chain_state_err(self.blocks@) is None,
                spec_struct_err(self.blocks@, self.pow_difficulty as int, 1) == spec_struct_err(
                    self.blocks@,
                    self.pow_difficulty as int,
                    i as int,
                ),
            decreases self.blocks@.len() - i,
        {
            let cur = &self.blocks[i];
            match txs_accept_check(&cur.txs) {
                Ok(_) => {},
                Err(e) => {
                    return Err(ChainError::TxInvalid(e));
                },
            }
            let prev_hash = hash_block(&self.blocks[i - 1]);
            if !str_eq(cur.header.prev_hash.as_str(), prev_hash.as_str()) {
                return Err(ChainError::Linkage);
            }
            let expected_merkle = merkle_root(cur.txs.as_slice());
            if !str_eq(cur.header.merkle_root.as_str(), expected_merkle.as_str()) {
                return Err(ChainError::MerkleMismatch);
            }
            let h = hash_block(cur);
            if !pow_ok(h.as_str(), self.pow_difficulty) {
                return Err(ChainError::Pow);
            }
            i = i + 1;
        }
        Ok(())
    }

    /// Mine and append a block holding `txs`, searching nonces until the
    /// block hash satisfies PoW at `new_difficulty`, which becomes the
    /// chain's stored difficulty. If a miner address is given, a coinbase
    /// of the block reward plus the batch's fees is prepended.
    pub fn mine_block(
        &mut self,
        txs: Vec<Transaction>,
        new_difficulty: usize,
        miner_address: Option<&str>,
    ) -> (r: Result<Block, ChainError>)
        requires
            old(self).blocks@.len() > 0,
        ensures
            final(self).pow_difficulty == new_difficulty,
            r is Ok ==> final(self).blocks@.len() == old(self).blocks@.len() + 1,
            r is Err ==> final(self).blocks@ == old(self).blocks@,
            forall|i: int|
                0 <= i < old(self).blocks@.len() ==> final(self).blocks@[i] == old(
                    self,
                ).blocks@[i],
            r matches Ok(b) ==> {
                &&& b.header == final(self).blocks@.last().header
                &&& b.txs@ == final(self).blocks@.last().txs@
                &&& spec_pow_ok(spec_block_hash(b.header, b.txs@), new_difficulty as int)
                &&& b.header.prev_hash@ == spec_block_hash(
                    old(self).blocks@.last().header,
                    old(self).blocks@.last().txs@,
                )
                &&& b.header.merkle_root@ == spec_merkle_root(b.txs@)
                &&& (miner_address is None ==> b.txs@ == txs@)
                &&& (miner_address matches Some(m) ==> b.txs@.len() == txs@.len() + 1
                    && spec_coinbase_for(b.txs@[0], m@, spec_fee_sum(txs@)) && b.txs@.subrange(
                    1,
                    b.txs@.len() as int,
                ) == txs@)
            },
    {
        // The only failure is the whole u64 nonce space failing PoW for the
        // drawn timestamp, which a difficulty within the hash length never
        // lets happen in practice.
        let ghost gtxs = txs@;
        let mut txs = txs;
        match miner_address {
            Some(miner) => {
                let mut total_fees: u64 = 0;
                let mut i: usize = 0;
                while i < txs.len()
                    invariant
                        i <= txs@.len(),
                        txs@ == gtxs,
                        total_fees == spec_fee_sum(txs@.subrange(0, i as int)),
                    decreases txs@.len() - i,
                {
                    let ghost pre = txs@.subrange(0, i as int);
                    total_fees = total_fees.saturating_add(txs[i].fee);
                    proof {
                        assert(txs@.subrange(0, i + 1).drop_last() =~= pre);
                        assert(txs@.subrange(0, i + 1).last() == txs@[i as int]);
                    }
                    i = i + 1;
                }
                proof {
                    assert(txs@.subrange(0, txs@.len() as int) =~= txs@);
                }
                let coinbase = Transaction {
                    from: String::from_str("SYSTEM"),
                    to: String::from_str(miner),
                    amount: (50u64).saturating_add(total_fees),
                    fee: 0,
                    nonce: 0,
                    pubkey_hex: None,
                    signature_b64: None,
                    memo: None,
                };
                let ghost gcb = coinbase;
                txs.insert(0, coinbase);
                proof {
                    assert(txs@ == gtxs.insert(0, gcb));
                    assert(txs@ =~= seq![gcb] + gtxs);
                    assert(txs@[0] == gcb);
                    assert(txs@.subrange(1, txs@.len() as int) =~= gtxs);
                    assert(spec_coinbase_for(txs@[0], miner@, spec_fee_sum(gtxs)));
                }
            },
            None => {},
        }
        let ghost ctxs = txs@;
        self.pow_difficulty = new_difficulty;
        let tip = self.blocks.len() - 1;
        let prev_hash = hash_block(&self.blocks[tip]);
        let mr = merkle_root(txs.as_slice());
        let timestamp_ms = now_ms();
        let mut candidate = Block {
            header: BlockHeader { prev_hash, timestamp_ms, nonce: 0, merkle_root: mr },
            txs,
        };
        loop
            invariant
                self.pow_difficulty == new_difficulty,
                self.blocks@ == old(self).blocks@,
                old(self).blocks@.len() > 0,
                candidate.txs@ == ctxs,
                candidate.header.prev_hash@ == spec_block_hash(
                    old(self).blocks@.last().header,
                    old(self).blocks@.last().txs@,
                ),
                candidate.header.merkle_root@ == spec_merkle_root(ctxs),
            ensures
                spec_pow_ok(spec_block_hash(candidate.header, candidate.txs@), new_difficulty as int),
            decreases u64::MAX - candidate.header.nonce,
        {
            let h = hash_block(&candidate);
            if pow_ok(h.as_str(), new_difficulty) {
                break ;
            }
            if candidate.header.nonce == u64::MAX {
                return Err(ChainError::Pow);
            }
            candidate.header.nonce = candidate.header.nonce + 1;
        }
        let result = candidate.duplicate();
        self.blocks.push(candidate);
        Ok(result)
    }

    /// Mine and append an empty block.
    pub fn mine_empty_block(&mut self, new_difficulty: usize) -> (r: Result<Block, ChainError>)
        requires
            old(self).blocks@.len() > 0,
        ensures
            final(self).pow_difficulty == new_difficulty,
            r is Ok ==> final(self).blocks@.len() == old(self).blocks@.len() + 1,
            r is Err ==> final(self).blocks@ == old(self).blocks@,
            forall|i: int|
                0 <= i < old(self).blocks@.len() ==> final(self).blocks@[i] == old(
                    self,
                ).blocks@[i],
            r matches Ok(b) ==> {
                &&& b.header == final(self).blocks@.last().header
                &&& b.txs@ == final(self).blocks@.last().txs@
                &&& spec_pow_ok(spec_block_hash(b.header, b.txs@), new_difficulty as int)
                &&& b.txs@.len() == 0
            },
    {
        let txs: Vec<Transaction> = Vec::new();
        self.mine_block(txs, new_difficulty, None)
    }

    /// The network-path single-step append: check the candidate block
    /// against the tip (transaction shape, linkage, merkle, PoW, state
    /// transition) and push it on success; on failure the chain is left
    /// unmodified.
    pub fn append_block(&mut self, block: Block) -> (r: Result<(), ChainError>)
        requires
            old(self).blocks@.len() > 0,
        ensures
            r == spec_append_check(old(self).blocks@, old(self).pow_difficulty as int, block),
            final(self).pow_difficulty == old(self).pow_difficulty,
            r is Ok ==> final(self).blocks@ == old(self).blocks@.push(block),
            r is Err ==> final(self).blocks@ == old(self).blocks@,
    {
        proof {
            reveal(spec_append_check);
        }
        match txs_accept_check(&block.txs) {
            Ok(_) => {},
            Err(e) => {
                return Err(ChainError::TxInvalid(e));
            },
        }
        let tip = self.blocks.len() - 1;
        let tip_hash = hash_block(&self.blocks[tip]);
        if !str_eq(block.header.prev_hash.as_str(), tip_hash.as_str()) {
            return Err(ChainError::Linkage);
        }
        let expected_merkle = merkle_root(block.txs.as_slice());
        if !str_eq(block.header.merkle_root.as_str(), expected_merkle.as_str()) {
            return Err(ChainError::MerkleMismatch);
        }
        let h = hash_block(&block);
        if !pow_ok(h.as_str(), self.pow_difficulty) {
            return Err(ChainError::Pow);
        }
        let mut st = match self.compute_state() {
            Ok(s) => s,
            Err(e) => {
                return Err(e);
            },
        };
        match st.apply_block(&block) {
            Ok(()) => {},
            Err(se) => {
                return Err(ChainError::State(se));
            },
        }
        self.blocks.push(block);
        Ok(())
    }
}

/// Whether a transaction list carries, per sender, exactly the consecutive
/// nonces the chain expects next, in order.
pub open spec fn spec_nonce_seq_ok(blocks: Seq<Block>, txs: Seq<Transaction>) -> bool {
    forall|i: int|
        0 <= i < txs.len() ==> (#[trigger] txs[i]).nonce == spec_expected_nonce(
            txs.subrange(0, i),
            txs[i].from@,
            spec_chain_next_nonce(blocks, txs[i].from@),
        )
}

/// Check that pending transactions carry consecutive per-sender nonces
/// starting from what the chain expects.
pub fn validate_nonce_sequence(chain: &Chain, txs: &[Transaction]) -> (r: Result<
    (),
    crate::errors::AdmissionError,
>)
    ensures
        r is Ok <==> spec_nonce_seq_ok(chain.blocks@, txs@),
        r is Err ==> r == Err::<(), crate::errors::AdmissionError>(
            crate::errors::AdmissionError::InvalidNonce,
        ),
{
    let mut i: usize = 0;
    while i < txs.len()
        invariant
            i <= txs@.len(),
            forall|k: int|
                0 <= k < i ==> (#[trigger] txs@[k]).nonce == spec_expected_nonce(
                    txs@.subrange(0, k),
                    txs@[k].from@,
                    spec_chain_next_nonce(chain.blocks@, txs@[k].from@),
                ),
        decreases txs@.len() - i,
    {
        let base = chain.next_nonce_for(txs[i].from.as_str());
        let mut count: u64 = 0;
        let mut j: usize = 0;
        while j < i
            invariant
                j <= i,
                i < txs@.len(),
                count <= j,
                count == crate::mempool::spec_count_from(txs@.subrange(0, j as int), txs@[
                i as int].from@),
            decreases i - j,
        {
            let ghost pre = txs@.subrange(0, j as int);
            if str_eq(txs[j].from.as_str(), txs[i].from.as_str()) {
                count = count + 1;
            }
            proof {
                assert(txs@.subrange(0, j + 1).drop_last() =~= pre);
                assert(txs@.subrange(0, j + 1).last() == txs@[j as int]);
            }
            j = j + 1;
        }
        let expected = base.saturating_add(count);
        proof {
            crate::mempool::lemma_count_from_bound(txs@.subrange(0, i as int), txs@[
            i as int].from@);
        }
        if txs[i].nonce != expected {
            proof {
                assert(!spec_nonce_seq_ok(chain.blocks@, txs@));
            }
            return Err(crate::errors::AdmissionError::InvalidNonce);
        }
        i = i + 1;
    }
    Ok(())
}

/// The all-zero hash that a genesis block links to.
pub fn zeros_hash() -> (r: String)
    ensures
        r@ == zeros64(),
{
    let mut s = String::new();
    proof {
        reveal_strlit("0");
    }
    let mut i: usize = 0;
    while i < 64
        invariant
            i <= 64,
            s@ =~= Seq::new(i as nat, |j: int| '0'),
            "0"@.len() == 1 && "0"@[0] == '0',
        decreases 64 - i,
    {
        s.append("0");
        proof {
            assert(s@ =~= Seq::new((i + 1) as nat, |j: int| '0'));
        }
        i = i + 1;
    }
    proof {
        assert(s@ =~= zeros64());
    }
    s
}

} // verus!
