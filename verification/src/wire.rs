//! The framing and the payload codec of the wire protocol: each message is
//! a four-byte big-endian length prefix followed by a tagged payload, with
//! a hard cap on the declared length enforced before anything is parsed.

use vstd::prelude::*;
use crate::bytes::{
    push_str_bytes, push_u32_be, push_u64_be, read_opt_str, read_str, read_u32_be, read_u64_be,
    spec_opt_str_bytes, spec_opt_view, spec_str_bytes, spec_u32_be, spec_u64_be,
    lemma_u32_be_roundtrip,
};
use crate::chain::{
    block_bytes, push_tx_bytes, spec_block_bytes, spec_header_bytes, spec_tx_bytes,
};
use crate::errors::ProtocolError;
use crate::message::Message;
use crate::types::{Block, BlockHeader, Transaction};

verus! {

/// The hard cap on a declared payload length: 10 MB.
pub open spec fn spec_frame_cap() -> int {
    10485760
}

/// The concatenated bytes of a string list.
pub open spec fn spec_str_concat(ss: Seq<String>) -> Seq<u8>
    decreases ss.len(),
{
    if ss.len() == 0 {
        Seq::<u8>::empty()
    } else {
        spec_str_bytes(ss[0]@) + spec_str_concat(ss.drop_first())
    }
}

/// A string list as bytes: the count, then each string.
pub open spec fn spec_str_list_bytes(ss: Seq<String>) -> Seq<u8> {
    spec_u64_be(ss.len() as u64) + spec_str_concat(ss)
}

/// The concatenated bytes of a header list.
pub open spec fn spec_header_concat(hs: Seq<BlockHeader>) -> Seq<u8>
    decreases hs.len(),
{
    if hs.len() == 0 {
        Seq::<u8>::empty()
    } else {
        spec_header_bytes(hs[0]) + spec_header_concat(hs.drop_first())
    }
}

/// A header list as bytes: the count, then each header.
pub open spec fn spec_header_list_bytes(hs: Seq<BlockHeader>) -> Seq<u8> {
    spec_u64_be(hs.len() as u64) + spec_header_concat(hs)
}

/// The concatenated bytes of a block list.
pub open spec fn spec_block_concat(bs: Seq<Block>) -> Seq<u8>
    decreases bs.len(),
{
    if bs.len() == 0 {
        Seq::<u8>::empty()
    } else {
        spec_block_bytes(bs[0].header, bs[0].txs@) + spec_block_concat(bs.drop_first())
    }
}

/// A block list as bytes: the count, then each block.
pub open spec fn spec_block_list_bytes(bs: Seq<Block>) -> Seq<u8> {
    spec_u64_be(bs.len() as u64) + spec_block_concat(bs)
}

/// The tagged payload of a message: one tag byte, then the variant's
/// fields in order.
pub open spec fn spec_payload(m: Message) -> Seq<u8> {
    match m {
        Message::Ping => seq![0u8],
        Message::Pong => seq![1u8],
        Message::GetStatus => seq![2u8],
        Message::Status { height, tip_hash } => seq![3u8] + spec_u64_be(height) + spec_str_bytes(
            tip_hash@,
        ),
        Message::GetBlocks { start_height } => seq![4u8] + spec_u64_be(start_height),
        Message::Blocks(bs) => seq![5u8] + spec_block_list_bytes(bs@),
        Message::NewTransaction(tx) => seq![6u8] + spec_tx_bytes(tx),
        Message::NewBlock(b) => seq![7u8] + spec_block_bytes(b.header, b.txs@),
        Message::Inventory { tx_hashes, block_hashes } => seq![8u8] + spec_str_list_bytes(
            tx_hashes@,
        ) + spec_str_list_bytes(block_hashes@),
        Message::GetMempool => seq![9u8],
        Message::Handshake { version, best_height } => seq![10u8] + spec_u32_be(version)
            + spec_u64_be(best_height),
        Message::GetHeaders { start_height, limit } => seq![11u8] + spec_u64_be(start_height)
            + spec_u32_be(limit),
        Message::Headers(hs) => seq![12u8] + spec_header_list_bytes(hs@),
        Message::GetData { block_hashes } => seq![13u8] + spec_str_list_bytes(block_hashes@),
        Message::Addr { addrs } => seq![14u8] + spec_str_list_bytes(addrs@),
        Message::GetAddr => seq![15u8],
    }
}

/// The control variants: fixed-width fields or a single string, no lists
/// and no embedded transactions or blocks.
pub open spec fn spec_ctrl(m: Message) -> bool {
    ||| m is Ping
    ||| m is Pong
    ||| m is GetStatus
    ||| m is GetMempool
    ||| m is GetAddr
    ||| m is GetBlocks
    ||| m is Handshake
    ||| m is GetHeaders
    ||| m is Status
}

/// Whether a control message's string fits its length prefix; true of any
/// string that fits in memory.
pub open spec fn spec_ctrl_fits(m: Message) -> bool {
    m matches Message::Status { tip_hash, .. } ==> crate::chain::spec_str_fits(tip_hash@)
}

/// The variants whose parse is proven complete: the control set and
/// transaction gossip.
pub open spec fn spec_covered(m: Message) -> bool {
    spec_ctrl(m) || m is NewTransaction
}

/// Whether a covered message's strings fit their length prefixes; true of
/// any message that fits in memory.
pub open spec fn spec_covered_fits(m: Message) -> bool {
    match m {
        Message::Status { tip_hash, .. } => crate::chain::spec_str_fits(tip_hash@),
        Message::NewTransaction(tx) => crate::chain::spec_tx_fits(tx),
        _ => true,
    }
}

/// A whole frame: the payload length as four big-endian bytes, then the
/// payload.
pub open spec fn spec_frame(m: Message) -> Seq<u8> {
    spec_u32_be(spec_payload(m).len() as u32) + spec_payload(m)
}

proof fn lemma_str_concat_push(ss: Seq<String>, t: String)
    ensures
        spec_str_concat(ss.push(t)) == spec_str_concat(ss) + spec_str_bytes(t@),
    decreases ss.len(),
{
    let e2 = ss.push(t);
    if ss.len() == 0 {
        assert(e2[0] == t);
        assert(e2.drop_first() =~= Seq::<String>::empty());
        assert(spec_str_concat(e2) == spec_str_bytes(t@) + spec_str_concat(e2.drop_first()));
        assert(spec_str_bytes(t@) + Seq::<u8>::empty() =~= spec_str_bytes(t@));
        assert(Seq::<u8>::empty() + spec_str_bytes(t@) =~= spec_str_bytes(t@));
    } else {
        assert(e2[0] == ss[0]);
        assert(e2.drop_first() =~= ss.drop_first().push(t));
        lemma_str_concat_push(ss.drop_first(), t);
        assert(spec_str_concat(e2) == spec_str_bytes(ss[0]@) + (spec_str_concat(ss.drop_first())
            + spec_str_bytes(t@)));
        assert(spec_str_bytes(ss[0]@) + (spec_str_concat(ss.drop_first()) + spec_str_bytes(t@))
            =~= (spec_str_bytes(ss[0]@) + spec_str_concat(ss.drop_first())) + spec_str_bytes(t@));
    }
}

proof fn lemma_header_concat_push(hs: Seq<BlockHeader>, t: BlockHeader)
    ensures
        spec_header_concat(hs.push(t)) == spec_header_concat(hs) + spec_header_bytes(t),
    decreases hs.len(),
{
    let e2 = hs.push(t);
    if hs.len() == 0 {
        assert(e2[0] == t);
        assert(e2.drop_first() =~= Seq::<BlockHeader>::empty());
        assert(spec_header_concat(e2) == spec_header_bytes(t) + spec_header_concat(
            e2.drop_first(),
        ));
        assert(spec_header_bytes(t) + Seq::<u8>::empty() =~= spec_header_bytes(t));
        assert(Seq::<u8>::empty() + spec_header_bytes(t) =~= spec_header_bytes(t));
    } else {
        assert(e2[0] == hs[0]);
        assert(e2.drop_first() =~= hs.drop_first().push(t));
        lemma_header_concat_push(hs.drop_first(), t);
        assert(spec_header_concat(e2) == spec_header_bytes(hs[0]) + (spec_header_concat(
            hs.drop_first(),
        ) + spec_header_bytes(t)));
        assert(spec_header_bytes(hs[0]) + (spec_header_concat(hs.drop_first())
            + spec_header_bytes(t)) =~= (spec_header_bytes(hs[0]) + spec_header_concat(
            hs.drop_first(),
        )) + spec_header_bytes(t));
    }
}

proof fn lemma_block_concat_push(bs: Seq<Block>, t: Block)
    ensures
        spec_block_concat(bs.push(t)) == spec_block_concat(bs) + spec_block_bytes(
            t.header,
            t.txs@,
        ),
    decreases bs.len(),
{
    let e2 = bs.push(t);
    let tb = spec_block_bytes(t.header, t.txs@);
    if bs.len() == 0 {
        assert(e2[0] == t);
        assert(e2.drop_first() =~= Seq::<Block>::empty());
        assert(spec_block_concat(e2) == tb + spec_block_concat(e2.drop_first()));
        assert(tb + Seq::<u8>::empty() =~= tb);
        assert(Seq::<u8>::empty() + tb =~= tb);
    } else {
        assert(e2[0] == bs[0]);
        assert(e2.drop_first() =~= bs.drop_first().push(t));
        lemma_block_concat_push(bs.drop_first(), t);
        let hb = spec_block_bytes(bs[0].header, bs[0].txs@);
        assert(spec_block_concat(e2) == hb + (spec_block_concat(bs.drop_first()) + tb));
        assert(hb + (spec_block_concat(bs.drop_first()) + tb) =~= (hb + spec_block_concat(
            bs.drop_first(),
        )) + tb);
    }
}

/// Length-prefixed string read, soundness face only: keeps the caller's
/// proof context small.
fn read_str_s(buf: &[u8], pos: usize) -> (r: Option<(String, usize)>)
    requires
        pos <= buf@.len(),
    ensures
        r matches Some((s, p2)) ==> pos <= p2 <= buf@.len() && buf@.subrange(
            pos as int,
            p2 as int,
        ) == spec_str_bytes(s@),
{
    read_str(buf, pos)
}

fn push_header_bytes(v: &mut Vec<u8>, h: &BlockHeader)
    ensures
        final(v)@ == old(v)@ + spec_header_bytes(*h),
{
    push_str_bytes(v, h.prev_hash.as_str());
    push_u64_be(v, h.timestamp_ms);
    push_u64_be(v, h.nonce);
    push_str_bytes(v, h.merkle_root.as_str());
    assert(v@ =~= old(v)@ + spec_header_bytes(*h));
}

fn push_str_list(v: &mut Vec<u8>, ss: &Vec<String>)
    ensures
        final(v)@ == old(v)@ + spec_str_list_bytes(ss@),
{
    push_u64_be(v, ss.len() as u64);
    let ghost prefix = v@;
    let mut i: usize = 0;
    while i < ss.len()
        invariant
            i <= ss@.len(),
            v@ == prefix + spec_str_concat(ss@.subrange(0, i as int)),
        decreases ss@.len() - i,
    {
        let ghost pre = ss@.subrange(0, i as int);
        push_str_bytes(v, ss[i].as_str());
        proof {
            assert(ss@.subrange(0, i + 1) =~= pre.push(ss@[i as int]));
            lemma_str_concat_push(pre, ss@[i as int]);
            assert(v@ =~= prefix + spec_str_concat(ss@.subrange(0, i + 1)));
        }
        i = i + 1;
    }
    proof {
        assert(ss@.subrange(0, ss@.len() as int) =~= ss@);
        assert(v@ =~= old(v)@ + spec_str_list_bytes(ss@));
    }
}

fn push_header_list(v: &mut Vec<u8>, hs: &Vec<BlockHeader>)
    ensures
        final(v)@ == old(v)@ + spec_header_list_bytes(hs@),
{
    push_u64_be(v, hs.len() as u64);
    let ghost prefix = v@;
    let mut i: usize = 0;
    while i < hs.len()
        invariant
            i <= hs@.len(),
            v@ == prefix + spec_header_concat(hs@.subrange(0, i as int)),
        decreases hs@.len() - i,
    {
        let ghost pre = hs@.subrange(0, i as int);
        push_header_bytes(v, &hs[i]);
        proof {
            assert(hs@.subrange(0, i + 1) =~= pre.push(hs@[i as int]));
            lemma_header_concat_push(pre, hs@[i as int]);
            assert(v@ =~= prefix + spec_header_concat(hs@.subrange(0, i + 1)));
        }
        i = i + 1;
    }
    proof {
        assert(hs@.subrange(0, hs@.len() as int) =~= hs@);
        assert(v@ =~= old(v)@ + spec_header_list_bytes(hs@));
    }
}

fn push_block_list(v: &mut Vec<u8>, bs: &Vec<Block>)
    ensures
        final(v)@ == old(v)@ + spec_block_list_bytes(bs@),
{
    push_u64_be(v, bs.len() as u64);
    let ghost prefix = v@;
    let mut i: usize = 0;
    while i < bs.len()
        invariant
            i <= bs@.len(),
            v@ == prefix + spec_block_concat(bs@.subrange(0, i as int)),
        decreases bs@.len() - i,
    {
        let ghost pre = bs@.subrange(0, i as int);
        let mut bb = block_bytes(&bs[i]);
        v.append(&mut bb);
        proof {
            assert(bs@.subrange(0, i + 1) =~= pre.push(bs@[i as int]));
            lemma_block_concat_push(pre, bs@[i as int]);
            assert(v@ =~= prefix + spec_block_concat(bs@.subrange(0, i + 1)));
        }
        i = i + 1;
    }
    proof {
        assert(bs@.subrange(0, bs@.len() as int) =~= bs@);
        assert(v@ =~= old(v)@ + spec_block_list_bytes(bs@));
    }
}

/// The tagged payload bytes of a message.
fn encode_payload(m: &Message) -> (r: Vec<u8>)
    ensures
        r@ == spec_payload(*m),
{
    let mut v: Vec<u8> = Vec::new();
    match m {
        Message::Ping => {
            v.push(0u8);
        },
        Message::Pong => {
            v.push(1u8);
        },
        Message::GetStatus => {
            v.push(2u8);
        },
        Message::Status { height, tip_hash } => {
            v.push(3u8);
            push_u64_be(&mut v, *height);
            push_str_bytes(&mut v, tip_hash.as_str());
        },
        Message::GetBlocks { start_height } => {
            v.push(4u8);
            push_u64_be(&mut v, *start_height);
        },
        Message::Blocks(bs) => {
            v.push(5u8);
            push_block_list(&mut v, bs);
        },
        Message::NewTransaction(tx) => {
            v.push(6u8);
            push_tx_bytes(&mut v, tx);
        },
        Message::NewBlock(b) => {
            v.push(7u8);
            let mut bb = block_bytes(b);
            v.append(&mut bb);
        },
        Message::Inventory { tx_hashes, block_hashes } => {
            v.push(8u8);
            push_str_list(&mut v, tx_hashes);
            push_str_list(&mut v, block_hashes);
        },
        Message::GetMempool => {
            v.push(9u8);
        },
        Message::Handshake { version, best_height } => {
            v.push(10u8);
            push_u32_be(&mut v, *version);
            push_u64_be(&mut v, *best_height);
        },
        Message::GetHeaders { start_height, limit } => {
            v.push(11u8);
            push_u64_be(&mut v, *start_height);
            push_u32_be(&mut v, *limit);
        },
        Message::Headers(hs) => {
            v.push(12u8);
            push_header_list(&mut v, hs);
        },
        Message::GetData { block_hashes } => {
            v.push(13u8);
            push_str_list(&mut v, block_hashes);
        },
        Message::Addr { addrs } => {
            v.push(14u8);
            push_str_list(&mut v, addrs);
        },
        Message::GetAddr => {
            v.push(15u8);
        },
    }
    proof {
        assert(v@ =~= spec_payload(*m));
    }
    v
}

fn read_header(buf: &[u8], pos: usize) -> (r: Option<(BlockHeader, usize)>)
    requires
        pos <= buf@.len(),
    ensures
        r matches Some((h, p2)) ==> pos <= p2 <= buf@.len() && buf@.subrange(
            pos as int,
            p2 as int,
        ) == spec_header_bytes(h),
{
    let (prev_hash, p1) = match read_str_s(buf, pos) {
        Some(x) => x,
        None => {
            return None;
        },
    };
    let timestamp_ms = match read_u64_be(buf, p1) {
        Some(x) => x,
        None => {
            return None;
        },
    };
    let p2 = p1 + 8;
    let nonce = match read_u64_be(buf, p2) {
        Some(x) => x,
        None => {
            return None;
        },
    };
    let p3 = p2 + 8;
    let (merkle_root, p4) = match read_str_s(buf, p3) {
        Some(x) => x,
        None => {
            return None;
        },
    };
    let h = BlockHeader { prev_hash, timestamp_ms, nonce, merkle_root };
    proof {
        assert(buf@.subrange(pos as int, p4 as int) =~= buf@.subrange(pos as int, p1 as int)
            + buf@.subrange(p1 as int, p2 as int) + buf@.subrange(p2 as int, p3 as int)
            + buf@.subrange(p3 as int, p4 as int));
        assert(buf@.subrange(pos as int, p4 as int) =~= spec_header_bytes(h));
    }
    Some((h, p4))
}

#[verifier::rlimit(100)]
#[verifier::spinoff_prover]
fn read_signing_fields(buf: &[u8], pos: usize) -> (r: Option<(Transaction, usize)>)
    requires
        pos <= buf@.len(),
    ensures
        r matches Some((tx, p)) ==> pos <= p <= buf@.len() && buf@.subrange(pos as int, p as int)
            == crate::types::spec_signing_bytes(tx) && tx.pubkey_hex is None && tx.signature_b64
            is None && tx.memo is None,
        forall|t0: Transaction|
            (crate::chain::spec_tx_fits(t0) && crate::bytes::is_prefix(
                #[trigger] crate::types::spec_signing_bytes(t0),
                buf@.skip(pos as int),
            )) ==> (r matches Some((tx, p)) && p == pos + crate::types::spec_signing_bytes(
                t0,
            ).len()),
{
    let ghost base = buf@.skip(pos as int);
    let (from, p1) = match read_str(buf, pos) {
        Some(x) => x,
        None => {
            proof {
                assert forall|t0: Transaction|
                    !(crate::chain::spec_tx_fits(t0) && crate::bytes::is_prefix(
                        #[trigger] crate::types::spec_signing_bytes(t0),
                        base,
                    )) by {
                    if crate::chain::spec_tx_fits(t0) && crate::bytes::is_prefix(
                        crate::types::spec_signing_bytes(t0),
                        base,
                    ) {
                        crate::chain::lemma_signing_bytes_split(t0, base);
                    }
                }
            }
            return None;
        },
    };
    proof {
        assert forall|t0: Transaction|
            (crate::chain::spec_tx_fits(t0) && crate::bytes::is_prefix(
                #[trigger] crate::types::spec_signing_bytes(t0),
                base,
            )) implies p1 == pos + crate::chain::spec_tx_off1(t0) && buf@.skip(p1 as int)
            == base.skip(crate::chain::spec_tx_off1(t0)) by {
            crate::chain::lemma_signing_bytes_split(t0, base);
            crate::bytes::lemma_skip_skip(buf@, pos as int, crate::chain::spec_tx_off1(t0));
        }
    }
    let (to, p2) = match read_str(buf, p1) {
        Some(x) => x,
        None => {
            proof {
                assert forall|t0: Transaction|
                    !(crate::chain::spec_tx_fits(t0) && crate::bytes::is_prefix(
                        #[trigger] crate::types::spec_signing_bytes(t0),
                        base,
                    )) by {
                    if crate::chain::spec_tx_fits(t0) && crate::bytes::is_prefix(
                        crate::types::spec_signing_bytes(t0),
                        base,
                    ) {
                        crate::chain::lemma_signing_bytes_split(t0, base);
                    }
                }
            }
            return None;
        },
    };
    proof {
        assert forall|t0: Transaction|
            (crate::chain::spec_tx_fits(t0) && crate::bytes::is_prefix(
                #[trigger] crate::types::spec_signing_bytes(t0),
                base,
            )) implies p2 == pos + crate::chain::spec_tx_off2(t0) && buf@.skip(p2 as int)
            == base.skip(crate::chain::spec_tx_off2(t0)) by {
            crate::chain::lemma_signing_bytes_split(t0, base);
            crate::bytes::lemma_skip_skip(buf@, pos as int, crate::chain::spec_tx_off2(t0));
        }
    }
    let amount = match read_u64_be(buf, p2) {
        Some(x) => x,
        None => {
            proof {
                assert forall|t0: Transaction|
                    !(crate::chain::spec_tx_fits(t0) && crate::bytes::is_prefix(
                        #[trigger] crate::types::spec_signing_bytes(t0),
                        base,
                    )) by {
                    if crate::chain::spec_tx_fits(t0) && crate::bytes::is_prefix(
                        crate::types::spec_signing_bytes(t0),
                        base,
                    ) {
                        crate::chain::lemma_signing_bytes_split(t0, base);
                    }
                }
            }
            return None;
        },
    };
    let p3 = p2 + 8;
    let fee = match read_u64_be(buf, p3) {
        Some(x) => x,
        None => {
            proof {
                assert forall|t0: Transaction|
                    !(crate::chain::spec_tx_fits(t0) && crate::bytes::is_prefix(
                        #[trigger] crate::types::spec_signing_bytes(t0),
                        base,
                    )) by {
                    if crate::chain::spec_tx_fits(t0) && crate::bytes::is_prefix(
                        crate::types::spec_signing_bytes(t0),
                        base,
                    ) {
                        crate::chain::lemma_signing_bytes_split(t0, base);
                        crate::bytes::lemma_skip_skip(
                            buf@,
                            pos as int,
                            crate::chain::spec_tx_off2(t0) + 8,
                        );
                    }
                }
            }
            return None;
        },
    };
    let p4 = p3 + 8;
    let nonce = match read_u64_be(buf, p4) {
        Some(x) => x,
        None => {
            proof {
                assert forall|t0: Transaction|
                    !(crate::chain::spec_tx_fits(t0) && crate::bytes::is_prefix(
                        #[trigger] crate::types::spec_signing_bytes(t0),
                        base,
                    )) by {
                    if crate::chain::spec_tx_fits(t0) && crate::bytes::is_prefix(
                        crate::types::spec_signing_bytes(t0),
                        base,
                    ) {
                        crate::chain::lemma_signing_bytes_split(t0, base);
                        crate::bytes::lemma_skip_skip(
                            buf@,
                            pos as int,
                            crate::chain::spec_tx_off2(t0) + 16,
                        );
                    }
                }
            }
            return None;
        },
    };
    let p5 = p4 + 8;
    let tx = Transaction {
        from,
        to,
        amount,
        fee,
        nonce,
        pubkey_hex: None,
        signature_b64: None,
        memo: None,
    };
    proof {
        assert(buf@.subrange(pos as int, p5 as int) =~= buf@.subrange(pos as int, p1 as int)
            + buf@.subrange(p1 as int, p2 as int) + buf@.subrange(p2 as int, p3 as int)
            + buf@.subrange(p3 as int, p4 as int) + buf@.subrange(p4 as int, p5 as int));
        assert(buf@.subrange(pos as int, p5 as int) =~= crate::types::spec_signing_bytes(tx));
        assert forall|t0: Transaction|
            (crate::chain::spec_tx_fits(t0) && crate::bytes::is_prefix(
                #[trigger] crate::types::spec_signing_bytes(t0),
                base,
            )) implies p5 == pos + crate::types::spec_signing_bytes(t0).len() by {
            crate::chain::lemma_signing_bytes_split(t0, base);
        }
    }
    Some((tx, p5))
}

#[verifier::rlimit(100)]
#[verifier::spinoff_prover]
fn read_tx(buf: &[u8], pos: usize) -> (r: Option<(Transaction, usize)>)
    requires
        pos <= buf@.len(),
    ensures
        r matches Some((tx, p2)) ==> pos <= p2 <= buf@.len() && buf@.subrange(
            pos as int,
            p2 as int,
        ) == spec_tx_bytes(tx),
        forall|t0: Transaction|
            (crate::chain::spec_tx_fits(t0) && crate::bytes::is_prefix(
                #[trigger] spec_tx_bytes(t0),
                buf@.skip(pos as int),
            )) ==> (r matches Some((tx, p2)) && p2 == pos + spec_tx_bytes(t0).len()),
{
    let ghost base = buf@.skip(pos as int);
    proof {
        assert forall|t0: Transaction|
            (crate::chain::spec_tx_fits(t0) && crate::bytes::is_prefix(
                #[trigger] spec_tx_bytes(t0),
                base,
            )) implies crate::bytes::is_prefix(crate::types::spec_signing_bytes(t0), base) by {
            crate::chain::lemma_tx_bytes_split(t0, base);
        }
    }
    let (head, p5) = match read_signing_fields(buf, pos) {
        Some(x) => x,
        None => {
            return None;
        },
    };
    proof {
        assert forall|t0: Transaction|
            (crate::chain::spec_tx_fits(t0) && crate::bytes::is_prefix(
                #[trigger] spec_tx_bytes(t0),
                base,
            )) implies p5 == pos + crate::chain::spec_tx_off5(t0) && buf@.skip(p5 as int)
            == base.skip(crate::chain::spec_tx_off5(t0)) by {
            crate::chain::lemma_tx_bytes_split(t0, base);
            crate::bytes::lemma_skip_skip(buf@, pos as int, crate::chain::spec_tx_off5(t0));
        }
    }
    let (pubkey_hex, p6) = match read_opt_str(buf, p5) {
        Some(x) => x,
        None => {
            proof {
                assert forall|t0: Transaction|
                    !(crate::chain::spec_tx_fits(t0) && crate::bytes::is_prefix(
                        #[trigger] spec_tx_bytes(t0),
                        base,
                    )) by {
                    if crate::chain::spec_tx_fits(t0) && crate::bytes::is_prefix(
                        spec_tx_bytes(t0),
                        base,
                    ) {
                        crate::chain::lemma_tx_bytes_split(t0, base);
                    }
                }
            }
            return None;
        },
    };
    proof {
        assert forall|t0: Transaction|
            (crate::chain::spec_tx_fits(t0) && crate::bytes::is_prefix(
                #[trigger] spec_tx_bytes(t0),
                base,
            )) implies p6 == pos + crate::chain::spec_tx_off6(t0) && buf@.skip(p6 as int)
            == base.skip(crate::chain::spec_tx_off6(t0)) by {
            crate::chain::lemma_tx_bytes_split(t0, base);
            crate::bytes::lemma_skip_skip(buf@, pos as int, crate::chain::spec_tx_off6(t0));
        }
    }
    let (signature_b64, p7) = match read_opt_str(buf, p6) {
        Some(x) => x,
        None => {
            proof {
                assert forall|t0: Transaction|
                    !(crate::chain::spec_tx_fits(t0) && crate::bytes::is_prefix(
                        #[trigger] spec_tx_bytes(t0),
                        base,
                    )) by {
                    if crate::chain::spec_tx_fits(t0) && crate::bytes::is_prefix(
                        spec_tx_bytes(t0),
                        base,
                    ) {
                        crate::chain::lemma_tx_bytes_split(t0, base);
                    }
                }
            }
            return None;
        },
    };
    proof {
        assert forall|t0: Transaction|
            (crate::chain::spec_tx_fits(t0) && crate::bytes::is_prefix(
                #[trigger] spec_tx_bytes(t0),
                base,
            )) implies p7 == pos + crate::chain::spec_tx_off7(t0) && buf@.skip(p7 as int)
            == base.skip(crate::chain::spec_tx_off7(t0)) by {
            crate::chain::lemma_tx_bytes_split(t0, base);
            crate::bytes::lemma_skip_skip(buf@, pos as int, crate::chain::spec_tx_off7(t0));
        }
    }
    let (memo, p8) = match read_opt_str(buf, p7) {
        Some(x) => x,
        None => {
            proof {
                assert forall|t0: Transaction|
                    !(crate::chain::spec_tx_fits(t0) && crate::bytes::is_prefix(
                        #[trigger] spec_tx_bytes(t0),
                        base,
                    )) by {
                    if crate::chain::spec_tx_fits(t0) && crate::bytes::is_prefix(
                        spec_tx_bytes(t0),
                        base,
                    ) {
                        crate::chain::lemma_tx_bytes_split(t0, base);
                    }
                }
            }
            return None;
        },
    };
    let tx = Transaction { pubkey_hex, signature_b64, memo, ..head };
    proof {
        assert(crate::types::spec_signing_bytes(tx) == crate::types::spec_signing_bytes(head));
        assert(buf@.subrange(pos as int, p8 as int) =~= buf@.subrange(pos as int, p5 as int)
            + buf@.subrange(p5 as int, p6 as int) + buf@.subrange(p6 as int, p7 as int)
            + buf@.subrange(p7 as int, p8 as int));
        assert(buf@.subrange(pos as int, p8 as int) =~= spec_tx_bytes(tx));
        assert forall|t0: Transaction|
            (crate::chain::spec_tx_fits(t0) && crate::bytes::is_prefix(
                #[trigger] spec_tx_bytes(t0),
                base,
            )) implies p8 == pos + spec_tx_bytes(t0).len() by {
            crate::chain::lemma_tx_bytes_split(t0, base);
        }
    }
    Some((tx, p8))
}

#[verifier::rlimit(80)]
#[verifier::spinoff_prover]
fn read_block(buf: &[u8], pos: usize) -> (r: Option<(Block, usize)>)
    requires
        pos <= buf@.len(),
    ensures
        r matches Some((b, p2)) ==> pos <= p2 <= buf@.len() && buf@.subrange(
            pos as int,
            p2 as int,
        ) == spec_block_bytes(b.header, b.txs@),
{
    let (header, p1) = match read_header(buf, pos) {
        Some(x) => x,
        None => {
            return None;
        },
    };
    let n = match read_u64_be(buf, p1) {
        Some(x) => x,
        None => {
            return None;
        },
    };
    let p2 = p1 + 8;
    let mut txs: Vec<Transaction> = Vec::new();
    let mut cur = p2;
    let mut i: u64 = 0;
    while i < n
        invariant
            i <= n,
            p2 <= cur <= buf@.len(),
            txs@.len() == i,
            buf@.subrange(p2 as int, cur as int) == crate::chain::spec_txs_bytes(txs@),
        decreases n - i,
    {
        let ghost pre = txs@;
        let (tx, next) = match read_tx(buf, cur) {
            Some(x) => x,
            None => {
                return None;
            },
        };
        txs.push(tx);
        proof {
            crate::chain::lemma_txs_bytes_push(pre, txs@.last());
            assert(buf@.subrange(p2 as int, next as int) =~= buf@.subrange(p2 as int, cur as int)
                + buf@.subrange(cur as int, next as int));
        }
        cur = next;
        i = i + 1;
    }
    let b = Block { header, txs };
    proof {
        reveal(crate::chain::spec_block_bytes);
        assert(buf@.subrange(pos as int, cur as int) =~= buf@.subrange(pos as int, p1 as int)
            + buf@.subrange(p1 as int, p2 as int) + buf@.subrange(p2 as int, cur as int));
        assert(b.txs@.len() as u64 == n);
        assert(buf@.subrange(pos as int, cur as int) =~= spec_block_bytes(b.header, b.txs@));
    }
    Some((b, cur))
}

#[verifier::rlimit(80)]
#[verifier::spinoff_prover]
fn read_str_list(buf: &[u8], pos: usize) -> (r: Option<(Vec<String>, usize)>)
    requires
        pos <= buf@.len(),
    ensures
        r matches Some((ss, p2)) ==> pos <= p2 <= buf@.len() && buf@.subrange(
            pos as int,
            p2 as int,
        ) == spec_str_list_bytes(ss@),
{
    let n = match read_u64_be(buf, pos) {
        Some(x) => x,
        None => {
            return None;
        },
    };
    let p1 = pos + 8;
    let mut out: Vec<String> = Vec::new();
    let mut cur = p1;
    let mut i: u64 = 0;
    while i < n
        invariant
            i <= n,
            p1 <= cur <= buf@.len(),
            out@.len() == i,
            buf@.subrange(p1 as int, cur as int) == spec_str_concat(out@),
        decreases n - i,
    {
        let ghost pre = out@;
        let (s, next) = match read_str_s(buf, cur) {
            Some(x) => x,
            None => {
                return None;
            },
        };
        out.push(s);
        proof {
            lemma_str_concat_push(pre, out@.last());
            assert(buf@.subrange(p1 as int, next as int) =~= buf@.subrange(p1 as int, cur as int)
                + buf@.subrange(cur as int, next as int));
        }
        cur = next;
        i = i + 1;
    }
    proof {
        assert(out@.len() as u64 == n);
        assert(buf@.subrange(pos as int, cur as int) =~= buf@.subrange(pos as int, p1 as int)
            + buf@.subrange(p1 as int, cur as int));
        assert(buf@.subrange(pos as int, cur as int) =~= spec_str_list_bytes(out@));
    }
    Some((out, cur))
}

#[verifier::rlimit(80)]
#[verifier::spinoff_prover]
fn read_header_list(buf: &[u8], pos: usize) -> (r: Option<(Vec<BlockHeader>, usize)>)
    requires
        pos <= buf@.len(),
    ensures
        r matches Some((hs, p2)) ==> pos <= p2 <= buf@.len() && buf@.subrange(
            pos as int,
            p2 as int,
        ) == spec_header_list_bytes(hs@),
{
    let n = match read_u64_be(buf, pos) {
        Some(x) => x,
        None => {
            return None;
        },
    };
    let p1 = pos + 8;
    let mut out: Vec<BlockHeader> = Vec::new();
    let mut cur = p1;
    let mut i: u64 = 0;
    while i < n
        invariant
            i <= n,
            p1 <= cur <= buf@.len(),
            out@.len() == i,
            buf@.subrange(p1 as int, cur as int) == spec_header_concat(out@),
        decreases n - i,
    {
        let ghost pre = out@;
        let (h, next) = match read_header(buf, cur) {
            Some(x) => x,
            None => {
                return None;
            },
        };
        out.push(h);
        proof {
            lemma_header_concat_push(pre, out@.last());
            assert(buf@.subrange(p1 as int, next as int) =~= buf@.subrange(p1 as int, cur as int)
                + buf@.subrange(cur as int, next as int));
        }
        cur = next;
        i = i + 1;
    }
    proof {
        assert(out@.len() as u64 == n);
        assert(buf@.subrange(pos as int, cur as int) =~= buf@.subrange(pos as int, p1 as int)
            + buf@.subrange(p1 as int, cur as int));
        assert(buf@.subrange(pos as int, cur as int) =~= spec_header_list_bytes(out@));
    }
    Some((out, cur))
}

#[verifier::rlimit(100)]
#[verifier::spinoff_prover]
fn read_block_list(buf: &[u8], pos: usize) -> (r: Option<(Vec<Block>, usize)>)
    requires
        pos <= buf@.len(),
    ensures
        r matches Some((bs, p2)) ==> pos <= p2 <= buf@.len() && buf@.subrange(
            pos as int,
            p2 as int,
        ) == spec_block_list_bytes(bs@),
{
    let n = match read_u64_be(buf, pos) {
        Some(x) => x,
        None => {
            return None;
        },
    };
    let p1 = pos + 8;
    let mut out: Vec<Block> = Vec::new();
    let mut cur = p1;
    let mut i: u64 = 0;
    while i < n
        invariant
            i <= n,
            p1 <= cur <= buf@.len(),
            out@.len() == i,
            buf@.subrange(p1 as int, cur as int) == spec_block_concat(out@),
        decreases n - i,
    {
        let ghost pre = out@;
        let (b, next) = match read_block(buf, cur) {
            Some(x) => x,
            None => {
                return None;
            },
        };
        out.push(b);
        proof {
            lemma_block_concat_push(pre, out@.last());
            assert(buf@.subrange(p1 as int, next as int) =~= buf@.subrange(p1 as int, cur as int)
                + buf@.subrange(cur as int, next as int));
        }
        cur = next;
        i = i + 1;
    }
    proof {
        assert(out@.len() as u64 == n);
        assert(buf@.subrange(pos as int, cur as int) =~= buf@.subrange(pos as int, p1 as int)
            + buf@.subrange(p1 as int, cur as int));
        assert(buf@.subrange(pos as int, cur as int) =~= spec_block_list_bytes(out@));
    }
    Some((out, cur))
}

/// Parse one tagged payload starting at `pos`.
/// The tag byte of each variant.
pub open spec fn spec_tag(m: Message) -> u8 {
    match m {
        Message::Ping => 0u8,
        Message::Pong => 1u8,
        Message::GetStatus => 2u8,
        Message::Status { .. } => 3u8,
        Message::GetBlocks { .. } => 4u8,
        Message::Blocks(_) => 5u8,
        Message::NewTransaction(_) => 6u8,
        Message::NewBlock(_) => 7u8,
        Message::Inventory { .. } => 8u8,
        Message::GetMempool => 9u8,
        Message::Handshake { .. } => 10u8,
        Message::GetHeaders { .. } => 11u8,
        Message::Headers(_) => 12u8,
        Message::GetData { .. } => 13u8,
        Message::Addr { .. } => 14u8,
        Message::GetAddr => 15u8,
    }
}

/// Every payload starts with its variant's tag byte.
proof fn lemma_payload_starts_with_tag(m: Message)
    ensures
        spec_payload(m).len() >= 1,
        spec_payload(m)[0] == spec_tag(m),
{
}

/// One helper per composite variant keeps each proof small. Each takes
/// the position of the tag byte it has already been matched on.
fn read_status(buf: &[u8], pos: usize) -> (r: Option<(Message, usize)>)
    requires
        pos < buf@.len(),
        buf@[pos as int] == 3u8,
    ensures
        r matches Some((m, p2)) ==> pos <= p2 <= buf@.len() && buf@.subrange(
            pos as int,
            p2 as int,
        ) == spec_payload(m),
        forall|m0: Message|
            (m0 is Status && spec_ctrl_fits(m0) && crate::bytes::is_prefix(
                #[trigger] spec_payload(m0),
                buf@.skip(pos as int),
            )) ==> (r matches Some((m, p2)) && p2 == pos + spec_payload(m0).len()),
{
    // Grounds the buffer length, so the position arithmetic stays in bounds.
    let _blen: usize = buf.len();
    let p0 = pos + 1;
    proof {
        assert forall|m0: Message|
            (m0 is Status && spec_ctrl_fits(m0) && crate::bytes::is_prefix(
                #[trigger] spec_payload(m0),
                buf@.skip(pos as int),
            )) implies crate::bytes::is_prefix(
            spec_u64_be(m0->Status_height) + spec_str_bytes((m0->Status_tip_hash)@),
            buf@.skip(p0 as int),
        ) by {
            let fields = spec_u64_be(m0->Status_height) + spec_str_bytes((m0->Status_tip_hash)@);
            assert(spec_payload(m0) =~= seq![3u8] + fields);
            crate::bytes::lemma_prefix_split(seq![3u8], fields, buf@.skip(pos as int));
            crate::bytes::lemma_skip_skip(buf@, pos as int, 1);
        }
    }
    let height = match read_u64_be(buf, p0) {
        Some(x) => x,
        None => {
            proof {
                assert forall|m0: Message|
                    !(m0 is Status && spec_ctrl_fits(m0) && crate::bytes::is_prefix(
                        #[trigger] spec_payload(m0),
                        buf@.skip(pos as int),
                    )) by {
                    if m0 is Status && spec_ctrl_fits(m0) && crate::bytes::is_prefix(
                        spec_payload(m0),
                        buf@.skip(pos as int),
                    ) {
                        let fields = spec_u64_be(m0->Status_height) + spec_str_bytes((
                        m0->Status_tip_hash)@);
                        crate::bytes::lemma_prefix_split(
                            spec_u64_be(m0->Status_height),
                            spec_str_bytes((m0->Status_tip_hash)@),
                            buf@.skip(p0 as int),
                        );
                    }
                }
            }
            return None;
        },
    };
    let p1 = p0 + 8;
    let (tip_hash, p2) = match read_str(buf, p1) {
        Some(x) => x,
        None => {
            proof {
                assert forall|m0: Message|
                    !(m0 is Status && spec_ctrl_fits(m0) && crate::bytes::is_prefix(
                        #[trigger] spec_payload(m0),
                        buf@.skip(pos as int),
                    )) by {
                    if m0 is Status && spec_ctrl_fits(m0) && crate::bytes::is_prefix(
                        spec_payload(m0),
                        buf@.skip(pos as int),
                    ) {
                        crate::bytes::lemma_prefix_split(
                            spec_u64_be(m0->Status_height),
                            spec_str_bytes((m0->Status_tip_hash)@),
                            buf@.skip(p0 as int),
                        );
                        crate::bytes::lemma_skip_skip(buf@, p0 as int, 8);
                    }
                }
            }
            return None;
        },
    };
    let m = Message::Status { height, tip_hash };
    proof {
        assert(buf@.subrange(pos as int, p0 as int) =~= seq![buf@[pos as int]]);
        assert(buf@.subrange(pos as int, p2 as int) =~= buf@.subrange(pos as int, p0 as int)
            + buf@.subrange(p0 as int, p1 as int) + buf@.subrange(p1 as int, p2 as int));
        assert(buf@.subrange(pos as int, p2 as int) =~= spec_payload(m));
        assert forall|m0: Message|
            (m0 is Status && spec_ctrl_fits(m0) && crate::bytes::is_prefix(
                #[trigger] spec_payload(m0),
                buf@.skip(pos as int),
            )) implies p2 == pos + spec_payload(m0).len() by {
            crate::bytes::lemma_prefix_split(
                spec_u64_be(m0->Status_height),
                spec_str_bytes((m0->Status_tip_hash)@),
                buf@.skip(p0 as int),
            );
            crate::bytes::lemma_skip_skip(buf@, p0 as int, 8);
            crate::bytes::lemma_str_bytes_det(
                (m0->Status_tip_hash)@,
                tip_hash@,
                buf@.skip(p1 as int),
            );
            assert(buf@.skip(p1 as int).subrange(0, (p2 - p1) as int) =~= buf@.subrange(
                p1 as int,
                p2 as int,
            ));
        }
    }
    Some((m, p2))
}

fn read_get_blocks(buf: &[u8], pos: usize) -> (r: Option<(Message, usize)>)
    requires
        pos < buf@.len(),
        buf@[pos as int] == 4u8,
    ensures
        r matches Some((m, p2)) ==> pos <= p2 <= buf@.len() && buf@.subrange(
            pos as int,
            p2 as int,
        ) == spec_payload(m),
        pos + 9 <= buf@.len() ==> (r matches Some((m, p2)) && p2 == pos + 9),
{
    // Grounds the buffer length, so the position arithmetic stays in bounds.
    let _blen: usize = buf.len();
    let p0 = pos + 1;
    let start_height = match read_u64_be(buf, p0) {
        Some(x) => x,
        None => {
            return None;
        },
    };
    let p1 = p0 + 8;
    let m = Message::GetBlocks { start_height };
    proof {
        assert(buf@.subrange(pos as int, p0 as int) =~= seq![buf@[pos as int]]);
        assert(buf@.subrange(pos as int, p1 as int) =~= buf@.subrange(pos as int, p0 as int)
            + buf@.subrange(p0 as int, p1 as int));
        assert(buf@.subrange(pos as int, p1 as int) =~= spec_payload(m));
    }
    Some((m, p1))
}

fn read_blocks_msg(buf: &[u8], pos: usize) -> (r: Option<(Message, usize)>)
    requires
        pos < buf@.len(),
        buf@[pos as int] == 5u8,
    ensures
        r matches Some((m, p2)) ==> pos <= p2 <= buf@.len() && buf@.subrange(
            pos as int,
            p2 as int,
        ) == spec_payload(m),
{
    // Grounds the buffer length, so the position arithmetic stays in bounds.
    let _blen: usize = buf.len();
    let p0 = pos + 1;
    let (bs, p1) = match read_block_list(buf, p0) {
        Some(x) => x,
        None => {
            return None;
        },
    };
    let m = Message::Blocks(bs);
    proof {
        assert(buf@.subrange(pos as int, p0 as int) =~= seq![buf@[pos as int]]);
        assert(buf@.subrange(pos as int, p1 as int) =~= buf@.subrange(pos as int, p0 as int)
            + buf@.subrange(p0 as int, p1 as int));
        assert(buf@.subrange(pos as int, p1 as int) =~= spec_payload(m));
    }
    Some((m, p1))
}

fn read_new_transaction(buf: &[u8], pos: usize) -> (r: Option<(Message, usize)>)
    requires
        pos < buf@.len(),
        buf@[pos as int] == 6u8,
    ensures
        r matches Some((m, p2)) ==> pos <= p2 <= buf@.len() && buf@.subrange(
            pos as int,
            p2 as int,
        ) == spec_payload(m),
        forall|m0: Message|
            (m0 is NewTransaction && spec_covered_fits(m0) && crate::bytes::is_prefix(
                #[trigger] spec_payload(m0),
                buf@.skip(pos as int),
            )) ==> (r matches Some((m, p2)) && p2 == pos + spec_payload(m0).len()),
{
    // Grounds the buffer length, so the position arithmetic stays in bounds.
    let _blen: usize = buf.len();
    let p0 = pos + 1;
    proof {
        assert forall|m0: Message|
            (m0 is NewTransaction && spec_covered_fits(m0) && crate::bytes::is_prefix(
                #[trigger] spec_payload(m0),
                buf@.skip(pos as int),
            )) implies crate::bytes::is_prefix(
            spec_tx_bytes(m0->NewTransaction_0),
            buf@.skip(p0 as int),
        ) by {
            assert(spec_payload(m0) =~= seq![6u8] + spec_tx_bytes(m0->NewTransaction_0));
            crate::bytes::lemma_prefix_split(
                seq![6u8],
                spec_tx_bytes(m0->NewTransaction_0),
                buf@.skip(pos as int),
            );
            crate::bytes::lemma_skip_skip(buf@, pos as int, 1);
        }
    }
    let (tx, p1) = match read_tx(buf, p0) {
        Some(x) => x,
        None => {
            return None;
        },
    };
    let m = Message::NewTransaction(tx);
    proof {
        assert(buf@.subrange(pos as int, p0 as int) =~= seq![buf@[pos as int]]);
        assert(buf@.subrange(pos as int, p1 as int) =~= buf@.subrange(pos as int, p0 as int)
            + buf@.subrange(p0 as int, p1 as int));
        assert(buf@.subrange(pos as int, p1 as int) =~= spec_payload(m));
    }
    Some((m, p1))
}

fn read_new_block(buf: &[u8], pos: usize) -> (r: Option<(Message, usize)>)
    requires
        pos < buf@.len(),
        buf@[pos as int] == 7u8,
    ensures
        r matches Some((m, p2)) ==> pos <= p2 <= buf@.len() && buf@.subrange(
            pos as int,
            p2 as int,
        ) == spec_payload(m),
{
    // Grounds the buffer length, so the position arithmetic stays in bounds.
    let _blen: usize = buf.len();
    let p0 = pos + 1;
    let (b, p1) = match read_block(buf, p0) {
        Some(x) => x,
        None => {
            return None;
        },
    };
    let m = Message::NewBlock(b);
    proof {
        assert(buf@.subrange(pos as int, p0 as int) =~= seq![buf@[pos as int]]);
        assert(buf@.subrange(pos as int, p1 as int) =~= buf@.subrange(pos as int, p0 as int)
            + buf@.subrange(p0 as int, p1 as int));
        assert(buf@.subrange(pos as int, p1 as int) =~= spec_payload(m));
    }
    Some((m, p1))
}

fn read_inventory(buf: &[u8], pos: usize) -> (r: Option<(Message, usize)>)
    requires
        pos < buf@.len(),
        buf@[pos as int] == 8u8,
    ensures
        r matches Some((m, p2)) ==> pos <= p2 <= buf@.len() && buf@.subrange(
            pos as int,
            p2 as int,
        ) == spec_payload(m),
{
    // Grounds the buffer length, so the position arithmetic stays in bounds.
    let _blen: usize = buf.len();
    let p0 = pos + 1;
    let (tx_hashes, p1) = match read_str_list(buf, p0) {
        Some(x) => x,
        None => {
            return None;
        },
    };
    let (block_hashes, p2) = match read_str_list(buf, p1) {
        Some(x) => x,
        None => {
            return None;
        },
    };
    let m = Message::Inventory { tx_hashes, block_hashes };
    proof {
        assert(buf@.subrange(pos as int, p0 as int) =~= seq![buf@[pos as int]]);
        assert(buf@.subrange(pos as int, p2 as int) =~= buf@.subrange(pos as int, p0 as int)
            + buf@.subrange(p0 as int, p1 as int) + buf@.subrange(p1 as int, p2 as int));
        assert(buf@.subrange(pos as int, p2 as int) =~= spec_payload(m));
    }
    Some((m, p2))
}

fn read_handshake(buf: &[u8], pos: usize) -> (r: Option<(Message, usize)>)
    requires
        pos < buf@.len(),
        buf@[pos as int] == 10u8,
    ensures
        r matches Some((m, p2)) ==> pos <= p2 <= buf@.len() && buf@.subrange(
            pos as int,
            p2 as int,
        ) == spec_payload(m),
        pos + 13 <= buf@.len() ==> (r matches Some((m, p2)) && p2 == pos + 13),
{
    // Grounds the buffer length, so the position arithmetic stays in bounds.
    let _blen: usize = buf.len();
    let p0 = pos + 1;
    let version = match read_u32_be(buf, p0) {
        Some(x) => x,
        None => {
            return None;
        },
    };
    let p1 = p0 + 4;
    let best_height = match read_u64_be(buf, p1) {
        Some(x) => x,
        None => {
            return None;
        },
    };
    let p2 = p1 + 8;
    let m = Message::Handshake { version, best_height };
    proof {
        assert(buf@.subrange(pos as int, p0 as int) =~= seq![buf@[pos as int]]);
        assert(buf@.subrange(pos as int, p2 as int) =~= buf@.subrange(pos as int, p0 as int)
            + buf@.subrange(p0 as int, p1 as int) + buf@.subrange(p1 as int, p2 as int));
        assert(buf@.subrange(pos as int, p2 as int) =~= spec_payload(m));
    }
    Some((m, p2))
}

fn read_get_headers(buf: &[u8], pos: usize) -> (r: Option<(Message, usize)>)
    requires
        pos < buf@.len(),
        buf@[pos as int] == 11u8,
    ensures
        r matches Some((m, p2)) ==> pos <= p2 <= buf@.len() && buf@.subrange(
            pos as int,
            p2 as int,
        ) == spec_payload(m),
        pos + 13 <= buf@.len() ==> (r matches Some((m, p2)) && p2 == pos + 13),
{
    // Grounds the buffer length, so the position arithmetic stays in bounds.
    let _blen: usize = buf.len();
    let p0 = pos + 1;
    let start_height = match read_u64_be(buf, p0) {
        Some(x) => x,
        None => {
            return None;
        },
    };
    let p1 = p0 + 8;
    let limit = match read_u32_be(buf, p1) {
        Some(x) => x,
        None => {
            return None;
        },
    };
    let p2 = p1 + 4;
    let m = Message::GetHeaders { start_height, limit };
    proof {
        assert(buf@.subrange(pos as int, p0 as int) =~= seq![buf@[pos as int]]);
        assert(buf@.subrange(pos as int, p2 as int) =~= buf@.subrange(pos as int, p0 as int)
            + buf@.subrange(p0 as int, p1 as int) + buf@.subrange(p1 as int, p2 as int));
        assert(buf@.subrange(pos as int, p2 as int) =~= spec_payload(m));
    }
    Some((m, p2))
}

fn read_headers_msg(buf: &[u8], pos: usize) -> (r: Option<(Message, usize)>)
    requires
        pos < buf@.len(),
        buf@[pos as int] == 12u8,
    ensures
        r matches Some((m, p2)) ==> pos <= p2 <= buf@.len() && buf@.subrange(
            pos as int,
            p2 as int,
        ) == spec_payload(m),
{
    // Grounds the buffer length, so the position arithmetic stays in bounds.
    let _blen: usize = buf.len();
    let p0 = pos + 1;
    let (hs, p1) = match read_header_list(buf, p0) {
        Some(x) => x,
        None => {
            return None;
        },
    };
    let m = Message::Headers(hs);
    proof {
        assert(buf@.subrange(pos as int, p0 as int) =~= seq![buf@[pos as int]]);
        assert(buf@.subrange(pos as int, p1 as int) =~= buf@.subrange(pos as int, p0 as int)
            + buf@.subrange(p0 as int, p1 as int));
        assert(buf@.subrange(pos as int, p1 as int) =~= spec_payload(m));
    }
    Some((m, p1))
}

fn read_get_data(buf: &[u8], pos: usize) -> (r: Option<(Message, usize)>)
    requires
        pos < buf@.len(),
        buf@[pos as int] == 13u8,
    ensures
        r matches Some((m, p2)) ==> pos <= p2 <= buf@.len() && buf@.subrange(
            pos as int,
            p2 as int,
        ) == spec_payload(m),
{
    // Grounds the buffer length, so the position arithmetic stays in bounds.
    let _blen: usize = buf.len();
    let p0 = pos + 1;
    let (block_hashes, p1) = match read_str_list(buf, p0) {
        Some(x) => x,
        None => {
            return None;
        },
    };
    let m = Message::GetData { block_hashes };
    proof {
        assert(buf@.subrange(pos as int, p0 as int) =~= seq![buf@[pos as int]]);
        assert(buf@.subrange(pos as int, p1 as int) =~= buf@.subrange(pos as int, p0 as int)
            + buf@.subrange(p0 as int, p1 as int));
        assert(buf@.subrange(pos as int, p1 as int) =~= spec_payload(m));
    }
    Some((m, p1))
}

fn read_addr(buf: &[u8], pos: usize) -> (r: Option<(Message, usize)>)
    requires
        pos < buf@.len(),
        buf@[pos as int] == 14u8,
    ensures
        r matches Some((m, p2)) ==> pos <= p2 <= buf@.len() && buf@.subrange(
            pos as int,
            p2 as int,
        ) == spec_payload(m),
{
    // Grounds the buffer length, so the position arithmetic stays in bounds.
    let _blen: usize = buf.len();
    let p0 = pos + 1;
    let (addrs, p1) = match read_str_list(buf, p0) {
        Some(x) => x,
        None => {
            return None;
        },
    };
    let m = Message::Addr { addrs };
    proof {
        assert(buf@.subrange(pos as int, p0 as int) =~= seq![buf@[pos as int]]);
        assert(buf@.subrange(pos as int, p1 as int) =~= buf@.subrange(pos as int, p0 as int)
            + buf@.subrange(p0 as int, p1 as int));
        assert(buf@.subrange(pos as int, p1 as int) =~= spec_payload(m));
    }
    Some((m, p1))
}

/// Parse one tagged payload starting at `pos`. A success consumed exactly
/// one payload; for the covered variants the parse is also complete: a
/// well-formed covered payload at `pos` is always accepted.
fn read_msg(buf: &[u8], pos: usize) -> (r: Option<(Message, usize)>)
    requires
        pos <= buf@.len(),
    ensures
        r matches Some((m, p2)) ==> pos <= p2 <= buf@.len() && buf@.subrange(
            pos as int,
            p2 as int,
        ) == spec_payload(m),
        forall|m0: Message|
            (spec_covered(m0) && spec_covered_fits(m0) && crate::bytes::is_prefix(
                #[trigger] spec_payload(m0),
                buf@.skip(pos as int),
            )) ==> (r matches Some((m, p2)) && p2 == pos + spec_payload(m0).len()),
{
    if pos >= buf.len() {
        proof {
            assert forall|m0: Message|
                !crate::bytes::is_prefix(#[trigger] spec_payload(m0), buf@.skip(pos as int)) by {
                lemma_payload_starts_with_tag(m0);
            }
        }
        return None;
    }
    let tag = buf[pos];
    let p0 = pos + 1;
    proof {
        assert(buf@.subrange(pos as int, p0 as int) =~= seq![buf@[pos as int]]);
        assert forall|m0: Message|
            crate::bytes::is_prefix(
                #[trigger] spec_payload(m0),
                buf@.skip(pos as int),
            ) implies spec_tag(m0) == buf@[pos as int] by {
            lemma_payload_starts_with_tag(m0);
            let p = spec_payload(m0);
            assert(buf@.skip(pos as int).subrange(0, p.len() as int)[0] == buf@.skip(
                pos as int,
            )[0]);
            assert(buf@.skip(pos as int)[0] == buf@[pos as int]);
        }
    }
    if tag == 0 {
        return Some((Message::Ping, p0));
    }
    if tag == 1 {
        return Some((Message::Pong, p0));
    }
    if tag == 2 {
        return Some((Message::GetStatus, p0));
    }
    if tag == 3 {
        return read_status(buf, pos);
    }
    if tag == 4 {
        proof {
            assert forall|m0: Message|
                (spec_covered(m0) && spec_covered_fits(m0) && crate::bytes::is_prefix(
                    #[trigger] spec_payload(m0),
                    buf@.skip(pos as int),
                )) implies pos + 9 <= buf@.len() && spec_payload(m0).len() == 9 by {
                lemma_payload_starts_with_tag(m0);
            }
        }
        return read_get_blocks(buf, pos);
    }
    if tag == 5 {
        return read_blocks_msg(buf, pos);
    }
    if tag == 6 {
        return read_new_transaction(buf, pos);
    }
    if tag == 7 {
        return read_new_block(buf, pos);
    }
    if tag == 8 {
        return read_inventory(buf, pos);
    }
    if tag == 9 {
        return Some((Message::GetMempool, p0));
    }
    if tag == 10 {
        proof {
            assert forall|m0: Message|
                (spec_covered(m0) && spec_covered_fits(m0) && crate::bytes::is_prefix(
                    #[trigger] spec_payload(m0),
                    buf@.skip(pos as int),
                )) implies pos + 13 <= buf@.len() && spec_payload(m0).len() == 13 by {
                lemma_payload_starts_with_tag(m0);
            }
        }
        return read_handshake(buf, pos);
    }
    if tag == 11 {
        proof {
            assert forall|m0: Message|
                (spec_covered(m0) && spec_covered_fits(m0) && crate::bytes::is_prefix(
                    #[trigger] spec_payload(m0),
                    buf@.skip(pos as int),
                )) implies pos + 13 <= buf@.len() && spec_payload(m0).len() == 13 by {
                lemma_payload_starts_with_tag(m0);
            }
        }
        return read_get_headers(buf, pos);
    }
    if tag == 12 {
        return read_headers_msg(buf, pos);
    }
    if tag == 13 {
        return read_get_data(buf, pos);
    }
    if tag == 14 {
        return read_addr(buf, pos);
    }
    if tag == 15 {
        return Some((Message::GetAddr, p0));
    }
    None
}

impl Message {
    /// Parse the declared payload length of a frame's four-byte prefix,
    /// refusing a declared length over the cap.
    pub fn declared_len(prefix: &[u8]) -> (r: Result<usize, ProtocolError>)
        ensures
            prefix@.len() < 4 ==> r == Err::<usize, ProtocolError>(ProtocolError::Truncated),
            prefix@.len() >= 4 ==> {
                let n = crate::bytes::spec_u32_from_be(
                    prefix@[0],
                    prefix@[1],
                    prefix@[2],
                    prefix@[3],
                );
                if n > spec_frame_cap() {
                    r == Err::<usize, ProtocolError>(ProtocolError::FrameTooLarge)
                } else {
                    r == Ok::<usize, ProtocolError>(n as usize)
                }
            },
    {
        let n = match read_u32_be(prefix, 0) {
            Some(x) => x,
            None => {
                return Err(ProtocolError::Truncated);
            },
        };
        proof {
            lemma_u32_be_roundtrip(n);
            assert(prefix@.subrange(0, 4) =~= seq![prefix@[0], prefix@[1], prefix@[2], prefix@[3]]);
        }
        if n > 10485760 {
            return Err(ProtocolError::FrameTooLarge);
        }
        Ok(n as usize)
    }

    /// Parse one payload (without the length prefix); a success consumed
    /// the whole buffer and returns exactly the message those bytes frame.
    /// Every well-formed covered payload is accepted.
    pub fn decode_payload(buf: &[u8]) -> (r: Result<Message, ProtocolError>)
        ensures
            r matches Ok(m) ==> buf@ == spec_payload(m),
            forall|m0: Message|
                (spec_covered(m0) && spec_covered_fits(m0) && buf@ == #[trigger] spec_payload(m0))
                    ==> r is Ok,
    {
        proof {
            assert(buf@.skip(0) =~= buf@);
            assert forall|m0: Message|
                buf@ == #[trigger] spec_payload(m0) implies crate::bytes::is_prefix(
                spec_payload(m0),
                buf@.skip(0),
            ) by {
                assert(buf@.subrange(0, buf@.len() as int) =~= buf@);
            }
        }
        match read_msg(buf, 0) {
            Some((m, p2)) => {
                if p2 != buf.len() {
                    return Err(ProtocolError::Malformed);
                }
                proof {
                    assert(buf@.subrange(0, buf@.len() as int) =~= buf@);
                }
                Ok(m)
            },
            None => Err(ProtocolError::Malformed),
        }
    }

    /// Parse one whole frame: the length prefix is read and checked
    /// against the cap before the payload is touched; a success consumed
    /// exactly the buffer and returns the message it frames. Every
    /// well-formed frame of a covered message under the cap is accepted.
    pub fn decode(buf: &[u8]) -> (r: Result<Message, ProtocolError>)
        ensures
            r matches Ok(m) ==> spec_payload(m).len() <= spec_frame_cap() && buf@ == spec_frame(m),
            buf@.len() < 4 ==> r == Err::<Message, ProtocolError>(ProtocolError::Truncated),
            buf@.len() >= 4 && crate::bytes::spec_u32_from_be(
                buf@[0],
                buf@[1],
                buf@[2],
                buf@[3],
            ) > spec_frame_cap() ==> r == Err::<Message, ProtocolError>(
                ProtocolError::FrameTooLarge,
            ),
            forall|m0: Message|
                (spec_covered(m0) && spec_covered_fits(m0) && spec_payload(m0).len()
                    <= spec_frame_cap() && buf@ == #[trigger] spec_frame(m0)) ==> r is Ok,
    {
        proof {
            assert forall|m0: Message|
                buf@ == #[trigger] spec_frame(m0) implies buf@.len() >= 4 && buf@.subrange(0, 4)
                    =~= spec_u32_be(spec_payload(m0).len() as u32) && buf@.skip(4)
                    =~= spec_payload(m0) by {
                lemma_payload_starts_with_tag(m0);
            }
        }
        let n = match read_u32_be(buf, 0) {
            Some(x) => x,
            None => {
                return Err(ProtocolError::Truncated);
            },
        };
        proof {
            lemma_u32_be_roundtrip(n);
            assert(buf@.subrange(0, 4) =~= seq![buf@[0], buf@[1], buf@[2], buf@[3]]);
            assert forall|m0: Message|
                (spec_payload(m0).len() <= spec_frame_cap() && buf@ == #[trigger] spec_frame(m0))
                    implies n == spec_payload(m0).len() by {
                lemma_u32_be_roundtrip(spec_payload(m0).len() as u32);
            }
            assert forall|m0: Message|
                (spec_covered(m0) && spec_covered_fits(m0) && buf@ == #[trigger] spec_frame(m0))
                    implies crate::bytes::is_prefix(spec_payload(m0), buf@.skip(4)) by {
                assert(buf@.skip(4).subrange(0, spec_payload(m0).len() as int) =~= buf@.skip(4));
            }
        }
        if n > 10485760 {
            return Err(ProtocolError::FrameTooLarge);
        }
        let declared = n as usize;
        if buf.len() - 4 != declared {
            return Err(ProtocolError::Truncated);
        }
        match read_msg(buf, 4) {
            Some((m, p2)) => {
                if p2 != buf.len() {
                    return Err(ProtocolError::Malformed);
                }
                proof {
                    assert(buf@ =~= buf@.subrange(0, 4) + buf@.subrange(4, buf@.len() as int));
                    assert(spec_payload(m).len() == buf@.len() - 4);
                    assert(spec_payload(m).len() as u32 == n);
                    assert(buf@ =~= spec_frame(m));
                }
                Ok(m)
            },
            None => Err(ProtocolError::Malformed),
        }
    }

    /// Frame the message: its payload length as four big-endian bytes,
    /// then the payload; refused only when the payload length does not fit
    /// the four-byte prefix.
    pub fn encode(&self) -> (r: Result<Vec<u8>, ProtocolError>)
        ensures
            r is Err <==> spec_payload(*self).len() > u32::MAX,
            r is Err ==> r == Err::<Vec<u8>, ProtocolError>(ProtocolError::OversizedPayload),
            r matches Ok(v) ==> v@ == spec_frame(*self),
    {
        let mut payload = encode_payload(self);
        if payload.len() as u64 > u32::MAX as u64 {
            return Err(ProtocolError::OversizedPayload);
        }
        let mut v: Vec<u8> = Vec::new();
        push_u32_be(&mut v, payload.len() as u32);
        v.append(&mut payload);
        proof {
            assert(v@ =~= spec_frame(*self));
        }
        Ok(v)
    }
}

} // verus!
