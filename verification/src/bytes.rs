//! Canonical byte encodings used for hashing and for the wire protocol:
//! big-endian integers, length-prefixed UTF-8 strings and optional strings.

use vstd::prelude::*;
use vstd::utf8::{encode_utf8, valid_utf8, decode_utf8};
use vstd::utf8::{encode_utf8_valid_utf8, encode_utf8_decode_utf8, decode_utf8_encode_utf8};

verus! {

/// The four bytes of `n`, most significant first.
pub open spec fn spec_u32_be(n: u32) -> Seq<u8> {
    seq![(n >> 24) as u8, (n >> 16) as u8, (n >> 8) as u8, n as u8]
}

/// The eight bytes of `n`, most significant first.
pub open spec fn spec_u64_be(n: u64) -> Seq<u8> {
    seq![
        (n >> 56) as u8,
        (n >> 48) as u8,
        (n >> 40) as u8,
        (n >> 32) as u8,
        (n >> 24) as u8,
        (n >> 16) as u8,
        (n >> 8) as u8,
        n as u8,
    ]
}

/// The value read back from four big-endian bytes.
pub open spec fn spec_u32_from_be(b0: u8, b1: u8, b2: u8, b3: u8) -> u32 {
    (((b0 as u32) << 24) | ((b1 as u32) << 16) | ((b2 as u32) << 8) | (b3 as u32)) as u32
}

/// The value read back from eight big-endian bytes.
pub open spec fn spec_u64_from_be(
    b0: u8,
    b1: u8,
    b2: u8,
    b3: u8,
    b4: u8,
    b5: u8,
    b6: u8,
    b7: u8,
) -> u64 {
    (((b0 as u64) << 56) | ((b1 as u64) << 48) | ((b2 as u64) << 40) | ((b3 as u64) << 32) | ((
    b4 as u64) << 24) | ((b5 as u64) << 16) | ((b6 as u64) << 8) | (b7 as u64)) as u64
}

/// Reading the four bytes of a value gives the value back.
pub proof fn lemma_u32_be_roundtrip(n: u32)
    ensures
        spec_u32_from_be(
            spec_u32_be(n)[0],
            spec_u32_be(n)[1],
            spec_u32_be(n)[2],
            spec_u32_be(n)[3],
        ) == n,
{
    assert((((((n >> 24) as u8) as u32) << 24) | ((((n >> 16) as u8) as u32) << 16) | ((((n
        >> 8) as u8) as u32) << 8) | ((n as u8) as u32)) as u32 == n) by (bit_vector);
}

/// Reading the eight bytes of a value gives the value back.
pub proof fn lemma_u64_be_roundtrip(n: u64)
    ensures
        spec_u64_from_be(
            spec_u64_be(n)[0],
            spec_u64_be(n)[1],
            spec_u64_be(n)[2],
            spec_u64_be(n)[3],
            spec_u64_be(n)[4],
            spec_u64_be(n)[5],
            spec_u64_be(n)[6],
            spec_u64_be(n)[7],
        ) == n,
{
    assert((((((n >> 56) as u8) as u64) << 56) | ((((n >> 48) as u8) as u64) << 48) | ((((n
        >> 40) as u8) as u64) << 40) | ((((n >> 32) as u8) as u64) << 32) | ((((n
        >> 24) as u8) as u64) << 24) | ((((n >> 16) as u8) as u64) << 16) | ((((n
        >> 8) as u8) as u64) << 8) | ((n as u8) as u64)) as u64 == n) by (bit_vector);
}

/// A string as bytes: the byte length as eight big-endian bytes, then the
/// UTF-8 bytes themselves.
pub open spec fn spec_str_bytes(s: Seq<char>) -> Seq<u8> {
    spec_u64_be(encode_utf8(s).len() as u64) + encode_utf8(s)
}

/// An optional string as bytes: a presence byte, then the string if present.
pub open spec fn spec_opt_str_bytes(s: Option<Seq<char>>) -> Seq<u8> {
    match s {
        Option::None => seq![0u8],
        Option::Some(t) => seq![1u8] + spec_str_bytes(t),
    }
}

/// The view of an optional string.
pub open spec fn spec_opt_view(s: Option<String>) -> Option<Seq<char>> {
    match s {
        Option::None => Option::None,
        Option::Some(t) => Option::Some(t@),
    }
}

/// Whether `p` is a prefix of `s`.
pub open spec fn is_prefix(p: Seq<u8>, s: Seq<u8>) -> bool {
    p.len() <= s.len() && s.subrange(0, p.len() as int) == p
}

/// A prefix that is a concatenation splits: the first part is a prefix, and
/// the second is a prefix of what remains.
pub proof fn lemma_prefix_split(a: Seq<u8>, b: Seq<u8>, s: Seq<u8>)
    requires
        is_prefix(a + b, s),
    ensures
        is_prefix(a, s),
        is_prefix(b, s.skip(a.len() as int)),
{
    assert(s.subrange(0, a.len() as int) =~= (a + b).subrange(0, a.len() as int));
    assert((a + b).subrange(0, a.len() as int) =~= a);
    assert(s.skip(a.len() as int).subrange(0, b.len() as int) =~= (a + b).subrange(
        a.len() as int,
        (a + b).len() as int,
    ));
    assert((a + b).subrange(a.len() as int, (a + b).len() as int) =~= b);
}

/// Skipping twice is skipping the sum.
pub proof fn lemma_skip_skip(s: Seq<u8>, x: int, y: int)
    requires
        0 <= x,
        0 <= y,
        x + y <= s.len(),
    ensures
        s.skip(x).skip(y) == s.skip(x + y),
{
    assert(s.skip(x).skip(y) =~= s.skip(x + y));
}

/// The four big-endian bytes of the value read back from them are
/// themselves.
pub proof fn lemma_u32_be_reconstruct(b0: u8, b1: u8, b2: u8, b3: u8)
    ensures
        spec_u32_be(spec_u32_from_be(b0, b1, b2, b3)) == seq![b0, b1, b2, b3],
{
    let n = spec_u32_from_be(b0, b1, b2, b3);
    assert((n >> 24) as u8 == b0 && (n >> 16) as u8 == b1 && (n >> 8) as u8 == b2 && n as u8
        == b3) by (bit_vector)
        requires
            n == (((b0 as u32) << 24) | ((b1 as u32) << 16) | ((b2 as u32) << 8) | (
            b3 as u32)) as u32,
    ;
    assert(spec_u32_be(n) =~= seq![b0, b1, b2, b3]);
}

/// The eight big-endian bytes of the value read back from them are
/// themselves.
pub proof fn lemma_u64_be_reconstruct(
    b0: u8,
    b1: u8,
    b2: u8,
    b3: u8,
    b4: u8,
    b5: u8,
    b6: u8,
    b7: u8,
)
    ensures
        spec_u64_be(spec_u64_from_be(b0, b1, b2, b3, b4, b5, b6, b7)) == seq![
            b0,
            b1,
            b2,
            b3,
            b4,
            b5,
            b6,
            b7,
        ],
{
    let n = spec_u64_from_be(b0, b1, b2, b3, b4, b5, b6, b7);
    assert((n >> 56) as u8 == b0 && (n >> 48) as u8 == b1 && (n >> 40) as u8 == b2 && (n
        >> 32) as u8 == b3 && (n >> 24) as u8 == b4 && (n >> 16) as u8 == b5 && (n >> 8) as u8
        == b6 && n as u8 == b7) by (bit_vector)
        requires
            n == (((b0 as u64) << 56) | ((b1 as u64) << 48) | ((b2 as u64) << 40) | ((b3 as u64)
                << 32) | ((b4 as u64) << 24) | ((b5 as u64) << 16) | ((b6 as u64) << 8) | (
            b7 as u64)) as u64,
    ;
    assert(spec_u64_be(n) =~= seq![b0, b1, b2, b3, b4, b5, b6, b7]);
}

pub fn push_u32_be(v: &mut Vec<u8>, n: u32)
    ensures
        final(v)@ == old(v)@ + spec_u32_be(n),
{
    v.push(#[verifier::truncate] ((n >> 24) as u8));
    v.push(#[verifier::truncate] ((n >> 16) as u8));
    v.push(#[verifier::truncate] ((n >> 8) as u8));
    v.push(#[verifier::truncate] (n as u8));
    assert(v@ =~= old(v)@ + spec_u32_be(n));
}

pub fn push_u64_be(v: &mut Vec<u8>, n: u64)
    ensures
        final(v)@ == old(v)@ + spec_u64_be(n),
{
    v.push(#[verifier::truncate] ((n >> 56) as u8));
    v.push(#[verifier::truncate] ((n >> 48) as u8));
    v.push(#[verifier::truncate] ((n >> 40) as u8));
    v.push(#[verifier::truncate] ((n >> 32) as u8));
    v.push(#[verifier::truncate] ((n >> 24) as u8));
    v.push(#[verifier::truncate] ((n >> 16) as u8));
    v.push(#[verifier::truncate] ((n >> 8) as u8));
    v.push(#[verifier::truncate] (n as u8));
    assert(v@ =~= old(v)@ + spec_u64_be(n));
}

pub fn push_str_bytes(v: &mut Vec<u8>, s: &str)
    ensures
        final(v)@ == old(v)@ + spec_str_bytes(s@),
{
    let mut b = s.as_bytes_vec();
    push_u64_be(v, b.len() as u64);
    v.append(&mut b);
    assert(v@ =~= old(v)@ + spec_str_bytes(s@));
}

pub fn push_opt_str_bytes(v: &mut Vec<u8>, s: &Option<String>)
    ensures
        final(v)@ == old(v)@ + spec_opt_str_bytes(spec_opt_view(*s)),
{
    match s {
        Option::None => {
            v.push(0u8);
            assert(v@ =~= old(v)@ + spec_opt_str_bytes(Option::None));
        },
        Option::Some(t) => {
            v.push(1u8);
            push_str_bytes(v, t.as_str());
            assert(v@ =~= old(v)@ + spec_opt_str_bytes(Option::Some(t@)));
        },
    }
}

/// Two string encodings starting at the same place are the same string:
/// the length prefix pins the byte length, and UTF-8 decoding pins the
/// characters.
pub proof fn lemma_str_bytes_det(a: Seq<char>, b: Seq<char>, s: Seq<u8>)
    requires
        is_prefix(spec_str_bytes(a), s),
        is_prefix(spec_str_bytes(b), s),
        encode_utf8(a).len() <= u64::MAX,
        encode_utf8(b).len() <= u64::MAX,
    ensures
        a == b,
        spec_str_bytes(a) == spec_str_bytes(b),
{
    let ea = encode_utf8(a);
    let eb = encode_utf8(b);
    lemma_prefix_split(spec_u64_be(ea.len() as u64), ea, s);
    lemma_prefix_split(spec_u64_be(eb.len() as u64), eb, s);
    assert(s.subrange(0, 8) =~= spec_u64_be(ea.len() as u64));
    assert(s.subrange(0, 8) =~= spec_u64_be(eb.len() as u64));
    lemma_u64_be_roundtrip(ea.len() as u64);
    lemma_u64_be_roundtrip(eb.len() as u64);
    assert(ea.len() == eb.len());
    assert(s.skip(8).subrange(0, ea.len() as int) =~= ea);
    assert(s.skip(8).subrange(0, eb.len() as int) =~= eb);
    assert(ea == eb);
    encode_utf8_decode_utf8(a);
    encode_utf8_decode_utf8(b);
    assert(spec_str_bytes(a) =~= spec_str_bytes(b));
}

/// Two optional-string encodings starting at the same place agree.
pub proof fn lemma_opt_str_bytes_det(a: Option<Seq<char>>, b: Option<Seq<char>>, s: Seq<u8>)
    requires
        is_prefix(spec_opt_str_bytes(a), s),
        is_prefix(spec_opt_str_bytes(b), s),
        a matches Some(x) ==> encode_utf8(x).len() <= u64::MAX,
        b matches Some(y) ==> encode_utf8(y).len() <= u64::MAX,
    ensures
        a == b,
        spec_opt_str_bytes(a) == spec_opt_str_bytes(b),
{
    assert(s.subrange(0, spec_opt_str_bytes(a).len() as int)[0] == s[0]);
    assert(s.subrange(0, spec_opt_str_bytes(b).len() as int)[0] == s[0]);
    assert(spec_opt_str_bytes(a)[0] == s[0]);
    assert(spec_opt_str_bytes(b)[0] == s[0]);
    match (a, b) {
        (Option::None, Option::None) => {},
        (Option::Some(x), Option::Some(y)) => {
            lemma_prefix_split(seq![1u8], spec_str_bytes(x), s);
            lemma_prefix_split(seq![1u8], spec_str_bytes(y), s);
            lemma_str_bytes_det(x, y, s.skip(1));
        },
        (Option::None, Option::Some(y)) => {
            assert(spec_opt_str_bytes(a)[0] == 0u8);
            assert(spec_opt_str_bytes(b)[0] == 1u8);
        },
        (Option::Some(x), Option::None) => {
            assert(spec_opt_str_bytes(a)[0] == 1u8);
            assert(spec_opt_str_bytes(b)[0] == 0u8);
        },
    }
}

/// Two eight-byte integer encodings starting at the same place agree.
pub proof fn lemma_u64_be_det(a: u64, b: u64, s: Seq<u8>)
    requires
        is_prefix(spec_u64_be(a), s),
        is_prefix(spec_u64_be(b), s),
    ensures
        a == b,
{
    assert(s.subrange(0, 8) =~= spec_u64_be(a));
    assert(s.subrange(0, 8) =~= spec_u64_be(b));
    lemma_u64_be_roundtrip(a);
    lemma_u64_be_roundtrip(b);
}

/// Relies on core::str::from_utf8: returns a string exactly for valid
/// UTF-8 input, decoding those bytes; the copy is made with str::to_owned,
/// whose contract vstd states.
#[verifier::external_body]
fn utf8_to_string(b: &[u8]) -> (r: Option<String>)
    ensures
        r is Some <==> valid_utf8(b@),
        r matches Some(s) ==> s@ == decode_utf8(b@),
{
    match core::str::from_utf8(b) {
        Ok(s) => Some(s.to_owned()),
        Err(_) => None,
    }
}

pub fn read_u8(buf: &[u8], pos: usize) -> (r: Option<u8>)
    ensures
        pos < buf@.len() ==> r == Some(buf@[pos as int]),
        pos >= buf@.len() ==> r is None,
{
    if pos < buf.len() {
        Some(buf[pos])
    } else {
        None
    }
}

pub fn read_u32_be(buf: &[u8], pos: usize) -> (r: Option<u32>)
    requires
        pos <= buf@.len(),
    ensures
        buf@.len() <= usize::MAX,
        pos + 4 <= buf@.len() ==> (r matches Some(n) && buf@.subrange(pos as int, pos as int + 4)
            == spec_u32_be(n)),
        pos + 4 > buf@.len() ==> r is None,
{
    if buf.len() - pos < 4 {
        return None;
    }
    let n = ((buf[pos] as u32) << 24) | ((buf[pos + 1] as u32) << 16) | ((buf[pos + 2] as u32)
        << 8) | (buf[pos + 3] as u32);
    proof {
        lemma_u32_be_reconstruct(
            buf@[pos as int],
            buf@[pos as int + 1],
            buf@[pos as int + 2],
            buf@[pos as int + 3],
        );
        assert(buf@.subrange(pos as int, pos as int + 4) =~= seq![
            buf@[pos as int],
            buf@[pos as int + 1],
            buf@[pos as int + 2],
            buf@[pos as int + 3],
        ]);
    }
    Some(n)
}

pub fn read_u64_be(buf: &[u8], pos: usize) -> (r: Option<u64>)
    requires
        pos <= buf@.len(),
    ensures
        buf@.len() <= usize::MAX,
        pos + 8 <= buf@.len() ==> (r matches Some(n) && buf@.subrange(pos as int, pos as int + 8)
            == spec_u64_be(n)),
        pos + 8 > buf@.len() ==> r is None,
{
    if buf.len() - pos < 8 {
        return None;
    }
    let n = ((buf[pos] as u64) << 56) | ((buf[pos + 1] as u64) << 48) | ((buf[pos + 2] as u64)
        << 40) | ((buf[pos + 3] as u64) << 32) | ((buf[pos + 4] as u64) << 24) | ((buf[pos
        + 5] as u64) << 16) | ((buf[pos + 6] as u64) << 8) | (buf[pos + 7] as u64);
    proof {
        lemma_u64_be_reconstruct(
            buf@[pos as int],
            buf@[pos as int + 1],
            buf@[pos as int + 2],
            buf@[pos as int + 3],
            buf@[pos as int + 4],
            buf@[pos as int + 5],
            buf@[pos as int + 6],
            buf@[pos as int + 7],
        );
        assert(buf@.subrange(pos as int, pos as int + 8) =~= seq![
            buf@[pos as int],
            buf@[pos as int + 1],
            buf@[pos as int + 2],
            buf@[pos as int + 3],
            buf@[pos as int + 4],
            buf@[pos as int + 5],
            buf@[pos as int + 6],
            buf@[pos as int + 7],
        ]);
    }
    Some(n)
}

/// Read a length-prefixed UTF-8 string. Sound: a success returns exactly
/// the consumed bytes' string. Complete: whenever the bytes at `pos` start
/// with the encoding of some string, that string is returned.
pub fn read_str(buf: &[u8], pos: usize) -> (r: Option<(String, usize)>)
    requires
        pos <= buf@.len(),
    ensures
        r matches Some((s, p2)) ==> pos <= p2 <= buf@.len() && buf@.subrange(
            pos as int,
            p2 as int,
        ) == spec_str_bytes(s@),
        forall|v: Seq<char>|
            is_prefix(#[trigger] spec_str_bytes(v), buf@.skip(pos as int)) ==> (r matches Some(
                (s, p2),
            ) && s@ == v && p2 == pos + spec_str_bytes(v).len()),
{
    let len64 = match read_u64_be(buf, pos) {
        Some(n) => n,
        None => {
            proof {
                assert forall|v: Seq<char>|
                    !is_prefix(#[trigger] spec_str_bytes(v), buf@.skip(pos as int)) by {
                    assert(spec_str_bytes(v).len() >= 8);
                }
            }
            return None;
        },
    };
    let rest = buf.len() - pos - 8;
    if len64 > rest as u64 {
        proof {
            assert forall|v: Seq<char>|
                !is_prefix(#[trigger] spec_str_bytes(v), buf@.skip(pos as int)) by {
                if is_prefix(spec_str_bytes(v), buf@.skip(pos as int)) {
                    let e = encode_utf8(v);
                    lemma_prefix_split(spec_u64_be(e.len() as u64), e, buf@.skip(pos as int));
                    assert(buf@.skip(pos as int).subrange(0, 8) =~= buf@.subrange(
                        pos as int,
                        pos as int + 8,
                    ));
                    lemma_u64_be_roundtrip(len64);
                    lemma_u64_be_roundtrip(e.len() as u64);
                }
            }
        }
        return None;
    }
    let len = len64 as usize;
    let bytes = vstd::slice::slice_subrange(buf, pos + 8, pos + 8 + len);
    let s = match utf8_to_string(bytes) {
        Some(s) => s,
        None => {
            proof {
                assert forall|v: Seq<char>|
                    !is_prefix(#[trigger] spec_str_bytes(v), buf@.skip(pos as int)) by {
                    if is_prefix(spec_str_bytes(v), buf@.skip(pos as int)) {
                        let e = encode_utf8(v);
                        lemma_prefix_split(spec_u64_be(e.len() as u64), e, buf@.skip(pos as int));
                        assert(buf@.skip(pos as int).subrange(0, 8) =~= buf@.subrange(
                            pos as int,
                            pos as int + 8,
                        ));
                        lemma_u64_be_roundtrip(len64);
                        lemma_u64_be_roundtrip(e.len() as u64);
                        assert(e.len() == len);
                        assert(buf@.skip(pos as int).skip(8).subrange(0, len as int) =~= bytes@);
                        assert(bytes@ == e);
                        encode_utf8_valid_utf8(v);
                    }
                }
            }
            return None;
        },
    };
    proof {
        decode_utf8_encode_utf8(bytes@);
        assert(buf@.subrange(pos as int, pos as int + 8 + len) =~= buf@.subrange(
            pos as int,
            pos as int + 8,
        ) + bytes@);
        assert forall|v: Seq<char>|
            is_prefix(#[trigger] spec_str_bytes(v), buf@.skip(pos as int)) implies (s@ == v && pos
            + 8 + len == pos + spec_str_bytes(v).len()) by {
            let e = encode_utf8(v);
            lemma_prefix_split(spec_u64_be(e.len() as u64), e, buf@.skip(pos as int));
            assert(buf@.skip(pos as int).subrange(0, 8) =~= buf@.subrange(
                pos as int,
                pos as int + 8,
            ));
            lemma_u64_be_roundtrip(len64);
            lemma_u64_be_roundtrip(e.len() as u64);
            assert(e.len() == len);
            assert(buf@.skip(pos as int).skip(8).subrange(0, len as int) =~= bytes@);
            assert(bytes@ == e);
            encode_utf8_decode_utf8(v);
        }
    }
    Some((s, pos + 8 + len))
}

/// Read an optional string: a presence byte, then the string if present.
pub fn read_opt_str(buf: &[u8], pos: usize) -> (r: Option<(Option<String>, usize)>)
    requires
        pos <= buf@.len(),
    ensures
        r matches Some((s, p2)) ==> pos <= p2 <= buf@.len() && buf@.subrange(
            pos as int,
            p2 as int,
        ) == spec_opt_str_bytes(spec_opt_view(s)),
        forall|v: Option<Seq<char>>|
            is_prefix(#[trigger] spec_opt_str_bytes(v), buf@.skip(pos as int)) ==> (r matches Some(
                (s, p2),
            ) && spec_opt_view(s) == v && p2 == pos + spec_opt_str_bytes(v).len()),
{
    if pos >= buf.len() {
        return None;
    }
    let tag = buf[pos];
    proof {
        assert(buf@.skip(pos as int)[0] == buf@[pos as int]);
        assert forall|v: Option<Seq<char>>|
            is_prefix(#[trigger] spec_opt_str_bytes(v), buf@.skip(pos as int)) implies buf@[
        pos as int] == spec_opt_str_bytes(v)[0] by {
            let p = spec_opt_str_bytes(v);
            assert(buf@.skip(pos as int).subrange(0, p.len() as int)[0] == buf@.skip(
                pos as int,
            )[0]);
        }
    }
    if tag == 0 {
        proof {
            assert(buf@.subrange(pos as int, pos as int + 1) =~= seq![0u8]);
            assert forall|v: Option<Seq<char>>|
                is_prefix(#[trigger] spec_opt_str_bytes(v), buf@.skip(pos as int)) implies v
                is None by {
                if v is Some {
                    assert(spec_opt_str_bytes(v)[0] == 1u8);
                }
            }
        }
        return Some((None, pos + 1));
    }
    if tag != 1 {
        proof {
            assert forall|v: Option<Seq<char>>|
                !is_prefix(#[trigger] spec_opt_str_bytes(v), buf@.skip(pos as int)) by {
                if is_prefix(spec_opt_str_bytes(v), buf@.skip(pos as int)) {
                    match v {
                        Option::None => {
                            assert(spec_opt_str_bytes(v)[0] == 0u8);
                        },
                        Option::Some(_) => {
                            assert(spec_opt_str_bytes(v)[0] == 1u8);
                        },
                    }
                }
            }
        }
        return None;
    }
    match read_str(buf, pos + 1) {
        Some((s, p2)) => {
            proof {
                assert(buf@.subrange(pos as int, p2 as int) =~= seq![1u8] + buf@.subrange(
                    pos as int + 1,
                    p2 as int,
                ));
                assert forall|v: Option<Seq<char>>|
                    is_prefix(#[trigger] spec_opt_str_bytes(v), buf@.skip(pos as int)) implies (
                spec_opt_view(Some(s)) == v && p2 == pos + spec_opt_str_bytes(v).len()) by {
                    match v {
                        Option::None => {
                            assert(buf@.skip(pos as int)[0] == 0u8);
                        },
                        Option::Some(t) => {
                            lemma_prefix_split(
                                seq![1u8],
                                spec_str_bytes(t),
                                buf@.skip(pos as int),
                            );
                            lemma_skip_skip(buf@, pos as int, 1);
                        },
                    }
                }
            }
            Some((Some(s), p2))
        },
        None => {
            proof {
                assert forall|v: Option<Seq<char>>|
                    !is_prefix(#[trigger] spec_opt_str_bytes(v), buf@.skip(pos as int)) by {
                    if is_prefix(spec_opt_str_bytes(v), buf@.skip(pos as int)) {
                        match v {
                            Option::None => {
                                assert(buf@.skip(pos as int)[0] == 0u8);
                            },
                            Option::Some(t) => {
                                lemma_prefix_split(
                                    seq![1u8],
                                    spec_str_bytes(t),
                                    buf@.skip(pos as int),
                                );
                                lemma_skip_skip(buf@, pos as int, 1);
                            },
                        }
                    }
                }
            }
            None
        },
    }
}

} // verus!
