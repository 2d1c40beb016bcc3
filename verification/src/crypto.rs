//! Trusted boundary to the cryptographic collaborators: the SHA-256 digest,
//! hexadecimal rendering of digests, and ed25519 signature verification.
//! Everything else in the crate is verified against the contracts stated here.

use vstd::prelude::*;
use sha2::Digest;

verus! {

/// What the SHA-256 digest of a byte string is; a deterministic function of
/// the bytes alone, computed by the `sha2` crate.
pub uninterp spec fn spec_sha256_of(b: Seq<u8>) -> Seq<u8>;

/// What ed25519 signature checking decides for a hex public key, a message
/// and a base64 signature; a deterministic function of the three alone.
pub uninterp spec fn spec_ed25519_verifies(
    pk_hex: Seq<char>,
    msg: Seq<u8>,
    sig_b64: Seq<char>,
) -> bool;

/// The lowercase hexadecimal digit for a value below 16.
pub open spec fn spec_hex_digit(n: u8) -> char
    recommends
        n < 16,
{
    if n < 10 {
        ((48 + n) as u8) as char
    } else {
        ((87 + n) as u8) as char
    }
}

/// The lowercase hexadecimal rendering of a byte string: two digits per byte,
/// high nibble first.
pub open spec fn spec_hex_of(b: Seq<u8>) -> Seq<char>
    decreases b.len(),
{
    if b.len() == 0 {
        Seq::<char>::empty()
    } else {
        seq![spec_hex_digit(b[0] / 16), spec_hex_digit(b[0] % 16)] + spec_hex_of(b.drop_first())
    }
}

/// The hex digest string of a byte string: 64 lowercase hex characters.
pub open spec fn spec_sha256_hex_of(b: Seq<u8>) -> Seq<char> {
    spec_hex_of(spec_sha256_of(b))
}

/// Hex rendering is two characters per byte.
pub proof fn lemma_hex_len(b: Seq<u8>)
    ensures
        spec_hex_of(b).len() == 2 * b.len(),
    decreases b.len(),
{
    if b.len() > 0 {
        lemma_hex_len(b.drop_first());
    }
}

/// Relies on sha2::Sha256 (new, update, finalize): a deterministic digest of
/// the input bytes alone, 32 bytes long.
#[verifier::external_body]
fn sha256(bytes: &[u8]) -> (r: Vec<u8>)
    ensures
        r@ == spec_sha256_of(bytes@),
        r@.len() == 32,
{
    let mut hasher = sha2::Sha256::new();
    hasher.update(bytes);
    hasher.finalize().to_vec()
}

/// Relies on hex::encode: two lowercase hex digits per input byte, high
/// nibble first.
#[verifier::external_body]
fn hex_encode(bytes: &[u8]) -> (r: String)
    ensures
        r@ == spec_hex_of(bytes@),
{
    hex::encode(bytes)
}

/// SHA-256 hex digest.
pub fn sha256_hex(bytes: &[u8]) -> (r: String)
    ensures
        r@ == spec_sha256_hex_of(bytes@),
        r@.len() == 64,
{
    let digest = sha256(bytes);
    let r = hex_encode(digest.as_slice());
    proof {
        lemma_hex_len(digest@);
    }
    r
}

/// Relies on hex::decode, ed25519_dalek::VerifyingKey::from_bytes, the
/// STANDARD base64 engine's decode, ed25519_dalek::Signature::from_slice and
/// VerifyingKey::verify_strict: together they decide, as a deterministic
/// function of the three arguments alone, whether `sig_b64` is a valid
/// ed25519 signature by the key `pk_hex` over `msg`; any parse failure
/// counts as not verifying.
#[verifier::external_body]
pub(crate) fn ed25519_verify(pk_hex: &str, msg: &[u8], sig_b64: &str) -> (r: bool)
    ensures
        r == spec_ed25519_verifies(pk_hex@, msg@, sig_b64@),
{
    let Ok(pk_bytes) = hex::decode(pk_hex) else { return false };
    let Ok(pk_arr) = <[u8; 32]>::try_from(pk_bytes) else { return false };
    let Ok(vk) = ed25519_dalek::VerifyingKey::from_bytes(&pk_arr) else { return false };
    let Ok(sig_bytes) = base64::Engine::decode(&base64::engine::general_purpose::STANDARD, sig_b64)
    else { return false };
    let Ok(sig) = ed25519_dalek::Signature::from_slice(&sig_bytes) else { return false };
    vk.verify_strict(msg, &sig).is_ok()
}

} // verus!
