//! A stored keypair: the ed25519 secret key (base64) and public key (hex).
//! Key generation, signing and the files themselves live with the callers;
//! the library only fixes the record shape and where it is kept.

use vstd::prelude::*;
use vstd::string::StringExecFns;

verus! {

/// A keypair record as persisted on disk.
#[derive(Clone, Debug)]
pub struct KeyFile {
    /// ed25519 secret key (32 bytes), base64-encoded.
    pub signing_key_b64: String,
    /// ed25519 public key (32 bytes), hex-encoded.
    pub verifying_key_hex: String,
}

impl KeyFile {
    /// The directory keys are stored under.
    pub fn keys_dir() -> (r: String)
        ensures
            r@ == "data/keys"@,
    {
        String::from_str("data/keys")
    }

    /// The path a named key is stored at.
    pub fn path_for(name: &str) -> (r: String)
        ensures
            r@ == "data/keys/"@ + name@ + ".json"@,
    {
        let mut s = String::from_str("data/keys/");
        s.append(name);
        s.append(".json");
        s
    }
}

} // verus!
