//! Derivation of the viewing key from caller-supplied key material.

use vstd::prelude::*;
use vstd::utf8::encode_utf8;

verus! {

/// The standard, padded base64 text of a byte sequence.
pub uninterp spec fn base64_of(bytes: Seq<u8>) -> Seq<char>;

/// The SHA-256 digest of a byte sequence.
pub uninterp spec fn sha256_of(bytes: Seq<u8>) -> Seq<u8>;

/// Relies on `base64::encode`: the standard alphabet with padding, which
/// depends on the bytes alone and is empty for empty input.
#[verifier::external_body]
fn base64_encode(bytes: &[u8]) -> (r: String)
    ensures
        r@ == base64_of(bytes@),
        bytes@.len() == 0 ==> r@.len() == 0,
{
    base64::encode(bytes)
}

/// Relies on `secret_toolkit::crypto::sha_256`: the 32-byte SHA-256 digest,
/// which depends on the bytes alone.
#[verifier::external_body]
fn sha_256(bytes: &[u8]) -> (r: Vec<u8>)
    ensures
        r@ == sha256_of(bytes@),
        r@.len() == 32,
{
    secret_toolkit::crypto::sha_256(bytes).to_vec()
}

/// The viewing key derived from key material: the UTF-8 bytes of the
/// material are base64-encoded, the text is hashed with SHA-256, and the
/// digest is base64-encoded again.
pub open spec fn viewing_key_of(material: Seq<char>) -> Seq<char> {
    base64_of(sha256_of(encode_utf8(base64_of(encode_utf8(material)))))
}

/// Derives the viewing key from key material.
pub fn derive_viewing_key(material: &str) -> (r: String)
    ensures
        r@ == viewing_key_of(material@),
{
    let encoded = base64_encode(material.as_bytes());
    let seed = sha_256(encoded.as_str().as_bytes());
    base64_encode(seed.as_slice())
}

/// Derivation is a function of the key material alone: equal material
/// always yields the same viewing key.
pub proof fn lemma_derivation_deterministic(a: Seq<char>, b: Seq<char>)
    requires
        a == b,
    ensures
        viewing_key_of(a) == viewing_key_of(b),
{
}

} // verus!
