//! SHA-256 digests.
use sha2::Digest;
use vstd::prelude::*;
use vstd::string::*;

verus! {

/// The SHA-256 digest of some bytes, in lower-case hexadecimal.
pub uninterp spec fn sha256_hex(bytes: Seq<u8>) -> Seq<char>;

/// The digest that `sha2::Sha256` computes, written by `format!` in lower-case
/// hexadecimal: two digits for each of its 32 bytes. It depends on the bytes
/// alone.
#[verifier::external_body]
pub(crate) fn hex_digest(bytes: &[u8]) -> (r: String)
    ensures
        r@ == sha256_hex(bytes@),
        r@.len() == 64,
{
    let mut hasher = sha2::Sha256::new();
    hasher.update(bytes);
    format!("{:x}", hasher.finalize())
}

/// The stored hash of a prompt: the first 16 digits of its digest.
pub open spec fn prompt_digest(prompt: Seq<char>) -> Seq<char> {
    sha256_hex(vstd::utf8::encode_utf8(prompt)).take(16)
}

/// The stored hash of a prompt.
pub fn prompt_hash(prompt: &str) -> (r: String)
    ensures
        r@ == prompt_digest(prompt@),
        r@.len() == 16,
{
    let hex = hex_digest(prompt.as_bytes());
    hex.as_str().substring_char(0, 16).to_owned()
}

} // verus!
