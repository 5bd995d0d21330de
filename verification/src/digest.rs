//! SHA-256 digests, as the lowercase hexadecimal text the cache layouts use.
use vstd::prelude::*;
use vstd::string::StringSliceAdditionalSpecFns;

verus! {

/// The SHA-256 digest of bytes `b`, in lowercase hexadecimal.
pub uninterp spec fn sha256_hex_bytes(b: Seq<u8>) -> Seq<char>;

/// `Sha256::digest` of the bytes, formatted with `{:x}`: the digest is
/// named as a function of the bytes, and is 64 lowercase hexadecimal digits
/// (two for each of its 32 bytes).
#[verifier::external_body]
pub(crate) fn sha256_hex_of_bytes(b: &[u8]) -> (r: String)
    ensures
        r@ == sha256_hex_bytes(b@),
        r@.len() == 64,
{
    format!("{:x}", <sha2::Sha256 as sha2::Digest>::digest(b))
}

/// The SHA-256 digest of the UTF-8 bytes of `s`, in lowercase hexadecimal.
pub open spec fn sha256_hex(s: Seq<char>) -> Seq<char> {
    sha256_hex_bytes(vstd::utf8::encode_utf8(s))
}

/// The digest of the UTF-8 bytes of a text.
pub fn sha256_hex_of(s: &str) -> (r: String)
    ensures
        r@ == sha256_hex(s@),
        r@.len() == 64,
{
    let b = s.as_bytes();
    assert(b@ == s.spec_bytes());
    sha256_hex_of_bytes(b)
}

} // verus!
