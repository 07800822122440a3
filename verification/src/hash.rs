//! Blob file naming.  A blob is stored under the URL-safe base64 of the
//! SHA-256 of its storage key, so that arbitrarily long keys fit filesystem
//! name limits; a legacy path uses the base64 of the key itself.

use vstd::prelude::*;
use vstd::utf8::encode_utf8;

verus! {

pub uninterp spec fn sha256_of(data: Seq<u8>) -> Seq<u8>;

/// Relies on sha2's `Sha256`: a 32-byte digest that depends on the input
/// bytes alone.
#[verifier::external_body]
fn sha256(data: &[u8]) -> (r: Vec<u8>)
    ensures
        r@ == sha256_of(data@),
        r@.len() == 32,
{
    <sha2::Sha256 as sha2::Digest>::digest(data).to_vec()
}

pub uninterp spec fn base64_url_nopad_of(data: Seq<u8>) -> Seq<char>;

/// Relies on base64's `URL_SAFE_NO_PAD` engine: an unpadded URL-safe
/// encoding that depends on the input bytes alone, four characters for
/// every three bytes, rounded up.
#[verifier::external_body]
fn base64_url_nopad(data: &[u8]) -> (r: String)
    ensures
        r@ == base64_url_nopad_of(data@),
        r@.len() == (4 * data@.len() + 2) / 3,
{
    base64::Engine::encode(&base64::engine::general_purpose::URL_SAFE_NO_PAD, data)
}

/// Encodes a storage key for use as a file name.
pub fn encode_key(key: &[u8]) -> (r: String)
    ensures
        r@ == base64_url_nopad_of(key@),
{
    base64_url_nopad(key)
}

/// The file name of a blob under the hashed scheme.
pub open spec fn hashed_file_name(key: Seq<char>) -> Seq<char> {
    base64_url_nopad_of(sha256_of(encode_utf8(key)))
}

/// The file name of a blob under the legacy scheme: the encoded key itself.
pub open spec fn legacy_file_name(key: Seq<char>) -> Seq<char> {
    base64_url_nopad_of(encode_utf8(key))
}

/// Computes the hashed file name of a storage key: forty-three characters
/// whatever the key's length, which is what lets arbitrarily long keys fit
/// filesystem name limits.
pub fn media_file_name(key: &str) -> (r: String)
    ensures
        r@ == hashed_file_name(key@),
        r@.len() == 43,
{
    let digest = sha256(key.as_bytes());
    base64_url_nopad(digest.as_slice())
}

/// Computes the legacy file name of a storage key.
pub fn media_file_name_legacy(key: &str) -> (r: String)
    ensures
        r@ == legacy_file_name(key@),
{
    base64_url_nopad(key.as_bytes())
}

} // verus!
