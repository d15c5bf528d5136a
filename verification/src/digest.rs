//! SHA-256 digests and their hexadecimal rendering.

use sha2::Digest;
use sha2::Sha256;
use vstd::prelude::*;
use vstd::utf8::encode_utf8;

verus! {

/// A 32-byte hash (SHA-256).
pub type Sha256Hash = [u8; 32];

/// The SHA-256 digest of a byte string.
pub uninterp spec fn sha256(data: Seq<u8>) -> Seq<u8>;

/// The lower-case hexadecimal digit for a value below sixteen.
pub open spec fn hex_digit(n: int) -> char
    recommends
        0 <= n < 16,
{
    if n < 10 {
        (('0' as int) + n) as char
    } else {
        (('a' as int) + n - 10) as char
    }
}

/// Two lower-case hexadecimal digits per byte, high nibble first.
pub open spec fn hex_string(bytes: Seq<u8>) -> Seq<char> {
    Seq::new(
        2 * bytes.len(),
        |i: int|
            if i % 2 == 0 {
                hex_digit(bytes[i / 2] as int / 16)
            } else {
                hex_digit(bytes[i / 2] as int % 16)
            },
    )
}

/// The value of a hexadecimal digit given as an ASCII byte, in either
/// case; `None` for any other byte.
pub open spec fn hex_value(c: u8) -> Option<u8> {
    if 0x30 <= c <= 0x39 {
        Some((c - 0x30) as u8)
    } else if 0x61 <= c <= 0x66 {
        Some((c - 0x61 + 10) as u8)
    } else if 0x41 <= c <= 0x46 {
        Some((c - 0x41 + 10) as u8)
    } else {
        None
    }
}

/// The bytes that a hexadecimal text spells, two digits for each byte, the
/// high four bits first; `None` for a text of odd length or with a byte
/// that is no hexadecimal digit.
pub open spec fn hex_decoded(text: Seq<u8>) -> Option<Seq<u8>>
    decreases text.len(),
{
    if text.len() == 0 {
        Some(Seq::empty())
    } else if text.len() == 1 {
        None
    } else {
        match (
            hex_decoded(text.subrange(0, text.len() - 2)),
            hex_value(text[text.len() - 2]),
            hex_value(text[text.len() - 1]),
        ) {
            (Some(bytes), Some(high), Some(low)) => Some(bytes.push((high * 16 + low) as u8)),
            _ => None,
        }
    }
}

/// The bytes of an optional byte vector.
pub open spec fn decoded_view(o: Option<Vec<u8>>) -> Option<Seq<u8>> {
    match o {
        Some(v) => Some(v@),
        None => None,
    }
}

/// Hashes `data` with `sha2::Sha256::digest`: the result is the SHA-256
/// digest of exactly these bytes, which depends on nothing else.
#[verifier::external_body]
pub(crate) fn sha256_digest(data: &[u8]) -> (h: Sha256Hash)
    ensures
        h@ == sha256(data@),
{
    Sha256::digest(data).into()
}

/// Renders bytes with `hex::encode`, which writes each byte as two digits
/// taken from `0123456789abcdef`, the high four bits first.
#[verifier::external_body]
pub(crate) fn hex_encode(bytes: &[u8]) -> (s: String)
    ensures
        s@ == hex_string(bytes@),
{
    hex::encode(bytes)
}

/// Reads hexadecimal text with `hex::decode`, which takes digits of either
/// case and refuses a text of odd length or with any other character.
#[verifier::external_body]
pub(crate) fn hex_decode(text: &str) -> (r: Option<Vec<u8>>)
    ensures
        decoded_view(r) == hex_decoded(encode_utf8(text@)),
{
    hex::decode(text).ok()
}

} // verus!
