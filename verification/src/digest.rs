//! Hashes and their texts.

use sha2::Digest;
use vstd::prelude::*;

use crate::text::{chars_of, string_of};

verus! {

/// The SHA-256 hash of bytes.
pub uninterp spec fn sha256(bytes: Seq<u8>) -> Seq<u8>;

/// `sha2`'s `Sha256::digest`: the hash is a function of the bytes, and has 32
/// of its own.
#[verifier::external_body]
pub(crate) fn sha256_digest(bytes: &[u8]) -> (r: Vec<u8>)
    ensures
        r@ == sha256(bytes@),
        r@.len() == 32,
{
    sha2::Sha256::digest(bytes).to_vec()
}

/// The hexadecimal digit of a number below sixteen, in lower case.
pub open spec fn hex_digit(n: int) -> char {
    if n < 10 {
        ('0' as int + n) as char
    } else {
        ('a' as int + n - 10) as char
    }
}

/// Bytes as two hexadecimal digits each.
pub open spec fn hex_text(bytes: Seq<u8>) -> Seq<char> {
    Seq::new(
        2 * bytes.len(),
        |i: int| hex_digit(if i % 2 == 0 { bytes[i / 2] as int / 16 } else { bytes[i / 2] as int % 16 }),
    )
}

/// `hex`'s `encode`: two digits for each byte, the high one first, in lower
/// case.
#[verifier::external_body]
fn hex_encode(bytes: &[u8]) -> (r: String)
    requires
        2 * bytes@.len() <= isize::MAX,
    ensures
        r@ == hex_text(bytes@),
{
    hex::encode(bytes)
}

/// The hash of bytes in hexadecimal.
pub open spec fn sha256_text(bytes: Seq<u8>) -> Seq<char> {
    hex_text(sha256(bytes))
}

/// The hash of bytes in hexadecimal, 64 digits.
pub fn sha256_hex(bytes: &[u8]) -> (r: String)
    ensures
        r@ == sha256_text(bytes@),
        is_sha256_text(r@),
{
    let digest = sha256_digest(bytes);
    let text = hex_encode(digest.as_slice());
    proof {
        lemma_hex_digits(digest@);
    }
    text
}

pub open spec fn is_hex_digit(c: char) -> bool {
    ('0' <= c && c <= '9') || ('a' <= c && c <= 'f') || ('A' <= c && c <= 'F')
}

/// Whether a text can be a hash in hexadecimal.
pub open spec fn is_sha256_text(s: Seq<char>) -> bool {
    s.len() == 64 && forall|i: int| 0 <= i < s.len() ==> is_hex_digit(#[trigger] s[i])
}

/// What is written in hexadecimal holds hexadecimal digits alone, two for
/// each byte.
pub proof fn lemma_hex_digits(bytes: Seq<u8>)
    ensures
        hex_text(bytes).len() == 2 * bytes.len(),
        forall|i: int| 0 <= i < hex_text(bytes).len() ==> is_hex_digit(#[trigger] hex_text(bytes)[i]),
{
}

/// The first twelve characters of a hash.
pub open spec fn shortened(value: Seq<char>) -> Seq<char> {
    if value.len() <= 12 {
        value
    } else {
        value.take(12)
    }
}

/// The first twelve characters of a hash.
pub fn short_hash(value: &str) -> (r: String)
    ensures
        r@ == shortened(value@),
{
    let chars = chars_of(value);
    if chars.len() <= 12 {
        value.to_owned()
    } else {
        string_of(vstd::slice::slice_subrange(chars.as_slice(), 0, 12))
    }
}

} // verus!
