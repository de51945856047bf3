//! Digests of downloaded archives and their hexadecimal form.

use vstd::prelude::*;

use crate::text::{chars_of, lower_seq, same_chars, to_lower};

verus! {

/// The SHA-256 digest of `data`, as the `sha2` crate computes it.
pub uninterp spec fn sha256_of(data: Seq<u8>) -> Seq<u8>;

/// The character that writes the hexadecimal digit `n`, in lower case.
pub open spec fn hex_digit(n: int) -> char {
    if n < 10 {
        (('0' as u8) + n) as char
    } else {
        (('a' as u8) + (n - 10)) as char
    }
}

/// `data` in hexadecimal: two lower-case digits for each byte, the high half first.
pub open spec fn hex_of(data: Seq<u8>) -> Seq<char> {
    Seq::new(
        2 * data.len(),
        |i: int|
            if i % 2 == 0 {
                hex_digit(data[i / 2] as int / 16)
            } else {
                hex_digit(data[i / 2] as int % 16)
            },
    )
}

/// Whether a digest in hexadecimal is the published checksum, whatever the letter case
/// of either.
pub open spec fn same_checksum(digest_hex: Seq<char>, expected: Seq<char>) -> bool {
    lower_seq(digest_hex) == lower_seq(expected)
}

/// Whether `data` has the published checksum `expected`.
pub open spec fn checksum_matches(data: Seq<u8>, expected: Seq<char>) -> bool {
    same_checksum(hex_of(sha256_of(data)), expected)
}

/// Computes the digest of `data` with `sha2::Sha256` through `Digest::digest`. The
/// contract names the result, and claims the length that the type of the hasher fixes:
/// 32 bytes.
#[verifier::external_body]
pub(crate) fn sha256(data: &[u8]) -> (digest: Vec<u8>)
    ensures
        digest@ == sha256_of(data@),
        digest@.len() == 32,
{
    <sha2::Sha256 as sha2::Digest>::digest(data).to_vec()
}

/// Writes `data` in hexadecimal with `hex::encode`: for each byte two lower-case
/// digits, the high half first.
#[verifier::external_body]
pub(crate) fn hex_encode(data: &[u8]) -> (r: String)
    ensures
        r@ == hex_of(data@),
{
    hex::encode(data)
}

/// Whether a digest in hexadecimal is the published checksum, whatever the letter case
/// of either.
pub fn digest_matches(digest_hex: &str, expected: &str) -> (r: bool)
    ensures
        r == same_checksum(digest_hex@, expected@),
{
    let a = to_lower(&chars_of(digest_hex));
    let b = to_lower(&chars_of(expected));
    same_chars(&a, &b)
}

/// The SHA-256 digest of `data` in hexadecimal.
pub fn sha256_hex(data: &[u8]) -> (r: String)
    ensures
        r@ == hex_of(sha256_of(data@)),
        r@.len() == 64,
{
    let digest = sha256(data);
    hex_encode(digest.as_slice())
}

} // verus!
