//! The hash primitive: SHA-256, rendered as lowercase hexadecimal text.

use crypto::digest::Digest;
use crypto::sha2::Sha256;
use vstd::prelude::*;

verus! {

/// Number of characters in every digest: 32 bytes, two hex digits each.
pub const DIGEST_LEN: usize = 64;

/// Longest text, in characters, that may be hashed. The hasher counts the
/// input's bits in a `u64`, and a character takes at most four bytes in UTF-8.
pub const MAX_TEXT_LEN: u64 = 0x0800_0000_0000_0000;

/// The lowercase hexadecimal SHA-256 digest of the UTF-8 encoding of `s`.
pub uninterp spec fn sha256_hex(s: Seq<char>) -> Seq<char>;

/// Relies on `crypto::sha2::Sha256` through `Digest::input_str` and
/// `Digest::result_str`: the digest depends on the text alone, and
/// `result_str` writes its 32 bytes as 64 hex digits. The hasher panics only
/// when the input's bit count overflows a `u64`, which the bound rules out.
#[verifier::external_body]
pub(crate) fn sha256_hex_of(s: &str) -> (r: String)
    requires
        s@.len() < MAX_TEXT_LEN as int,
    ensures
        r@ == sha256_hex(s@),
        r@.len() == DIGEST_LEN,
{
    let mut sha = Sha256::new();
    sha.input_str(s);
    sha.result_str()
}

} // verus!
