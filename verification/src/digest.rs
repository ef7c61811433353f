//! The integrity digest of a file's contents: SHA-1, written as lowercase hexadecimal.

use crypto::digest::Digest;
use crypto::sha1::Sha1;
use vstd::prelude::*;

verus! {

/// Number of characters of a digest.
pub const DIGEST_CHARS: usize = 40;

/// Contents of this length or more are beyond what the hasher's bit counter can hold.
pub const DIGEST_INPUT_LIMIT: u64 = 0x2000_0000_0000_0000;

/// The SHA-1 digest of `contents` in hexadecimal, as the `crypto` crate computes it.
pub uninterp spec fn sha1_hex(contents: Seq<u8>) -> Seq<char>;

/// One of `0`-`9`, `a`-`f`.
pub open spec fn is_hex_char(c: char) -> bool {
    ('0' <= c && c <= '9') || ('a' <= c && c <= 'f')
}

/// The shape of every digest: forty lowercase hexadecimal characters.
pub open spec fn is_digest_text(text: Seq<char>) -> bool {
    &&& text.len() == DIGEST_CHARS
    &&& forall|i: int| 0 <= i < text.len() ==> is_hex_char(#[trigger] text[i])
}

/// Runs `crypto::sha1::Sha1` over `contents` (`Sha1::new`, `Digest::input`,
/// `Digest::result_str`). Trusted: the result is the digest named `sha1_hex`, a
/// function of the contents alone, and `result_str` renders the twenty output bytes
/// as two lowercase hexadecimal characters each. `input` panics once the bit count
/// leaves 64 bits, so longer contents are excluded.
#[verifier::external_body]
pub(crate) fn hash_contents(contents: &Vec<u8>) -> (r: String)
    requires
        contents@.len() < DIGEST_INPUT_LIMIT,
    ensures
        r@ == sha1_hex(contents@),
        is_digest_text(r@),
{
    let mut hasher = Sha1::new();
    hasher.input(contents);
    hasher.result_str()
}

/// The integrity digest of `contents`.
pub fn digest(contents: &Vec<u8>) -> (r: String)
    requires
        contents@.len() < DIGEST_INPUT_LIMIT,
    ensures
        r@ == sha1_hex(contents@),
        is_digest_text(r@),
{
    hash_contents(contents)
}

} // verus!
