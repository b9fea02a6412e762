//! Content addresses.

use crate::text::is_hex_digit;
use sha2::{Digest, Sha256};
use vstd::prelude::*;

verus! {

/// The SHA-256 digest of some bytes, in lowercase hexadecimal.
pub uninterp spec fn sha256_hex(bytes: Seq<u8>) -> Seq<char>;

pub open spec fn is_sha256_hex(text: Seq<char>) -> bool {
    text.len() == 64 && forall|i: int| 0 <= i < text.len() ==> is_hex_digit(#[trigger] text[i])
}

/// `sha2::Sha256::digest`, written by the digest's `LowerHex`: a function of the bytes alone, whose
/// thirty-two bytes become sixty-four lowercase hexadecimal digits.
#[verifier::external_body]
pub(crate) fn sha256_hex_text(bytes: &[u8]) -> (text: String)
    ensures
        text@ == sha256_hex(bytes@),
        is_sha256_hex(text@),
{
    format!("{:x}", Sha256::digest(bytes))
}

} // verus!
