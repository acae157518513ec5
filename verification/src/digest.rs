//! 64-bit fingerprints of text.

use vstd::prelude::*;
use vstd::string::*;
use vstd::utf8::*;

verus! {

/// The BLAKE3 hash of a byte string.
pub uninterp spec fn blake3_of(bytes: Seq<u8>) -> Seq<u8>;

/// The number that the first 8 bytes spell, the least significant byte first.
pub open spec fn le_number(bytes: Seq<u8>) -> u64 {
    (bytes[0] + bytes[1] * 0x100 + bytes[2] * 0x1_0000 + bytes[3] * 0x100_0000 + bytes[4]
        * 0x1_0000_0000 + bytes[5] * 0x100_0000_0000 + bytes[6] * 0x1_0000_0000_0000 + bytes[7]
        * 0x100_0000_0000_0000) as u64
}

/// The fingerprint of a text: the first 64 bits of the BLAKE3 hash of its UTF-8 form.
pub open spec fn fingerprint_of(text: Seq<char>) -> u64 {
    le_number(blake3_of(encode_utf8(text)))
}

/// Calls `blake3::hash` and hands out the 32 bytes of the hash.
#[verifier::external_body]
fn blake3_bytes(bytes: &[u8]) -> (r: [u8; 32])
    ensures
        r@ == blake3_of(bytes@),
{
    *blake3::hash(bytes).as_bytes()
}

/// The number that the first 8 bytes spell, the least significant byte first.
pub fn leading_number(bytes: &[u8; 32]) -> (r: u64)
    ensures
        r == le_number(bytes@),
{
    bytes[0] as u64 + bytes[1] as u64 * 0x100 + bytes[2] as u64 * 0x1_0000 + bytes[3] as u64
        * 0x100_0000 + bytes[4] as u64 * 0x1_0000_0000 + bytes[5] as u64 * 0x100_0000_0000
        + bytes[6] as u64 * 0x1_0000_0000_0000 + bytes[7] as u64 * 0x100_0000_0000_0000
}

/// The fingerprint of a text.
pub fn fingerprint(text: &str) -> (r: u64)
    ensures
        r == fingerprint_of(text@),
{
    let hash = blake3_bytes(text.as_bytes());
    leading_number(&hash)
}

} // verus!
