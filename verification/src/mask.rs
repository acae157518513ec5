//! Masking of access keys for the log.

use vstd::prelude::*;
use vstd::string::*;
use vstd::utf8::*;

verus! {

/// Whether the cuts that masking makes in `key` fall between characters.
pub open spec fn maskable(key: Seq<char>) -> bool {
    let bytes = encode_utf8(key);
    if bytes.len() <= 4 {
        true
    } else if bytes.len() <= 12 {
        is_char_boundary(bytes, 4)
    } else {
        is_char_boundary(bytes, 6) && is_char_boundary(bytes, bytes.len() - 4)
    }
}

/// What the log shows of `key`: up to 12 bytes, the first 4; of a longer key the first 6 and the
/// last 4.
pub open spec fn masked(key: Seq<char>) -> Seq<char> {
    let bytes = encode_utf8(key);
    let len = bytes.len() as int;
    if key.len() == 0 {
        "(empty)"@
    } else if len <= 4 {
        key + "***"@
    } else if len <= 12 {
        decode_utf8(bytes.subrange(0, 4)) + "***"@
    } else {
        decode_utf8(bytes.subrange(0, 6)) + "****"@ + decode_utf8(bytes.subrange(len - 4, len))
    }
}

/// Masks an access key.
pub fn mask_key(key: &str) -> (r: String)
    requires
        maskable(key@),
    ensures
        r@ == masked(key@),
{
    if key.is_empty() {
        return "(empty)".to_owned();
    }
    let len: usize = key.as_bytes().len();
    proof {
        encode_utf8_valid_utf8(key@);
    }
    if len <= 4 {
        let mut r = key.to_owned();
        r.append("***");
        r
    } else if len <= 12 {
        let (head, _) = key.split_at(4);
        proof {
            encode_utf8_decode_utf8(head@);
        }
        let mut r = head.to_owned();
        r.append("***");
        r
    } else {
        let (head, _) = key.split_at(6);
        let (_, tail) = key.split_at(len - 4);
        proof {
            encode_utf8_decode_utf8(head@);
            encode_utf8_decode_utf8(tail@);
        }
        let mut r = head.to_owned();
        r.append("****");
        r.append(tail);
        r
    }
}

/// The UTF-8 form of ASCII text, cut between two of its characters.
proof fn lemma_ascii_cut(key: Seq<char>, i: int)
    requires
        is_ascii_chars(key),
        0 <= i <= key.len(),
    ensures
        encode_utf8(key).len() == key.len(),
        is_char_boundary(encode_utf8(key), i),
        decode_utf8(encode_utf8(key).subrange(0, i)) == key.take(i),
        decode_utf8(encode_utf8(key).subrange(i, key.len() as int)) == key.skip(i),
{
    is_ascii_chars_encode_utf8(key);
    is_ascii_chars_encode_utf8(key.take(i));
    is_ascii_chars_encode_utf8(key.skip(i));
    is_ascii_chars_nat_bound(key);
    let bytes = encode_utf8(key);
    encode_utf8_valid_utf8(key);
    if i < key.len() {
        let byte = bytes[i];
        assert(byte < 0x80);
        assert(byte < 0x80u8 ==> !is_continuation_byte(byte)) by {
            assert(byte < 0x80u8 ==> byte & 0xC0 != 0x80) by (bit_vector);
        }
        is_char_boundary_iff_not_is_continuation_byte(bytes, i);
    } else {
        is_char_boundary_start_end_of_seq(bytes);
    }
    assert(bytes.subrange(0, i) =~= encode_utf8(key.take(i)));
    assert(bytes.subrange(i, key.len() as int) =~= encode_utf8(key.skip(i)));
    encode_utf8_decode_utf8(key.take(i));
    encode_utf8_decode_utf8(key.skip(i));
}

/// A key of ASCII characters can always be masked: up to 12 characters the first 4 are shown, of a
/// longer key the first 6 and the last 4.
pub proof fn law_ascii_key_is_masked(key: Seq<char>)
    requires
        is_ascii_chars(key),
    ensures
        maskable(key),
        key.len() > 12 ==> masked(key) == key.take(6) + "****"@ + key.skip(key.len() - 4),
        4 < key.len() <= 12 ==> masked(key) == key.take(4) + "***"@,
        0 < key.len() <= 4 ==> masked(key) == key + "***"@,
{
    lemma_ascii_cut(key, 0);
    if key.len() > 12 {
        lemma_ascii_cut(key, 6);
        lemma_ascii_cut(key, key.len() - 4);
    } else if key.len() > 4 {
        lemma_ascii_cut(key, 4);
    }
}

} // verus!
