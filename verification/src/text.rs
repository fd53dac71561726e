//! Turning bytes of the source text into strings.

use vstd::prelude::*;
use vstd::utf8::{
    decode_utf8, encode_utf8, encode_utf8_decode_utf8, encode_utf8_valid_utf8,
    is_ascii_chars, is_ascii_chars_encode_utf8, is_char_boundary,
    is_char_boundary_iff_not_is_continuation_byte, pop_first_scalar, valid_utf8,
    valid_utf8_split,
};

verus! {

/// Whether every byte is an ASCII byte.
pub open spec fn is_ascii_bytes(bytes: Seq<u8>) -> bool {
    forall|i: int| 0 <= i < bytes.len() ==> #[trigger] bytes[i] < 128
}

/// The text that ASCII bytes spell: each byte as the character with its code.
pub open spec fn ascii_text(bytes: Seq<u8>) -> Seq<char> {
    Seq::new(bytes.len(), |i: int| bytes[i] as char)
}

/// The characters that a lossy UTF-8 decoding of `bytes` yields.
pub uninterp spec fn lossy_text(bytes: Seq<u8>) -> Seq<char>;

/// The text that `bytes` spell: the characters that they encode where they
/// are valid UTF-8, and their lossy decoding where they are not.
pub open spec fn decoded(bytes: Seq<u8>) -> Seq<char> {
    if valid_utf8(bytes) {
        decode_utf8(bytes)
    } else {
        lossy_text(bytes)
    }
}

/// ASCII bytes are valid UTF-8, and encode the characters with their codes.
pub proof fn lemma_ascii_is_valid(bytes: Seq<u8>)
    requires
        is_ascii_bytes(bytes),
    ensures
        valid_utf8(bytes),
        decode_utf8(bytes) == ascii_text(bytes),
        decoded(bytes) == ascii_text(bytes),
{
    let chars = ascii_text(bytes);
    assert(is_ascii_chars(chars)) by {
        assert forall|i: int| 0 <= i < chars.len() implies '\0' <= #[trigger] chars[i]
            <= '\u{7f}' by {
            assert(bytes[i] < 128);
        }
    }
    is_ascii_chars_encode_utf8(chars);
    assert(encode_utf8(chars) =~= bytes) by {
        assert forall|i: int| 0 <= i < bytes.len() implies encode_utf8(chars)[i] == bytes[i] by {
            assert(chars[i] as u8 == encode_utf8(chars)[i]);
            assert(bytes[i] < 128);
        }
    }
    encode_utf8_valid_utf8(chars);
    encode_utf8_decode_utf8(chars);
}

/// In valid UTF-8, what stands between two ASCII bytes is valid UTF-8.
pub proof fn lemma_between_ascii_is_valid(bytes: Seq<u8>, first: int, second: int)
    requires
        valid_utf8(bytes),
        0 <= first < second < bytes.len(),
        bytes[first] < 128,
        bytes[second] < 128,
    ensures
        valid_utf8(bytes.subrange(first + 1, second)),
{
    is_char_boundary_iff_not_is_continuation_byte(bytes, first);
    valid_utf8_split(bytes, first);
    let from_first = bytes.subrange(first, bytes.len() as int);
    assert(from_first[0] == bytes[first]);
    let after_first = pop_first_scalar(from_first);
    assert(after_first =~= bytes.subrange(first + 1, bytes.len() as int));
    assert(valid_utf8(after_first));
    let at = second - (first + 1);
    assert(after_first[at] == bytes[second]);
    is_char_boundary_iff_not_is_continuation_byte(after_first, at);
    valid_utf8_split(after_first, at);
    assert(after_first.subrange(0, at) =~= bytes.subrange(first + 1, second));
}

/// The bytes `bytes[from..to]` as a string.
///
/// Not verified: the body calls `String::from_utf8_lossy` of the standard
/// library. The contract names the decoded text `lossy_text` of the bytes, and
/// claims of it only that valid UTF-8 is decoded to the characters that it
/// encodes.
#[verifier::external_body]
pub(crate) fn text_of(bytes: &Vec<u8>, from: usize, to: usize) -> (r: String)
    requires
        from <= to <= bytes.len(),
    ensures
        r@ == lossy_text(bytes@.subrange(from as int, to as int)),
        valid_utf8(bytes@.subrange(from as int, to as int)) ==> r@ == decode_utf8(
            bytes@.subrange(from as int, to as int),
        ),
{
    String::from_utf8_lossy(&bytes[from..to]).into_owned()
}

} // verus!
