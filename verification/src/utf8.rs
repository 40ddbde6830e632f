//! Newlines in the bytes of a text.
//!
//! In UTF-8 the byte `0x0A` stands for a newline wherever it occurs: no other character has
//! it among its bytes. So a text can be cut into lines on its bytes, without decoding it.

use crate::lines::{after_first_line, first_line, has_newline, lemma_first_newline_at};
use vstd::prelude::*;
use vstd::utf8::*;

verus! {

/// The byte that encodes a newline.
pub const NEWLINE: u8 = 0x0A;

/// A text has at most as many characters as bytes.
pub proof fn lemma_chars_at_most_bytes(text: Seq<char>)
    ensures
        text.len() <= encode_utf8(text).len(),
    decreases text.len(),
{
    if text.len() > 0 {
        lemma_chars_at_most_bytes(text.drop_first());
    }
}

/// A character that does not begin with the newline byte is no newline.
proof fn lemma_first_scalar_is_no_newline(bytes: Seq<u8>)
    requires
        valid_utf8(bytes),
        bytes.len() > 0,
        bytes[0] != NEWLINE,
    ensures
        decode_first_scalar(bytes) as char != '\n',
{
    let b = bytes[0];
    if is_leading_byte_width_1(b) {
        assert((b & 0x7F) as u32 != 0x0A && (b & 0x7F) as u32 <= 0x7F) by (bit_vector)
            requires
                b <= 0x7f,
                b != 0x0A,
        ;
    } else if is_leading_byte_width_2(b) {
        let c = bytes[1];
        assert((((b & 0x1F) as u32) << 6) | ((c & 0x3F) as u32) <= 0x7FF) by (bit_vector);
    } else if is_leading_byte_width_3(b) {
        let c = bytes[1];
        let d = bytes[2];
        assert((((b & 0x0F) as u32) << 12) | (((c & 0x3F) as u32) << 6) | ((d & 0x3F) as u32)
            <= 0xFFFF) by (bit_vector);
    }
}

/// A newline is one byte, the newline byte.
proof fn lemma_newline_byte_is_newline(bytes: Seq<u8>)
    requires
        bytes.len() > 0,
        bytes[0] == NEWLINE,
    ensures
        valid_first_scalar(bytes),
        length_of_first_scalar(bytes) == 1,
        decode_first_scalar(bytes) as char == '\n',
{
    let b = bytes[0];
    assert((b & 0x7F) as u32 == 0x0A) by (bit_vector)
        requires
            b == 0x0A,
    ;
}

/// Bytes without the newline byte decode to a text without newline.
pub proof fn lemma_decode_without_newline(bytes: Seq<u8>)
    requires
        valid_utf8(bytes),
        forall|j: int| 0 <= j < bytes.len() ==> #[trigger] bytes[j] != NEWLINE,
    ensures
        forall|k: int|
            0 <= k < decode_utf8(bytes).len() ==> #[trigger] decode_utf8(bytes)[k] != '\n',
    decreases bytes.len(),
{
    if bytes.len() > 0 {
        let rest = pop_first_scalar(bytes);
        let width = length_of_first_scalar(bytes);
        assert forall|j: int| 0 <= j < rest.len() implies #[trigger] rest[j] != NEWLINE by {
            assert(rest[j] == bytes[j + width]);
        }
        lemma_decode_without_newline(rest);
        lemma_first_scalar_is_no_newline(bytes);
        let first = decode_first_scalar(bytes) as char;
        assert(decode_utf8(bytes) == seq![first] + decode_utf8(rest));
        assert forall|k: int| 0 <= k < decode_utf8(bytes).len() implies #[trigger] decode_utf8(
            bytes,
        )[k] != '\n' by {
            if k > 0 {
                assert(decode_utf8(bytes)[k] == decode_utf8(rest)[k - 1]);
            }
        }
    }
}

/// A text whose bytes are without the newline byte holds no newline.
pub proof fn lemma_no_newline_byte(text: Seq<char>)
    requires
        forall|j: int|
            0 <= j < encode_utf8(text).len() ==> #[trigger] encode_utf8(text)[j] != NEWLINE,
    ensures
        !has_newline(text),
{
    let bytes = encode_utf8(text);
    encode_utf8_valid_utf8(text);
    encode_utf8_decode_utf8(text);
    lemma_decode_without_newline(bytes);
    lemma_first_newline_at(text, text.len() as int);
}

/// Behind the first newline byte is where the first line ends: the bytes up to and with it
/// are the first line, those after it are the rest, and both are texts of their own.
pub proof fn lemma_first_newline_byte(text: Seq<char>, at: int)
    requires
        0 <= at < encode_utf8(text).len(),
        encode_utf8(text)[at] == NEWLINE,
        forall|j: int| 0 <= j < at ==> #[trigger] encode_utf8(text)[j] != NEWLINE,
    ensures
        has_newline(text),
        is_char_boundary(encode_utf8(text), at + 1),
        encode_utf8(text).subrange(0, at + 1) == encode_utf8(first_line(text)),
        encode_utf8(text).subrange(at + 1, encode_utf8(text).len() as int) == encode_utf8(
            after_first_line(text),
        ),
{
    let bytes = encode_utf8(text);
    let len = bytes.len() as int;
    encode_utf8_valid_utf8(text);
    encode_utf8_decode_utf8(text);

    // The newline byte begins a character, and the next character begins behind it.
    is_char_boundary_iff_not_is_continuation_byte(bytes, at);
    valid_utf8_split(bytes, at);
    let head = bytes.subrange(0, at);
    let tail = bytes.subrange(at, len);
    lemma_newline_byte_is_newline(tail);
    let rest = bytes.subrange(at + 1, len);
    assert(pop_first_scalar(tail) =~= rest);
    assert(valid_utf8(rest));
    if at + 1 < len {
        assert(valid_first_scalar(rest));
        assert(rest[0] == bytes[at + 1]);
        is_char_boundary_iff_not_is_continuation_byte(bytes, at + 1);
    } else {
        is_char_boundary_start_end_of_seq(bytes);
    }

    // What the three parts decode to.
    decode_utf8_split(bytes, at);
    assert(decode_utf8(tail) == seq!['\n'] + decode_utf8(rest));
    assert forall|j: int| 0 <= j < head.len() implies #[trigger] head[j] != NEWLINE by {
        assert(head[j] == bytes[j]);
    }
    lemma_decode_without_newline(head);
    let before = decode_utf8(head);
    let after = decode_utf8(rest);
    assert(text =~= before + seq!['\n'] + after);
    lemma_first_newline_at(text, before.len() as int);
    assert(first_line(text) =~= before + seq!['\n']);
    assert(after_first_line(text) =~= after);

    // And back to bytes.
    decode_utf8_encode_utf8(rest);
    let line = bytes.subrange(0, at + 1);
    valid_utf8_split(bytes, at + 1);
    is_char_boundary_iff_not_is_continuation_byte(line, at);
    decode_utf8_split(line, at);
    assert(line.subrange(0, at) =~= head);
    let last = line.subrange(at, at + 1);
    lemma_newline_byte_is_newline(last);
    valid_utf8_split(line, at);
    assert(pop_first_scalar(last) =~= Seq::<u8>::empty());
    assert(valid_utf8(pop_first_scalar(last)));
    assert(decode_utf8(pop_first_scalar(last)) =~= Seq::<char>::empty());
    assert(decode_utf8(last) =~= seq!['\n']);
    assert(decode_utf8(line) =~= before + seq!['\n']);
    decode_utf8_encode_utf8(line);
}

} // verus!
