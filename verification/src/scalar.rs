//! Encoding and decoding of a single character as UTF-8 bytes.
//!
//! The functions here work on one character at a time and are proved against
//! the definitions of `vstd::utf8`.

use vstd::prelude::*;
use vstd::utf8::*;

verus! {

/// The UTF-8 encoding of one character.
pub open spec fn char_bytes(c: char) -> Seq<u8> {
    encode_scalar(c as u32)
}

/// The number of bytes that the UTF-8 encoding of `c` takes.
pub open spec fn char_width(c: char) -> int {
    char_bytes(c).len() as int
}

/// Every character takes between one and four bytes.
pub proof fn lemma_char_width_bounds(c: char)
    ensures
        1 <= char_width(c) <= 4,
{
}

/// The bytes of a one-character sequence are the bytes of that character.
pub proof fn lemma_encode_single(c: char)
    ensures
        encode_utf8(seq![c]) == char_bytes(c),
        valid_utf8(char_bytes(c)),
        decode_utf8(char_bytes(c)) == seq![c],
{
    broadcast use group_utf8_lib;

    reveal_with_fuel(encode_utf8, 2);
    assert(seq![c].drop_first() =~= Seq::<char>::empty());
    assert(encode_utf8(seq![c]) =~= char_bytes(c));
}

/// Returns the number of bytes that the UTF-8 encoding of `c` takes.
pub fn utf8_width(c: char) -> (width: usize)
    ensures
        width == char_width(c),
        1 <= width <= 4,
{
    let v: u32 = c as u32;
    if v < 0x80 {
        1
    } else if v < 0x800 {
        2
    } else if v < 0x10000 {
        3
    } else {
        4
    }
}

/// Encodes `c` as UTF-8. The first `utf8_width(c)` bytes of the result hold
/// the encoding, and the bytes after them are zero.
pub fn encode_char(c: char) -> (encoded: [u8; 4])
    ensures
        encoded@.subrange(0, char_width(c)) == char_bytes(c),
        forall|i: int| char_width(c) <= i < 4 ==> encoded@[i] == 0,
{
    let v: u32 = c as u32;
    let mut out: [u8; 4] = [0u8; 4];
    if v < 0x80 {
        out[0] = (v & 0x7F) as u8;
    } else if v < 0x800 {
        out[0] = 0xC0 | ((v >> 6) & 0x1F) as u8;
        out[1] = 0x80 | (v & 0x3F) as u8;
    } else if v < 0x10000 {
        out[0] = 0xE0 | ((v >> 12) & 0x0F) as u8;
        out[1] = 0x80 | ((v >> 6) & 0x3F) as u8;
        out[2] = 0x80 | (v & 0x3F) as u8;
    } else {
        out[0] = 0xF0 | ((v >> 18) & 0x7) as u8;
        out[1] = 0x80 | ((v >> 12) & 0x3F) as u8;
        out[2] = 0x80 | ((v >> 6) & 0x3F) as u8;
        out[3] = 0x80 | (v & 0x3F) as u8;
    }
    assert(out@.subrange(0, char_width(c)) =~= char_bytes(c));
    out
}

/// Decodes the character whose encoding begins at `bytes[start]`, and returns
/// it with the number of bytes that its encoding takes.
pub fn decode_char(bytes: &[u8], start: usize) -> (decoded: (char, usize))
    requires
        start < bytes@.len(),
        valid_first_scalar(bytes@.subrange(start as int, bytes@.len() as int)),
    ensures
        decoded.0 == decode_first_scalar(bytes@.subrange(start as int, bytes@.len() as int)) as char,
        decoded.1 == length_of_first_scalar(bytes@.subrange(start as int, bytes@.len() as int)),
        char_bytes(decoded.0) == bytes@.subrange(start as int, start + decoded.1),
        1 <= decoded.1 <= 4,
        start + decoded.1 <= bytes@.len(),
{
    let ghost tail = bytes@.subrange(start as int, bytes@.len() as int);
    let b0: u8 = bytes[start];
    assert(b0 == tail[0]);
    let width: usize;
    let value: u32;
    if b0 < 0x80 {
        width = 1;
        value = (b0 & 0x7F) as u32;
    } else if b0 < 0xE0 {
        let b1: u8 = bytes[start + 1];
        assert(b1 == tail[1]);
        width = 2;
        value = (((b0 & 0x1F) as u32) << 6) | ((b1 & 0x3f) as u32);
    } else if b0 < 0xF0 {
        let b1: u8 = bytes[start + 1];
        let b2: u8 = bytes[start + 2];
        assert(b1 == tail[1] && b2 == tail[2]);
        width = 3;
        value = (((b0 & 0x0F) as u32) << 12) | (((b1 & 0x3f) as u32) << 6) | ((b2 & 0x3f) as u32);
    } else {
        let b1: u8 = bytes[start + 1];
        let b2: u8 = bytes[start + 2];
        let b3: u8 = bytes[start + 3];
        assert(b1 == tail[1] && b2 == tail[2] && b3 == tail[3]);
        width = 4;
        value = (((b0 & 0x07) as u32) << 18) | (((b1 & 0x3f) as u32) << 12) | (((b2 & 0x3f) as u32)
            << 6) | ((b3 & 0x3f) as u32);
    }
    assert(value == decode_first_scalar(tail));
    assert(width == length_of_first_scalar(tail));
    proof {
        lemma_first_scalar_is_scalar(tail);
    }
    match char::from_u32(value) {
        Some(c) => (c, width),
        None => vstd::pervasive::unreached(),
    }
}

/// The number that a well-formed first encoding decodes to is a scalar value,
/// and encoding that scalar again gives the bytes it was decoded from.
pub proof fn lemma_first_scalar_is_scalar(bytes: Seq<u8>)
    requires
        valid_first_scalar(bytes),
    ensures
        is_scalar(decode_first_scalar(bytes)),
        encode_scalar(decode_first_scalar(bytes)) == take_first_scalar(bytes),
        char_bytes(decode_first_scalar(bytes) as char) == take_first_scalar(bytes),
{
    let b0 = bytes[0];
    if is_leading_byte_width_1(b0) {
        assert(has_width_1_encoding(codepoint_width_1(b0)) && leading_byte_width_1(
            codepoint_width_1(b0),
        ) == b0) by (bit_vector)
            requires
                is_leading_byte_width_1(b0),
        ;
    } else if is_leading_byte_width_2(b0) {
        let b1 = bytes[1];
        let c = codepoint_width_2(b0, b1);
        assert(has_width_2_encoding(c) && leading_byte_width_2(c) == b0 && last_continuation_byte(c)
            == b1) by (bit_vector)
            requires
                is_leading_byte_width_2(b0),
                is_continuation_byte(b1),
                c == codepoint_width_2(b0, b1),
                0x80 <= c,
        ;
    } else if is_leading_byte_width_3(b0) {
        let b1 = bytes[1];
        let b2 = bytes[2];
        let c = codepoint_width_3(b0, b1, b2);
        assert(has_width_3_encoding(c) && leading_byte_width_3(c) == b0
            && second_last_continuation_byte(c) == b1 && last_continuation_byte(c) == b2)
            by (bit_vector)
            requires
                is_leading_byte_width_3(b0),
                is_continuation_byte(b1),
                is_continuation_byte(b2),
                c == codepoint_width_3(b0, b1, b2),
                0x800 <= c,
                !(0xD800 <= c <= 0xDFFF),
        ;
    } else {
        let b1 = bytes[1];
        let b2 = bytes[2];
        let b3 = bytes[3];
        let c = codepoint_width_4(b0, b1, b2, b3);
        assert(has_width_4_encoding(c) && leading_byte_width_4(c) == b0
            && third_last_continuation_byte(c) == b1 && second_last_continuation_byte(c) == b2
            && last_continuation_byte(c) == b3) by (bit_vector)
            requires
                is_leading_byte_width_4(b0),
                is_continuation_byte(b1),
                is_continuation_byte(b2),
                is_continuation_byte(b3),
                c == codepoint_width_4(b0, b1, b2, b3),
                0x10000 <= c <= 0x10ffff,
        ;
    }
    assert(encode_scalar(decode_first_scalar(bytes)) =~= take_first_scalar(bytes));
    let v = decode_first_scalar(bytes);
    assert((v as char) as u32 == v);
}

} // verus!
