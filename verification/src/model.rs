//! The mathematical model of an inline string: a sequence of characters,
//! together with the byte positions of its UTF-8 encoding.
//!
//! Every operation of the string is described here as a function on
//! `Seq<char>`; the executable code is proved against these functions.

use vstd::prelude::*;
use vstd::utf8::*;
use crate::scalar::{char_bytes, char_width, lemma_char_width_bounds, lemma_encode_single};

verus! {

/// The number of bytes that the UTF-8 encoding of `chars` takes.
pub open spec fn byte_len(chars: Seq<char>) -> int {
    encode_utf8(chars).len() as int
}

/// True when byte position `idx` of the encoding of `chars` lies between two
/// characters, at the start or at the end.
pub open spec fn on_char_boundary(chars: Seq<char>, idx: int) -> bool {
    0 <= idx <= byte_len(chars) && is_char_boundary(encode_utf8(chars), idx)
}

/// The number of characters whose encoding lies before byte position `idx`.
pub open spec fn char_index(chars: Seq<char>, idx: int) -> int {
    decode_utf8(encode_utf8(chars).subrange(0, idx)).len() as int
}

/// The text after inserting `c` at byte position `idx`.
pub open spec fn inserted(chars: Seq<char>, idx: int, c: char) -> Seq<char> {
    chars.insert(char_index(chars, idx), c)
}

/// The character that begins at byte position `idx`.
pub open spec fn char_at(chars: Seq<char>, idx: int) -> char {
    chars[char_index(chars, idx)]
}

/// The text after removing the character that begins at byte position `idx`.
pub open spec fn removed(chars: Seq<char>, idx: int) -> Seq<char> {
    chars.remove(char_index(chars, idx))
}

/// The text after shortening it to `new_len` bytes; a length that is not
/// shorter than the text leaves it as it is.
pub open spec fn truncated(chars: Seq<char>, new_len: int) -> Seq<char> {
    if new_len >= byte_len(chars) {
        chars
    } else {
        chars.take(char_index(chars, new_len))
    }
}

/// The characters whose encoding lies between byte positions `start` and `end`.
pub open spec fn char_range(chars: Seq<char>, start: int, end: int) -> Seq<char> {
    chars.subrange(char_index(chars, start), char_index(chars, end))
}

/// A fixed-width rendering of `chars`: the encoding, then zeros up to `width`.
pub open spec fn zero_padded(chars: Seq<char>, width: int) -> Seq<u8> {
    encode_utf8(chars) + Seq::new((width - byte_len(chars)) as nat, |i: int| 0u8)
}

/// Encoding distributes over concatenation.
pub proof fn lemma_encode_concat(a: Seq<char>, b: Seq<char>)
    ensures
        encode_utf8(a + b) == encode_utf8(a) + encode_utf8(b),
        byte_len(a + b) == byte_len(a) + byte_len(b),
    decreases a.len(),
{
    if a.len() == 0 {
        assert(a + b =~= b);
        assert(encode_utf8(a) + encode_utf8(b) =~= encode_utf8(b));
    } else {
        lemma_encode_concat(a.drop_first(), b);
        assert((a + b).drop_first() =~= a.drop_first() + b);
        assert(encode_utf8(a + b) =~= encode_utf8(a) + encode_utf8(b));
    }
}

/// Appending one character appends its bytes.
pub proof fn lemma_encode_push(chars: Seq<char>, c: char)
    ensures
        encode_utf8(chars.push(c)) == encode_utf8(chars) + char_bytes(c),
        byte_len(chars.push(c)) == byte_len(chars) + char_width(c),
{
    lemma_encode_concat(chars, seq![c]);
    lemma_encode_single(c);
    assert(chars.push(c) =~= chars + seq![c]);
}

/// Only the empty text takes no bytes.
pub proof fn lemma_byte_len_zero(chars: Seq<char>)
    ensures
        byte_len(chars) >= chars.len(),
        byte_len(chars) == 0 <==> chars.len() == 0,
    decreases chars.len(),
{
    if chars.len() > 0 {
        lemma_byte_len_zero(chars.drop_first());
        lemma_char_width_bounds(chars[0]);
    }
}

/// Decoding distributes over the concatenation of two valid encodings.
pub proof fn lemma_decode_concat(a: Seq<u8>, b: Seq<u8>)
    requires
        valid_utf8(a),
        valid_utf8(b),
    ensures
        valid_utf8(a + b),
        decode_utf8(a + b) == decode_utf8(a) + decode_utf8(b),
{
    broadcast use group_utf8_lib;

    lemma_encode_concat(decode_utf8(a), decode_utf8(b));
    assert(encode_utf8(decode_utf8(a) + decode_utf8(b)) == a + b);
    assert(decode_utf8(encode_utf8(decode_utf8(a) + decode_utf8(b))) == decode_utf8(a)
        + decode_utf8(b));
}

/// In a concatenation of two valid encodings the seam is a character boundary.
pub proof fn lemma_seam_is_boundary(a: Seq<u8>, b: Seq<u8>)
    requires
        valid_utf8(a),
        valid_utf8(b),
    ensures
        valid_utf8(a + b),
        is_char_boundary(a + b, a.len() as int),
    decreases a.len(),
{
    broadcast use valid_utf8_concat;

    if a.len() > 0 {
        let rest = pop_first_scalar(a);
        lemma_seam_is_boundary(rest, b);
        assert(pop_first_scalar(a + b) =~= rest + b);
        assert(length_of_first_scalar(a + b) == length_of_first_scalar(a));
    }
}

/// Splitting an encoding at a character boundary splits the text: the bytes
/// before the boundary encode the characters before `char_index`, and the
/// bytes after it encode the rest.
pub proof fn lemma_split_at_boundary(chars: Seq<char>, idx: int)
    requires
        on_char_boundary(chars, idx),
    ensures
        0 <= char_index(chars, idx) <= chars.len(),
        encode_utf8(chars).subrange(0, idx) == encode_utf8(chars.take(char_index(chars, idx))),
        encode_utf8(chars).subrange(idx, byte_len(chars)) == encode_utf8(
            chars.skip(char_index(chars, idx)),
        ),
        byte_len(chars.take(char_index(chars, idx))) == idx,
        idx < byte_len(chars) <==> char_index(chars, idx) < chars.len(),
{
    broadcast use group_utf8_lib;

    let bytes = encode_utf8(chars);
    let head = bytes.subrange(0, idx);
    let tail = bytes.subrange(idx, bytes.len() as int);
    let k = char_index(chars, idx);
    decode_utf8_split(bytes, idx);
    valid_utf8_split(bytes, idx);
    assert(chars == decode_utf8(head) + decode_utf8(tail));
    assert(chars.take(k) =~= decode_utf8(head));
    assert(chars.skip(k) =~= decode_utf8(tail));
    lemma_byte_len_zero(chars.skip(k));
}

/// The end of the encoding of the first `k` characters is a character
/// boundary, and `k` characters lie before it.
pub proof fn lemma_prefix_is_boundary(chars: Seq<char>, k: int)
    requires
        0 <= k <= chars.len(),
    ensures
        on_char_boundary(chars, byte_len(chars.take(k))),
        char_index(chars, byte_len(chars.take(k))) == k,
        encode_utf8(chars) == encode_utf8(chars.take(k)) + encode_utf8(chars.skip(k)),
{
    broadcast use group_utf8_lib;

    let head = encode_utf8(chars.take(k));
    let tail = encode_utf8(chars.skip(k));
    assert(chars =~= chars.take(k) + chars.skip(k));
    lemma_encode_concat(chars.take(k), chars.skip(k));
    lemma_seam_is_boundary(head, tail);
    assert((head + tail).subrange(0, head.len() as int) =~= head);
}

/// The bytes between two character boundaries are the encoding of the
/// characters between them.
pub proof fn lemma_range_between_boundaries(chars: Seq<char>, start: int, end: int)
    requires
        start <= end,
        on_char_boundary(chars, start),
        on_char_boundary(chars, end),
    ensures
        char_index(chars, start) <= char_index(chars, end),
        encode_utf8(chars).subrange(start, end) == encode_utf8(char_range(chars, start, end)),
        valid_utf8(encode_utf8(chars).subrange(start, end)),
{
    broadcast use group_utf8_lib;

    let i = char_index(chars, start);
    let j = char_index(chars, end);
    let bytes = encode_utf8(chars);
    lemma_split_at_boundary(chars, start);
    lemma_split_at_boundary(chars, end);
    if j < i {
        assert(chars.take(i) =~= chars.take(j) + chars.subrange(j, i));
        lemma_encode_concat(chars.take(j), chars.subrange(j, i));
        lemma_byte_len_zero(chars.subrange(j, i));
    }
    assert(chars.take(j) =~= chars.take(i) + chars.subrange(i, j));
    lemma_encode_concat(chars.take(i), chars.subrange(i, j));
    assert(bytes.subrange(0, end).subrange(start, end) =~= bytes.subrange(start, end));
    assert((encode_utf8(chars.take(i)) + encode_utf8(chars.subrange(i, j))).subrange(start, end)
        =~= encode_utf8(chars.subrange(i, j)));
}

} // verus!
