//! Laws that relate the operations of an inline string to each other.
//!
//! Each law is stated over the model functions that the contracts of the
//! operations use, so it holds of every string that the operations produce.

use vstd::prelude::*;
use vstd::utf8::*;
use vstd::std_specs::cmp::PartialEqSpec;
use vstd::std_specs::convert::TryFromSpec;
use crate::errors::NotEnoughCapacityError;
use crate::inline_string::{InlineString, INLINE_STRING_CAPACITY};
use crate::model::{
    byte_len, char_at, char_index, inserted, lemma_byte_len_zero, lemma_prefix_is_boundary,
    lemma_split_at_boundary, on_char_boundary, removed, truncated, zero_padded,
};

verus! {

/// Converting a string slice succeeds exactly when the slice fits into the
/// capacity. The string that comes out holds the characters of the slice, has
/// the slice's length in bytes, and compares equal to the slice. A slice that
/// does not fit gives the capacity error and no string.
pub proof fn law_try_from_str(s: &str)
    ensures
        byte_len(s@) <= INLINE_STRING_CAPACITY ==> {
            let converted = <InlineString as TryFromSpec<&str>>::try_from_spec(s);
            &&& converted is Ok
            &&& converted->Ok_0@ == s@
            &&& converted->Ok_0.spec_len() == byte_len(s@)
            &&& PartialEqSpec::<&str>::eq_spec(&converted->Ok_0, &s)
        },
        byte_len(s@) > INLINE_STRING_CAPACITY ==> <InlineString as TryFromSpec<
            &str,
        >>::try_from_spec(s) == Err::<InlineString, NotEnoughCapacityError>(NotEnoughCapacityError),
{
    if byte_len(s@) <= INLINE_STRING_CAPACITY {
        InlineString::lemma_spec_from(s@);
    }
}

/// Inserting a character at a boundary and then removing the character at
/// the same position gives back the inserted character and the text as it
/// was. After the insertion the position is again a boundary, and a
/// character begins there, so the removal is allowed.
pub proof fn law_insert_then_remove(chars: Seq<char>, idx: int, c: char)
    requires
        on_char_boundary(chars, idx),
    ensures
        on_char_boundary(inserted(chars, idx, c), idx),
        idx < byte_len(inserted(chars, idx, c)),
        char_at(inserted(chars, idx, c), idx) == c,
        removed(inserted(chars, idx, c), idx) == chars,
{
    let k = char_index(chars, idx);
    let after = inserted(chars, idx, c);
    lemma_split_at_boundary(chars, idx);
    assert(after.take(k) =~= chars.take(k));
    lemma_prefix_is_boundary(after, k);
    lemma_split_at_boundary(after, idx);
    assert(after.remove(k) =~= chars);
}

/// Pushing a character and then popping gives back the pushed character and
/// the text as it was.
pub proof fn law_push_then_pop(chars: Seq<char>, c: char)
    ensures
        chars.push(c).len() > 0,
        chars.push(c).last() == c,
        chars.push(c).drop_last() == chars,
{
    assert(chars.push(c).drop_last() =~= chars);
}

/// Truncating to length zero is always allowed and leaves the empty text, so
/// pushing a string afterwards succeeds on the same strings, and gives the
/// same text, as pushing it onto a new string.
pub proof fn law_truncate_zero_then_push_str(chars: Seq<char>, s: Seq<char>)
    ensures
        0 < byte_len(chars) ==> on_char_boundary(chars, 0),
        truncated(chars, 0) == Seq::<char>::empty(),
        (byte_len(truncated(chars, 0)) + byte_len(s) <= INLINE_STRING_CAPACITY) == (byte_len(
            Seq::<char>::empty(),
        ) + byte_len(s) <= INLINE_STRING_CAPACITY),
        truncated(chars, 0) + s == Seq::<char>::empty() + s,
{
    broadcast use group_utf8_lib;

    lemma_byte_len_zero(chars);
    assert(encode_utf8(chars).subrange(0, 0) =~= Seq::<u8>::empty());
    assert(chars.take(0) =~= Seq::<char>::empty());
}

/// The fixed-width rendering of a text depends on the text alone: it has the
/// given width, begins with the encoding of the text, and is zero after it.
pub proof fn law_zero_padded(chars: Seq<char>, width: int)
    requires
        byte_len(chars) <= width,
    ensures
        zero_padded(chars, width).len() == width,
        zero_padded(chars, width).subrange(0, byte_len(chars)) == encode_utf8(chars),
        forall|i: int| byte_len(chars) <= i < width ==> zero_padded(chars, width)[i] == 0,
{
    assert(zero_padded(chars, width).subrange(0, byte_len(chars)) =~= encode_utf8(chars));
}

} // verus!
