//! A short UTF-8 string that uses inline storage and does no heap allocation.
//! It may be no longer than `INLINE_STRING_CAPACITY` bytes.
//!
//! The capacity restriction makes operations that are infallible on
//! `std::string::String` fallible here: an operation that would not fit
//! returns an error and leaves the string exactly as it was.

use vstd::prelude::*;
use vstd::utf8::*;
use vstd::string::StringSliceAdditionalSpecFns;
use vstd::array::array_as_slice;
use vstd::slice::slice_subrange;
use crate::buffer::{copy_into, shift_left, shift_right, zero_from};
use crate::errors::NotEnoughSpaceError;
use crate::model::{
    byte_len, char_at, char_index, char_range, inserted, lemma_byte_len_zero,
    lemma_decode_concat, lemma_encode_concat, lemma_encode_push, lemma_prefix_is_boundary,
    lemma_range_between_boundaries, lemma_split_at_boundary, on_char_boundary, removed,
    truncated, zero_padded,
};
use crate::std_calls::sink_failed;
use crate::scalar::{
    char_bytes, char_width, decode_char, encode_char, lemma_encode_single, utf8_width,
};

verus! {

/// The capacity, in bytes, of inline storage. The length of an
/// `InlineString` is never larger than this.
pub const INLINE_STRING_CAPACITY: usize = 22;

/// A short UTF-8 string that uses inline storage and does no heap allocation.
///
/// Its view is the sequence of its characters. The bytes it holds are the
/// UTF-8 encoding of that sequence, and never more than
/// `INLINE_STRING_CAPACITY` of them.
#[derive(Debug)]
pub struct InlineString {
    length: u8,
    bytes: [u8; INLINE_STRING_CAPACITY],
}

/// The storage that holds the first `count` bytes of `bytes` and zeros after
/// them.
spec fn zeroed_except(bytes: Seq<u8>, count: nat) -> [u8; INLINE_STRING_CAPACITY]
    decreases count,
{
    if count == 0 {
        [0u8; INLINE_STRING_CAPACITY]
    } else {
        vstd::array::spec_array_update(
            zeroed_except(bytes, (count - 1) as nat),
            count - 1,
            bytes[count - 1],
        )
    }
}

/// What `zeroed_except` holds at each position.
proof fn lemma_zeroed_except(bytes: Seq<u8>, count: nat)
    requires
        count <= bytes.len(),
        count <= INLINE_STRING_CAPACITY,
    ensures
        forall|i: int| 0 <= i < count ==> zeroed_except(bytes, count)@[i] == bytes[i],
        forall|i: int| count <= i < INLINE_STRING_CAPACITY ==> zeroed_except(bytes, count)@[i] == 0,
    decreases count,
{
    broadcast use vstd::array::group_array_axioms;

    if count > 0 {
        lemma_zeroed_except(bytes, (count - 1) as nat);
        let before = zeroed_except(bytes, (count - 1) as nat);
        let after = vstd::array::spec_array_update(before, count - 1, bytes[count - 1]);
        assert(zeroed_except(bytes, count) == after);
        assert(after@ == before@.update(count - 1, bytes[count - 1]));
    } else {
        let blank: [u8; INLINE_STRING_CAPACITY] = [0u8; INLINE_STRING_CAPACITY];
        assert(zeroed_except(bytes, count) == blank);
        assert(forall|i: int| 0 <= i < INLINE_STRING_CAPACITY ==> blank@[i] == 0);
    }
}

impl View for InlineString {
    type V = Seq<char>;

    closed spec fn view(&self) -> Seq<char> {
        decode_utf8(self.occupied())
    }
}

impl InlineString {
    /// The part of the storage that holds the text.
    closed spec fn occupied(&self) -> Seq<u8> {
        self.bytes@.subrange(0, self.length as int)
    }

    /// The length never exceeds the capacity, and the occupied bytes are
    /// valid UTF-8.
    #[verifier::type_invariant]
    closed spec fn well_formed(&self) -> bool {
        &&& self.length <= INLINE_STRING_CAPACITY
        &&& valid_utf8(self.occupied())
    }

    /// The bytes of the text: the UTF-8 encoding of its characters.
    pub open spec fn spec_bytes(&self) -> Seq<u8> {
        encode_utf8(self@)
    }

    /// The number of bytes of the text.
    pub open spec fn spec_len(&self) -> int {
        byte_len(self@)
    }

    /// All the bytes of the storage, those after the text too.
    pub closed spec fn storage(&self) -> Seq<u8> {
        self.bytes@
    }

    /// What holds of every inline string at every point where it can be
    /// observed: the text is no longer than the capacity, and the storage
    /// begins with the UTF-8 encoding of the text.
    pub open spec fn sane(&self) -> bool {
        &&& self.storage().len() == INLINE_STRING_CAPACITY
        &&& self.spec_len() <= INLINE_STRING_CAPACITY
        &&& self.storage().subrange(0, self.spec_len()) == self.spec_bytes()
    }

    /// In a well-formed string the occupied bytes are the encoding of the
    /// view, and they fit.
    proof fn lemma_occupied(&self)
        requires
            self.well_formed(),
        ensures
            self.occupied() == self.spec_bytes(),
            self.spec_len() == self.length,
            self.spec_len() <= INLINE_STRING_CAPACITY,
            valid_utf8(self.spec_bytes()),
            self.sane(),
    {
        broadcast use group_utf8_lib;

    }

    /// Creates a new string buffer initialized with the empty string.
    pub fn new() -> (s: InlineString)
        ensures
            s@ == Seq::<char>::empty(),
            s.spec_len() == 0,
            s.storage() == Seq::new(INLINE_STRING_CAPACITY as nat, |i: int| 0u8),
            s.sane(),
    {
        let s = InlineString { length: 0, bytes: [0u8; INLINE_STRING_CAPACITY] };
        proof {
            assert(s.occupied() =~= Seq::<u8>::empty());
            assert(s.storage() =~= Seq::new(INLINE_STRING_CAPACITY as nat, |i: int| 0u8));
            s.lemma_occupied();
        }
        s
    }

    /// Returns the number of bytes in this string.
    pub fn len(&self) -> (n: usize)
        ensures
            n == self.spec_len(),
            n <= INLINE_STRING_CAPACITY,
            self.sane(),
    {
        proof {
            use_type_invariant(&*self);
            self.lemma_occupied();
        }
        self.length as usize
    }

    /// Returns true if the string contains no bytes.
    pub fn is_empty(&self) -> (empty: bool)
        ensures
            empty == (self@.len() == 0),
            empty == (self.spec_len() == 0),
    {
        proof {
            use_type_invariant(&*self);
            self.lemma_occupied();
            lemma_byte_len_zero(self@);
        }
        self.length == 0
    }

    /// Works with the underlying buffer as a byte slice: the UTF-8 encoding
    /// of the text, without the unused storage after it.
    pub fn as_bytes(&self) -> (bytes: &[u8])
        ensures
            bytes@ == self.spec_bytes(),
            bytes@ == self.storage().subrange(0, self.spec_len()),
            valid_utf8(bytes@),
            decode_utf8(bytes@) == self@,
            self.sane(),
    {
        proof {
            use_type_invariant(&*self);
            self.lemma_occupied();
        }
        slice_subrange(array_as_slice(&self.bytes), 0, self.length as usize)
    }

    /// Truncates the string, returning it to 0 length.
    pub fn clear(&mut self)
        ensures
            final(self)@ == Seq::<char>::empty(),
            final(self).spec_len() == 0,
            final(self).storage() == old(self).storage(),
            final(self).sane(),
    {
        proof {
            use_type_invariant(&*self);
        }
        assert(self.bytes@.subrange(0, 0) =~= Seq::<u8>::empty());
        self.length = 0;
        proof {
            self.lemma_occupied();
        }
    }

    /// Pushes the given string onto the end of this string buffer.
    ///
    /// Succeeds exactly when the result fits into the capacity. On failure
    /// the string is unchanged.
    pub fn push_str(&mut self, string: &str) -> (pushed: Result<(), NotEnoughSpaceError>)
        ensures
            pushed is Ok <==> old(self).spec_len() + byte_len(string@) <= INLINE_STRING_CAPACITY,
            pushed is Ok ==> final(self)@ == old(self)@ + string@,
            pushed is Ok ==> final(self).spec_bytes() == old(self).spec_bytes() + encode_utf8(
                string@,
            ),
            pushed is Ok ==> final(self).spec_len() == old(self).spec_len() + byte_len(string@),
            pushed is Ok ==> final(self).storage() == old(self).storage().subrange(
                0,
                old(self).spec_len(),
            ) + encode_utf8(string@) + old(self).storage().subrange(
                old(self).spec_len() + byte_len(string@),
                INLINE_STRING_CAPACITY as int,
            ),
            pushed is Err ==> *final(self) == *old(self),
            final(self).sane(),
    {
        proof {
            use_type_invariant(&*self);
            self.lemma_occupied();
        }
        let length: usize = self.length as usize;
        let source: &[u8] = string.as_bytes();
        let string_len: usize = source.len();
        if string_len > INLINE_STRING_CAPACITY - length {
            return Err(NotEnoughSpaceError);
        }
        let new_length: usize = length + string_len;
        let mut bytes: [u8; INLINE_STRING_CAPACITY] = self.bytes;
        copy_into(&mut bytes, length, source);
        proof {
            broadcast use group_utf8_lib;

            assert(bytes@.subrange(0, new_length as int) =~= self.occupied() + source@);
            lemma_decode_concat(self.occupied(), source@);
            lemma_encode_concat(self@, string@);
        }
        *self = InlineString { length: new_length as u8, bytes };
        proof {
            self.lemma_occupied();
        }
        Ok(())
    }

    /// Adds the given character to the end of the string.
    ///
    /// Succeeds exactly when the result fits into the capacity. On failure
    /// the string is unchanged.
    pub fn push(&mut self, ch: char) -> (pushed: Result<(), NotEnoughSpaceError>)
        ensures
            pushed is Ok <==> old(self).spec_len() + char_width(ch) <= INLINE_STRING_CAPACITY,
            pushed is Ok ==> final(self)@ == old(self)@.push(ch),
            pushed is Ok ==> final(self).spec_bytes() == old(self).spec_bytes() + char_bytes(ch),
            pushed is Ok ==> final(self).spec_len() == old(self).spec_len() + char_width(ch),
            pushed is Ok ==> final(self).storage() == old(self).storage().subrange(
                0,
                old(self).spec_len(),
            ) + char_bytes(ch) + old(self).storage().subrange(
                old(self).spec_len() + char_width(ch),
                INLINE_STRING_CAPACITY as int,
            ),
            pushed is Err ==> *final(self) == *old(self),
            final(self).sane(),
    {
        proof {
            use_type_invariant(&*self);
            self.lemma_occupied();
            lemma_encode_push(self@, ch);
        }
        let length: usize = self.length as usize;
        let char_len: usize = utf8_width(ch);
        if char_len > INLINE_STRING_CAPACITY - length {
            return Err(NotEnoughSpaceError);
        }
        let new_length: usize = length + char_len;
        let encoded: [u8; 4] = encode_char(ch);
        let mut bytes: [u8; INLINE_STRING_CAPACITY] = self.bytes;
        copy_into(&mut bytes, length, slice_subrange(array_as_slice(&encoded), 0, char_len));
        proof {
            broadcast use group_utf8_lib;

            assert(bytes@.subrange(0, new_length as int) =~= self.occupied() + char_bytes(ch));
            lemma_encode_single(ch);
            lemma_decode_concat(self.occupied(), char_bytes(ch));
            assert(self@ + seq![ch] =~= self@.push(ch));
        }
        *self = InlineString { length: new_length as u8, bytes };
        proof {
            self.lemma_occupied();
        }
        Ok(())
    }

    /// Inserts a character into the string buffer at byte position `idx`.
    ///
    /// `idx` must lie on a character boundary of the text. Succeeds exactly
    /// when the result fits into the capacity. On failure the string is
    /// unchanged.
    pub fn insert(&mut self, idx: usize, ch: char) -> (done: Result<(), NotEnoughSpaceError>)
        requires
            on_char_boundary(old(self)@, idx as int),
        ensures
            done is Ok <==> old(self).spec_len() + char_width(ch) <= INLINE_STRING_CAPACITY,
            done is Ok ==> final(self)@ == inserted(old(self)@, idx as int, ch),
            done is Ok ==> final(self).spec_len() == old(self).spec_len() + char_width(ch),
            done is Ok ==> final(self).spec_bytes() == old(self).spec_bytes().subrange(
                0,
                idx as int,
            ) + char_bytes(ch) + old(self).spec_bytes().subrange(
                idx as int,
                old(self).spec_len(),
            ),
            done is Ok ==> final(self).storage() == old(self).storage().subrange(0, idx as int)
                + char_bytes(ch) + old(self).storage().subrange(idx as int, old(self).spec_len())
                + old(self).storage().subrange(
                old(self).spec_len() + char_width(ch),
                INLINE_STRING_CAPACITY as int,
            ),
            done is Err ==> *final(self) == *old(self),
            final(self).sane(),
    {
        proof {
            use_type_invariant(&*self);
            self.lemma_occupied();
        }
        let length: usize = self.length as usize;
        let char_len: usize = utf8_width(ch);
        if char_len > INLINE_STRING_CAPACITY - length {
            return Err(NotEnoughSpaceError);
        }
        let new_length: usize = length + char_len;
        let encoded: [u8; 4] = encode_char(ch);
        let mut bytes: [u8; INLINE_STRING_CAPACITY] = self.bytes;
        shift_right(&mut bytes, idx, length, char_len);
        copy_into(&mut bytes, idx, slice_subrange(array_as_slice(&encoded), 0, char_len));
        proof {
            broadcast use group_utf8_lib;

            let chars = self@;
            let k = char_index(chars, idx as int);
            let head = self.occupied().subrange(0, idx as int);
            let tail = self.occupied().subrange(idx as int, length as int);
            assert(bytes@.subrange(0, new_length as int) =~= head + char_bytes(ch) + tail);
            lemma_split_at_boundary(chars, idx as int);
            lemma_encode_single(ch);
            lemma_encode_concat(chars.take(k), seq![ch]);
            lemma_encode_concat(chars.take(k) + seq![ch], chars.skip(k));
            assert(chars.insert(k, ch) =~= chars.take(k) + seq![ch] + chars.skip(k));
            assert(bytes@.subrange(0, new_length as int) == encode_utf8(chars.insert(k, ch)));
            assert(bytes@ =~= self.bytes@.subrange(0, idx as int) + char_bytes(ch)
                + self.bytes@.subrange(idx as int, length as int) + self.bytes@.subrange(
                length + char_len,
                INLINE_STRING_CAPACITY as int,
            ));
        }
        *self = InlineString { length: new_length as u8, bytes };
        proof {
            self.lemma_occupied();
        }
        Ok(())
    }

    /// Removes the character that begins at byte position `idx` from the
    /// string buffer and returns it. The bytes after it move up, and the
    /// string becomes shorter by the width of the removed character.
    ///
    /// A character must begin at `idx`: `idx` lies on a character boundary
    /// and before the end of the text.
    pub fn remove(&mut self, idx: usize) -> (ch: char)
        requires
            on_char_boundary(old(self)@, idx as int),
            idx < old(self).spec_len(),
        ensures
            ch == char_at(old(self)@, idx as int),
            final(self)@ == removed(old(self)@, idx as int),
            final(self).spec_len() == old(self).spec_len() - char_width(ch),
            final(self).spec_bytes() == old(self).spec_bytes().subrange(0, idx as int) + old(
                self,
            ).spec_bytes().subrange(idx + char_width(ch), old(self).spec_len()),
            final(self).storage() == old(self).storage().subrange(0, idx as int) + old(
                self,
            ).storage().subrange(idx + char_width(ch), old(self).spec_len()) + old(
                self,
            ).storage().subrange(
                old(self).spec_len() - char_width(ch),
                INLINE_STRING_CAPACITY as int,
            ),
            final(self).sane(),
    {
        proof {
            use_type_invariant(&*self);
            self.lemma_occupied();
        }
        let length: usize = self.length as usize;
        let ghost chars = self@;
        let ghost k = char_index(chars, idx as int);
        proof {
            broadcast use group_utf8_lib;

            lemma_split_at_boundary(chars, idx as int);
            encode_utf8_first_scalar(chars.skip(k));
        }
        let (ch, char_len) = decode_char(self.as_bytes(), idx);
        let mut bytes: [u8; INLINE_STRING_CAPACITY] = self.bytes;
        shift_left(&mut bytes, idx + char_len, length, char_len);
        let new_length: usize = length - char_len;
        proof {
            broadcast use group_utf8_lib;

            let head = self.occupied().subrange(0, idx as int);
            let rest = self.occupied().subrange(idx + char_len, length as int);
            assert(bytes@.subrange(0, new_length as int) =~= head + rest);
            assert(ch == chars[k]);
            lemma_prefix_is_boundary(chars, k + 1);
            lemma_split_at_boundary(chars, byte_len(chars.take(k + 1)));
            assert(chars.take(k + 1) =~= chars.take(k).push(chars[k]));
            lemma_encode_push(chars.take(k), chars[k]);
            assert(rest == encode_utf8(chars.skip(k + 1)));
            lemma_encode_concat(chars.take(k), chars.skip(k + 1));
            assert(chars.remove(k) =~= chars.take(k) + chars.skip(k + 1));
            assert(bytes@.subrange(0, new_length as int) == encode_utf8(chars.remove(k)));
        }
        *self = InlineString { length: new_length as u8, bytes };
        proof {
            self.lemma_occupied();
        }
        ch
    }

    /// Shortens the string to `new_len` bytes. A `new_len` that is not
    /// shorter than the string leaves it unchanged.
    ///
    /// A `new_len` shorter than the string must lie on a character boundary.
    pub fn truncate(&mut self, new_len: usize)
        requires
            new_len < old(self).spec_len() ==> on_char_boundary(old(self)@, new_len as int),
        ensures
            final(self)@ == truncated(old(self)@, new_len as int),
            new_len >= old(self).spec_len() ==> *final(self) == *old(self),
            new_len < old(self).spec_len() ==> final(self).spec_bytes() == old(
                self,
            ).spec_bytes().subrange(0, new_len as int),
            new_len < old(self).spec_len() ==> final(self).spec_len() == new_len,
            final(self).storage() == old(self).storage(),
            final(self).sane(),
    {
        proof {
            use_type_invariant(&*self);
            self.lemma_occupied();
        }
        if new_len < self.length as usize {
            proof {
                broadcast use group_utf8_lib;

                lemma_split_at_boundary(self@, new_len as int);
                assert(self.bytes@.subrange(0, new_len as int) =~= self.occupied().subrange(
                    0,
                    new_len as int,
                ));
            }
            self.length = new_len as u8;
            proof {
                self.lemma_occupied();
            }
        }
    }

    /// Removes the last character from the string buffer and returns it.
    /// Returns `None`, and changes nothing, if the string is empty.
    pub fn pop(&mut self) -> (popped: Option<char>)
        ensures
            popped is None <==> old(self)@.len() == 0,
            popped is None ==> *final(self) == *old(self),
            popped is Some ==> popped == Some(old(self)@.last()),
            popped is Some ==> final(self)@ == old(self)@.drop_last(),
            popped is Some ==> final(self).spec_len() == old(self).spec_len() - char_width(
                old(self)@.last(),
            ),
            popped is Some ==> final(self).spec_bytes() == old(self).spec_bytes().subrange(
                0,
                final(self).spec_len(),
            ),
            final(self).storage() == old(self).storage(),
            final(self).sane(),
    {
        proof {
            use_type_invariant(&*self);
            self.lemma_occupied();
            lemma_byte_len_zero(self@);
        }
        let length: usize = self.length as usize;
        if length == 0 {
            return None;
        }
        let ghost chars = self@;
        let ghost occupied = self.occupied();
        let mut start: usize = length - 1;
        proof {
            broadcast use group_utf8_lib;

            assert(is_char_boundary(occupied, 0));
            assert(!is_continuation_byte(occupied[0]));
        }
        while self.bytes[start] >= 0x80 && self.bytes[start] < 0xC0
            invariant
                start < length,
                length == self.length,
                length <= INLINE_STRING_CAPACITY,
                occupied == self.occupied(),
                !is_continuation_byte(occupied[0]),
                forall|j: int| start < j < length ==> is_continuation_byte(occupied[j]),
            decreases start,
        {
            assert(self.bytes[start as int] == occupied[start as int]);
            start -= 1;
        }
        assert(self.bytes[start as int] == occupied[start as int]);
        let ghost k = char_index(chars, start as int);
        proof {
            broadcast use group_utf8_lib;

            assert(!is_continuation_byte(occupied[start as int]));
            is_char_boundary_iff_not_is_continuation_byte(occupied, start as int);
            lemma_split_at_boundary(chars, start as int);
            encode_utf8_first_scalar(chars.skip(k));
        }
        let (ch, char_len) = decode_char(self.as_bytes(), start);
        proof {
            broadcast use group_utf8_lib;

            assert(ch == chars[k]);
            lemma_prefix_is_boundary(chars, k + 1);
            assert(chars.take(k + 1) =~= chars.take(k).push(chars[k]));
            lemma_encode_push(chars.take(k), chars[k]);
            let next = byte_len(chars.take(k + 1));
            assert(next == start + char_len);
            if next < length {
                assert(is_char_boundary(occupied, next));
                assert(!is_continuation_byte(occupied[next]));
            }
            lemma_split_at_boundary(chars, next);
            assert(k + 1 == chars.len());
            assert(chars.take(k) =~= chars.drop_last());
            assert(self.bytes@.subrange(0, start as int) =~= occupied.subrange(0, start as int));
        }
        self.length = start as u8;
        proof {
            self.lemma_occupied();
        }
        Some(ch)
    }

    /// Returns the underlying byte buffer: the UTF-8 encoding of the text,
    /// followed by zeros up to the capacity, whatever the unused storage held
    /// before.
    pub fn into_bytes(self) -> (bytes: [u8; INLINE_STRING_CAPACITY])
        ensures
            bytes@ == zero_padded(self@, INLINE_STRING_CAPACITY as int),
            bytes@.subrange(0, self.spec_len()) == self.spec_bytes(),
            forall|i: int| self.spec_len() <= i < INLINE_STRING_CAPACITY ==> bytes@[i] == 0,
    {
        proof {
            use_type_invariant(&self);
            self.lemma_occupied();
        }
        let mut bytes: [u8; INLINE_STRING_CAPACITY] = self.bytes;
        zero_from(&mut bytes, self.length as usize);
        assert(bytes@.subrange(0, self.spec_len()) =~= self.spec_bytes());
        bytes
    }

    /// Returns true if byte position `idx` lies on a character boundary of
    /// the text: at its start, at its end, or at the first byte of a
    /// character. A position past the end is no boundary.
    pub fn is_char_boundary(&self, idx: usize) -> (boundary: bool)
        ensures
            boundary == on_char_boundary(self@, idx as int),
    {
        proof {
            broadcast use group_utf8_lib;

            use_type_invariant(&*self);
            self.lemma_occupied();
        }
        let length: usize = self.length as usize;
        if idx == 0 || idx == length {
            true
        } else if idx > length {
            false
        } else {
            let b: u8 = self.bytes[idx];
            assert(b == self.occupied()[idx as int]);
            proof {
                is_char_boundary_iff_not_is_continuation_byte(self.occupied(), idx as int);
            }
            !(b >= 0x80 && b < 0xC0)
        }
    }

    /// Tests at run time what is proved of every `InlineString`: that the
    /// length is within the capacity and the occupied bytes are valid UTF-8.
    /// The answer is always `true`.
    pub fn assert_sanity(&self) -> (sane: bool)
        ensures
            sane,
            self.sane(),
    {
        proof {
            use_type_invariant(&*self);
            self.lemma_occupied();
        }
        let length: usize = self.length as usize;
        length <= INLINE_STRING_CAPACITY && core::str::from_utf8(
            slice_subrange(array_as_slice(&self.bytes), 0, length),
        ).is_ok()
    }

    /// The inline string that a conversion makes of `chars`: the text, in
    /// storage that holds zeros after it.
    pub closed spec fn spec_from(chars: Seq<char>) -> InlineString {
        InlineString {
            length: byte_len(chars) as u8,
            bytes: zeroed_except(encode_utf8(chars), byte_len(chars) as nat),
        }
    }

    /// A text that fits is the view of the string made of it.
    pub proof fn lemma_spec_from(chars: Seq<char>)
        requires
            byte_len(chars) <= INLINE_STRING_CAPACITY,
        ensures
            Self::spec_from(chars)@ == chars,
            Self::spec_from(chars).storage() == zero_padded(chars, INLINE_STRING_CAPACITY as int),
            Self::spec_from(chars).sane(),
    {
        broadcast use group_utf8_lib;

        let made = Self::spec_from(chars);
        lemma_zeroed_except(encode_utf8(chars), byte_len(chars) as nat);
        assert(made.occupied() =~= encode_utf8(chars));
        assert(made.storage() =~= zero_padded(chars, INLINE_STRING_CAPACITY as int));
        made.lemma_occupied();
    }

    /// Turns a string slice that fits into an `InlineString`.
    pub(crate) fn from_str_unchecked(s: &str) -> (ss: InlineString)
        requires
            byte_len(s@) <= INLINE_STRING_CAPACITY,
        ensures
            ss == Self::spec_from(s@),
            ss@ == s@,
            ss.storage() == zero_padded(s@, INLINE_STRING_CAPACITY as int),
            ss.sane(),
    {
        let source: &[u8] = s.as_bytes();
        let string_len: usize = source.len();
        let mut bytes: [u8; INLINE_STRING_CAPACITY] = [0u8; INLINE_STRING_CAPACITY];
        copy_into(&mut bytes, 0, source);
        proof {
            broadcast use group_utf8_lib;

            assert(bytes@.subrange(0, string_len as int) =~= source@);
            lemma_zeroed_except(source@, string_len as nat);
            assert(bytes =~= zeroed_except(source@, string_len as nat));
            Self::lemma_spec_from(s@);
        }
        InlineString { length: string_len as u8, bytes }
    }

    /// Views the text as a string slice.
    pub fn as_str(&self) -> (text: &str)
        ensures
            text@ == self@,
    {
        proof {
            broadcast use group_utf8_lib;

        }
        match core::str::from_utf8(self.as_bytes()) {
            Ok(text) => text,
            Err(_) => vstd::pervasive::unreached(),
        }
    }

    /// Copies the text into a growable `String`. This always succeeds.
    pub fn to_string(&self) -> (text: String)
        ensures
            text@ == self@,
    {
        self.as_str().to_owned()
    }

    /// Views the text between byte positions `start` and `end`.
    ///
    /// Both positions must lie on character boundaries, `start` not after
    /// `end`.
    pub fn slice(&self, start: usize, end: usize) -> (text: &str)
        requires
            start <= end,
            on_char_boundary(self@, start as int),
            on_char_boundary(self@, end as int),
        ensures
            text.spec_bytes() == self.spec_bytes().subrange(start as int, end as int),
            text@ == char_range(self@, start as int, end as int),
    {
        let bytes: &[u8] = slice_subrange(self.as_bytes(), start, end);
        proof {
            broadcast use group_utf8_lib;

            lemma_range_between_boundaries(self@, start as int, end as int);
        }
        let text: &str = match core::str::from_utf8(bytes) {
            Ok(text) => text,
            Err(_) => vstd::pervasive::unreached(),
        };
        proof {
            broadcast use group_utf8_lib;

            let range = char_range(self@, start as int, end as int);
            assert(decode_utf8(encode_utf8(text@)) == text@);
            assert(decode_utf8(encode_utf8(range)) == range);
        }
        text
    }

    /// Views the text before byte position `end`, which must lie on a
    /// character boundary.
    pub fn slice_to(&self, end: usize) -> (text: &str)
        requires
            on_char_boundary(self@, end as int),
        ensures
            text.spec_bytes() == self.spec_bytes().subrange(0, end as int),
            text@ == char_range(self@, 0, end as int),
    {
        proof {
            broadcast use group_utf8_lib;

        }
        self.slice(0, end)
    }

    /// Views the text from byte position `start` on, which must lie on a
    /// character boundary.
    pub fn slice_from(&self, start: usize) -> (text: &str)
        requires
            on_char_boundary(self@, start as int),
        ensures
            text.spec_bytes() == self.spec_bytes().subrange(start as int, self.spec_len()),
            text@ == char_range(self@, start as int, self.spec_len()),
    {
        proof {
            broadcast use group_utf8_lib;

        }
        self.slice(start, self.len())
    }

    /// Appends a string fragment, as a sink for formatted output does.
    ///
    /// Succeeds exactly when `push_str` does. The failure says only that the
    /// sink failed: that the cause was a lack of space is not carried over.
    pub fn write_str(&mut self, s: &str) -> (written: Result<(), core::fmt::Error>)
        ensures
            written is Ok <==> old(self).spec_len() + byte_len(s@) <= INLINE_STRING_CAPACITY,
            written is Ok ==> final(self)@ == old(self)@ + s@,
            written is Err ==> *final(self) == *old(self),
            final(self).sane(),
    {
        match self.push_str(s) {
            Ok(()) => Ok(()),
            Err(_) => Err(sink_failed()),
        }
    }

    /// Appends a character, as a sink for formatted output does.
    ///
    /// Succeeds exactly when `push` does. The failure says only that the
    /// sink failed: that the cause was a lack of space is not carried over.
    pub fn write_char(&mut self, ch: char) -> (written: Result<(), core::fmt::Error>)
        ensures
            written is Ok <==> old(self).spec_len() + char_width(ch) <= INLINE_STRING_CAPACITY,
            written is Ok ==> final(self)@ == old(self)@.push(ch),
            written is Err ==> *final(self) == *old(self),
            final(self).sane(),
    {
        match self.push(ch) {
            Ok(()) => Ok(()),
            Err(_) => Err(sink_failed()),
        }
    }
}

impl Clone for InlineString {
    /// Copies the string, storage and all.
    fn clone(&self) -> (cloned: InlineString)
        ensures
            cloned == *self,
    {
        proof {
            use_type_invariant(&*self);
        }
        InlineString { length: self.length, bytes: self.bytes }
    }
}

} // verus!
