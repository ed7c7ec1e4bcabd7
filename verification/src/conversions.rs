//! Conversions between inline strings and string slices.

use vstd::prelude::*;
use vstd::std_specs::convert::TryFromSpecImpl;
use crate::errors::NotEnoughCapacityError;
use crate::inline_string::{InlineString, INLINE_STRING_CAPACITY};
use crate::model::byte_len;
use crate::std_calls::hash_text;

verus! {

/// True when the string slice `text` holds the characters `chars`.
pub open spec fn holds_text(text: &str, chars: Seq<char>) -> bool {
    text@ == chars
}

/// True when the slice `slice` holds the bytes `bytes`.
pub open spec fn holds_bytes(slice: &[u8], bytes: Seq<u8>) -> bool {
    slice@ == bytes
}

impl<'a> TryFrom<&'a str> for InlineString {
    type Error = NotEnoughCapacityError;

    /// Copies a string slice into an inline string. Succeeds exactly when
    /// the slice is no longer than the capacity.
    fn try_from(string: &'a str) -> (converted: Result<InlineString, NotEnoughCapacityError>)
        ensures
            converted is Ok <==> byte_len(string@) <= INLINE_STRING_CAPACITY,
            converted is Ok ==> converted->Ok_0@ == string@,
            converted is Ok ==> converted->Ok_0.spec_len() == byte_len(string@),
            converted is Ok ==> converted->Ok_0 == InlineString::spec_from(string@),
            converted is Ok ==> converted->Ok_0.sane(),
    {
        if string.as_bytes().len() <= INLINE_STRING_CAPACITY {
            Ok(InlineString::from_str_unchecked(string))
        } else {
            Err(NotEnoughCapacityError)
        }
    }
}

impl<'a> TryFromSpecImpl<&'a str> for InlineString {
    open spec fn obeys_try_from_spec() -> bool {
        true
    }

    open spec fn try_from_spec(string: &'a str) -> Result<InlineString, NotEnoughCapacityError> {
        if byte_len(string@) <= INLINE_STRING_CAPACITY {
            Ok(InlineString::spec_from(string@))
        } else {
            Err(NotEnoughCapacityError)
        }
    }
}

impl Default for InlineString {
    /// The empty string.
    fn default() -> (s: InlineString)
        ensures
            s@ == Seq::<char>::empty(),
            s.sane(),
    {
        InlineString::new()
    }
}

impl core::ops::Deref for InlineString {
    type Target = str;

    /// The text as a string slice.
    fn deref(&self) -> (text: &str)
        ensures
            text@ == self@,
    {
        self.as_str()
    }
}

impl AsRef<str> for InlineString {
    /// The text as a string slice.
    fn as_ref(&self) -> (text: &str)
        ensures
            holds_text(text, self@),
    {
        self.as_str()
    }
}

impl AsRef<[u8]> for InlineString {
    /// The bytes of the text.
    fn as_ref(&self) -> (bytes: &[u8])
        ensures
            holds_bytes(bytes, self.spec_bytes()),
    {
        self.as_bytes()
    }
}

impl core::hash::Hash for InlineString {
    /// Feeds the text to `hasher` as a string slice, so that an inline
    /// string hashes as the string slice of its text does, whatever the
    /// storage after the text holds.
    fn hash<H: core::hash::Hasher>(&self, hasher: &mut H) {
        hash_text(self.as_str(), hasher)
    }
}

} // verus!
