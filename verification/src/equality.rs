//! Equality of inline strings, with each other and with string slices.
//!
//! Two strings are equal when they hold the same characters. Storage that
//! lies after the text takes no part in the comparison.

use vstd::prelude::*;
use std::borrow::Cow;
use vstd::utf8::*;
use vstd::std_specs::cmp::PartialEqSpecImpl;
use crate::inline_string::InlineString;

verus! {

/// Compares two byte slices: true exactly when they have the same length and
/// the same bytes.
pub fn bytes_equal(a: &[u8], b: &[u8]) -> (equal: bool)
    ensures
        equal == (a@ == b@),
{
    if a.len() != b.len() {
        return false;
    }
    let mut i: usize = 0;
    while i < a.len()
        invariant
            a@.len() == b@.len(),
            i <= a@.len(),
            a@.subrange(0, i as int) == b@.subrange(0, i as int),
        decreases a@.len() - i,
    {
        if a[i] != b[i] {
            assert(a@[i as int] != b@[i as int]);
            return false;
        }
        assert(a@.subrange(0, i + 1) =~= a@.subrange(0, i as int).push(a@[i as int]));
        assert(b@.subrange(0, i + 1) =~= b@.subrange(0, i as int).push(b@[i as int]));
        i += 1;
    }
    assert(a@ =~= a@.subrange(0, i as int));
    assert(b@ =~= b@.subrange(0, i as int));
    true
}

/// Two texts are the same exactly when their encodings are the same.
pub proof fn lemma_same_bytes_same_chars(a: Seq<char>, b: Seq<char>)
    ensures
        (encode_utf8(a) == encode_utf8(b)) <==> (a == b),
{
    broadcast use group_utf8_lib;

    assert(decode_utf8(encode_utf8(a)) == a);
    assert(decode_utf8(encode_utf8(b)) == b);
}

impl PartialEq for InlineString {
    fn eq(&self, other: &InlineString) -> (equal: bool) {
        proof {
            lemma_same_bytes_same_chars(self@, other@);
        }
        bytes_equal(self.as_bytes(), other.as_bytes())
    }
}

impl PartialEqSpecImpl for InlineString {
    open spec fn obeys_eq_spec() -> bool {
        true
    }

    open spec fn eq_spec(&self, other: &InlineString) -> bool {
        self@ == other@
    }
}

impl Eq for InlineString {

}

impl PartialEq<str> for InlineString {
    fn eq(&self, other: &str) -> (equal: bool) {
        proof {
            lemma_same_bytes_same_chars(self@, other@);
        }
        bytes_equal(self.as_bytes(), other.as_bytes())
    }
}

impl PartialEqSpecImpl<str> for InlineString {
    open spec fn obeys_eq_spec() -> bool {
        true
    }

    open spec fn eq_spec(&self, other: &str) -> bool {
        self@ == other@
    }
}

impl<'a> PartialEq<&'a str> for InlineString {
    fn eq(&self, other: &&'a str) -> (equal: bool) {
        proof {
            lemma_same_bytes_same_chars(self@, other@);
        }
        bytes_equal(self.as_bytes(), other.as_bytes())
    }
}

impl<'a> PartialEqSpecImpl<&'a str> for InlineString {
    open spec fn obeys_eq_spec() -> bool {
        true
    }

    open spec fn eq_spec(&self, other: &&'a str) -> bool {
        self@ == other@
    }
}

impl PartialEq<InlineString> for str {
    fn eq(&self, other: &InlineString) -> (equal: bool) {
        proof {
            lemma_same_bytes_same_chars(self@, other@);
        }
        bytes_equal(self.as_bytes(), other.as_bytes())
    }
}

impl PartialEqSpecImpl<InlineString> for str {
    open spec fn obeys_eq_spec() -> bool {
        true
    }

    open spec fn eq_spec(&self, other: &InlineString) -> bool {
        self@ == other@
    }
}

impl<'a> PartialEq<InlineString> for &'a str {
    fn eq(&self, other: &InlineString) -> (equal: bool) {
        proof {
            lemma_same_bytes_same_chars(self@, other@);
        }
        bytes_equal(self.as_bytes(), other.as_bytes())
    }
}

impl<'a> PartialEqSpecImpl<InlineString> for &'a str {
    open spec fn obeys_eq_spec() -> bool {
        true
    }

    open spec fn eq_spec(&self, other: &InlineString) -> bool {
        self@ == other@
    }
}

impl<'a> PartialEq<Cow<'a, str>> for InlineString {
    fn eq(&self, other: &Cow<'a, str>) -> (equal: bool) {
        proof {
            lemma_same_bytes_same_chars(self@, other@);
        }
        match other {
            Cow::Borrowed(text) => bytes_equal(self.as_bytes(), text.as_bytes()),
            Cow::Owned(text) => bytes_equal(self.as_bytes(), text.as_str().as_bytes()),
        }
    }
}

impl<'a> PartialEqSpecImpl<Cow<'a, str>> for InlineString {
    open spec fn obeys_eq_spec() -> bool {
        true
    }

    open spec fn eq_spec(&self, other: &Cow<'a, str>) -> bool {
        self@ == other@
    }
}

impl<'a> PartialEq<InlineString> for Cow<'a, str> {
    fn eq(&self, other: &InlineString) -> (equal: bool) {
        proof {
            lemma_same_bytes_same_chars(self@, other@);
        }
        match self {
            Cow::Borrowed(text) => bytes_equal(text.as_bytes(), other.as_bytes()),
            Cow::Owned(text) => bytes_equal(text.as_str().as_bytes(), other.as_bytes()),
        }
    }
}

impl<'a> PartialEqSpecImpl<InlineString> for Cow<'a, str> {
    open spec fn obeys_eq_spec() -> bool {
        true
    }

    open spec fn eq_spec(&self, other: &InlineString) -> bool {
        self@ == other@
    }
}

} // verus!
