use inlinable_string::{
    InlineString, NotEnoughCapacityError, NotEnoughSpaceError, INLINE_STRING_CAPACITY,
};
use std::borrow::Cow;
use std::collections::hash_map::DefaultHasher;
use std::convert::TryFrom;
use std::hash::{Hash, Hasher};

#[test]
fn test_push_str() {
    let mut s = InlineString::new();
    assert!(s.push_str("small").is_ok());
    assert_eq!(s, "small");

    let long_str = "this is a really long string that is much larger than
                        INLINE_STRING_CAPACITY and so cannot be stored inline.";
    assert_eq!(s.push_str(long_str), Err(NotEnoughSpaceError));
    assert_eq!(s, "small");
}

#[test]
fn test_push() {
    let mut s = InlineString::new();

    for _ in 0..INLINE_STRING_CAPACITY {
        assert!(s.push('a').is_ok());
    }

    assert_eq!(s.push('a'), Err(NotEnoughSpaceError));
}

#[test]
fn test_insert() {
    let mut s = InlineString::new();

    for _ in 0..INLINE_STRING_CAPACITY {
        assert!(s.insert(0, 'a').is_ok());
    }

    assert_eq!(s.insert(0, 'a'), Err(NotEnoughSpaceError));
}

#[test]
fn test_write() {
    let mut s = InlineString::new();
    let mut normal_string = String::new();

    for _ in 0..INLINE_STRING_CAPACITY {
        assert!(s.write_str("a").is_ok());
        normal_string.push_str("a");
    }

    assert_eq!(s.write_str("a"), Err(std::fmt::Error));
    assert_eq!(&normal_string[..], &s[..]);
}

#[test]
fn write_char_fails_when_full() {
    let mut s = InlineString::try_from("0123456789012345678901").unwrap();
    assert_eq!(s.len(), INLINE_STRING_CAPACITY);
    assert_eq!(s.write_char('a'), Err(std::fmt::Error));
    assert_eq!(s, "0123456789012345678901");
    s.clear();
    assert_eq!(s.write_char('a'), Ok(()));
    assert_eq!(s, "a");
}

#[test]
fn capacity_is_twenty_two() {
    assert_eq!(INLINE_STRING_CAPACITY, 22);
}

#[test]
fn push_str_keeps_content_on_failure() {
    let mut s = InlineString::new();
    assert!(s.push_str("hi world").is_ok());
    assert_eq!(s, "hi world");

    assert_eq!(
        s.push_str("a really long string that is much bigger than the capacity"),
        Err(NotEnoughSpaceError)
    );
    assert_eq!(s, "hi world");
    assert_eq!(s.len(), 8);
    assert_eq!(s.as_bytes(), "hi world".as_bytes());
}

#[test]
fn push_str_failure_leaves_storage_untouched() {
    let mut s = InlineString::try_from("abcdefghijklmnopqrst").unwrap();
    let before = s.clone();
    assert_eq!(s.push_str("uvw"), Err(NotEnoughSpaceError));
    assert_eq!(s, before);
    assert_eq!(s.len(), 20);
    assert_eq!(s.into_bytes(), before.into_bytes());
}

#[test]
fn push_str_fills_to_capacity_exactly() {
    let mut s = InlineString::try_from("abcdefghijklmnopqrst").unwrap();
    assert_eq!(s.push_str("uv"), Ok(()));
    assert_eq!(s, "abcdefghijklmnopqrstuv");
    assert_eq!(s.len(), INLINE_STRING_CAPACITY);
    assert_eq!(s.push_str(""), Ok(()));
    assert_eq!(s.push_str("w"), Err(NotEnoughSpaceError));
}

#[test]
fn push_str_appends() {
    let mut s = InlineString::try_from("foo").unwrap();
    assert_eq!(s.push_str("bar"), Ok(()));
    assert_eq!(s, "foobar");
}

#[test]
fn push_appends_chars() {
    let mut s = InlineString::try_from("abc").unwrap();
    assert_eq!(s.push('1'), Ok(()));
    assert_eq!(s.push('2'), Ok(()));
    assert_eq!(s.push('3'), Ok(()));
    assert_eq!(s, "abc123");
}

#[test]
fn push_encodes_every_width() {
    let mut s = InlineString::new();
    assert_eq!(s.push('a'), Ok(()));
    assert_eq!(s.push('\u{e9}'), Ok(()));
    assert_eq!(s.push('\u{20ac}'), Ok(()));
    assert_eq!(s.push('\u{1f600}'), Ok(()));
    assert_eq!(s.len(), 10);
    assert_eq!(
        s.as_bytes(),
        [0x61, 0xc3, 0xa9, 0xe2, 0x82, 0xac, 0xf0, 0x9f, 0x98, 0x80]
    );
    assert_eq!(s, "a\u{e9}\u{20ac}\u{1f600}");
}

#[test]
fn push_wide_char_needs_its_whole_width() {
    let mut s = InlineString::try_from("abcdefghijklmnopqrst").unwrap();
    assert_eq!(s.push('\u{20ac}'), Err(NotEnoughSpaceError));
    assert_eq!(s, "abcdefghijklmnopqrst");
    assert_eq!(s.push('\u{e9}'), Ok(()));
    assert_eq!(s.len(), 22);
}

#[test]
fn insert_in_the_middle() {
    let mut s = InlineString::try_from("foo").unwrap();
    assert_eq!(s.insert(2, 'f'), Ok(()));
    assert!(s == "fofo");
    assert_eq!(s.len(), 4);
}

#[test]
fn insert_at_both_ends() {
    let mut s = InlineString::try_from("bc").unwrap();
    assert_eq!(s.insert(0, 'a'), Ok(()));
    assert_eq!(s.insert(3, 'd'), Ok(()));
    assert_eq!(s, "abcd");
}

#[test]
fn insert_wide_char_between_wide_chars() {
    let mut s = InlineString::try_from("\u{e9}\u{1f600}").unwrap();
    assert_eq!(s.insert(2, '\u{20ac}'), Ok(()));
    assert_eq!(s, "\u{e9}\u{20ac}\u{1f600}");
    assert_eq!(s.len(), 9);
}

#[test]
fn insert_keeps_content_on_failure() {
    let mut s = InlineString::try_from("abcdefghijklmnopqrstu").unwrap();
    assert_eq!(s.insert(3, '\u{e9}'), Err(NotEnoughSpaceError));
    assert_eq!(s, "abcdefghijklmnopqrstu");
    assert_eq!(s.insert(3, 'X'), Ok(()));
    assert_eq!(s, "abcXdefghijklmnopqrstu");
}

#[test]
fn remove_scenario() {
    let mut s = InlineString::try_from("foo").unwrap();
    assert_eq!(s.remove(0), 'f');
    assert_eq!(s, "oo");
    assert_eq!(s.len(), 2);
    assert_eq!(s.remove(0), 'o');
    assert_eq!(s, "o");
    assert_eq!(s.len(), 1);
}

#[test]
fn remove_each_position() {
    let mut s = InlineString::try_from("foo").unwrap();
    assert_eq!(s.remove(0), 'f');
    assert_eq!(s.remove(1), 'o');
    assert_eq!(s.remove(0), 'o');
    assert!(s.is_empty());
}

#[test]
fn remove_decodes_every_width() {
    let mut s = InlineString::try_from("a\u{e9}\u{20ac}\u{1f600}z").unwrap();
    assert_eq!(s.remove(6), '\u{1f600}');
    assert_eq!(s, "a\u{e9}\u{20ac}z");
    assert_eq!(s.remove(3), '\u{20ac}');
    assert_eq!(s, "a\u{e9}z");
    assert_eq!(s.remove(1), '\u{e9}');
    assert_eq!(s, "az");
    assert_eq!(s.remove(1), 'z');
    assert_eq!(s.remove(0), 'a');
    assert_eq!(s.len(), 0);
}

#[test]
fn remove_from_full_buffer() {
    let mut s = InlineString::try_from("0123456789012345678901").unwrap();
    assert_eq!(s.remove(21), '1');
    assert_eq!(s.remove(0), '0');
    assert_eq!(s, "12345678901234567890");
}

#[test]
fn insert_then_remove_restores() {
    let mut s = InlineString::try_from("h\u{e9}llo").unwrap();
    let before = s.clone();
    assert_eq!(s.insert(3, '\u{1f600}'), Ok(()));
    assert_eq!(s, "h\u{e9}\u{1f600}llo");
    assert_eq!(s.remove(3), '\u{1f600}');
    assert_eq!(s, before);
    assert_eq!(s.as_bytes(), before.as_bytes());
}

#[test]
fn push_then_pop_restores() {
    let mut s = InlineString::try_from("abc").unwrap();
    assert_eq!(s.push('\u{20ac}'), Ok(()));
    assert_eq!(s.pop(), Some('\u{20ac}'));
    assert_eq!(s, "abc");
    assert_eq!(s.len(), 3);
}

#[test]
fn pop_until_empty() {
    let mut s = InlineString::try_from("foo").unwrap();
    assert_eq!(s.pop(), Some('o'));
    assert_eq!(s.pop(), Some('o'));
    assert_eq!(s.pop(), Some('f'));
    assert_eq!(s.pop(), None);
    assert_eq!(s.pop(), None);
    assert!(s.is_empty());
}

#[test]
fn pop_decodes_every_width() {
    let mut s = InlineString::try_from("a\u{e9}\u{20ac}\u{1f600}").unwrap();
    assert_eq!(s.pop(), Some('\u{1f600}'));
    assert_eq!(s.len(), 6);
    assert_eq!(s.pop(), Some('\u{20ac}'));
    assert_eq!(s.len(), 3);
    assert_eq!(s.pop(), Some('\u{e9}'));
    assert_eq!(s.len(), 1);
    assert_eq!(s.pop(), Some('a'));
    assert_eq!(s.len(), 0);
}

#[test]
fn truncate_shortens() {
    let mut s = InlineString::try_from("hello").unwrap();
    s.truncate(2);
    assert_eq!(s, "he");
    assert_eq!(s.len(), 2);
}

#[test]
fn truncate_to_longer_is_noop() {
    let mut s = InlineString::try_from("hello").unwrap();
    s.truncate(5);
    assert_eq!(s, "hello");
    s.truncate(100);
    assert_eq!(s, "hello");
    assert_eq!(s.len(), 5);
}

#[test]
fn truncate_on_wide_char_boundary() {
    let mut s = InlineString::try_from("a\u{20ac}b").unwrap();
    s.truncate(4);
    assert_eq!(s, "a\u{20ac}");
    s.truncate(1);
    assert_eq!(s, "a");
}

#[test]
fn truncate_zero_then_push_str_is_like_new() {
    let mut a = InlineString::try_from("something else").unwrap();
    a.truncate(0);
    let ra = a.push_str("fresh text");
    let mut b = InlineString::new();
    let rb = b.push_str("fresh text");
    assert_eq!(ra, Ok(()));
    assert_eq!(ra, rb);
    assert_eq!(a, b);
    assert_eq!(a.as_bytes(), b.as_bytes());
    assert_eq!(a.into_bytes(), b.into_bytes());
}

#[test]
fn truncate_zero_then_too_long_push_str_is_like_new() {
    let mut a = InlineString::try_from("something else").unwrap();
    a.truncate(0);
    let ra = a.push_str("this text has more than twenty-two bytes");
    let mut b = InlineString::new();
    let rb = b.push_str("this text has more than twenty-two bytes");
    assert_eq!(ra, Err(NotEnoughSpaceError));
    assert_eq!(ra, rb);
    assert_eq!(a, b);
    assert!(a.is_empty());
}

#[test]
fn clear_empties() {
    let mut s = InlineString::try_from("foo").unwrap();
    s.clear();
    assert!(s.is_empty());
    assert_eq!(s.len(), 0);
    assert_eq!(s, "");
}

#[test]
fn len_counts_bytes() {
    let a = InlineString::try_from("foo").unwrap();
    assert_eq!(a.len(), 3);
    let b = InlineString::try_from("\u{20ac}").unwrap();
    assert_eq!(b.len(), 3);
}

#[test]
fn is_empty_follows_content() {
    let mut v = InlineString::new();
    assert!(v.is_empty());
    assert_eq!(v.push('a'), Ok(()));
    assert!(!v.is_empty());
}

#[test]
fn as_bytes_gives_encoding() {
    let s = InlineString::try_from("hello").unwrap();
    assert_eq!(s.as_bytes(), [104, 101, 108, 108, 111]);
}

#[test]
fn into_bytes_starts_with_content() {
    let s = InlineString::try_from("hello").unwrap();
    let bytes = s.into_bytes();
    assert_eq!(&bytes[0..5], [104, 101, 108, 108, 111]);
    assert_eq!(bytes.len(), INLINE_STRING_CAPACITY);
    assert!(bytes[5..].iter().all(|b| *b == 0));
}

#[test]
fn into_bytes_zeroes_stale_storage() {
    let mut s = InlineString::try_from("0123456789012345678901").unwrap();
    s.truncate(10);
    assert_eq!(s.remove(0), '0');
    assert_eq!(s.pop(), Some('9'));
    let bytes = s.into_bytes();
    let mut expected = [0u8; INLINE_STRING_CAPACITY];
    expected[..8].copy_from_slice("12345678".as_bytes());
    assert_eq!(bytes, expected);
}

#[test]
fn into_bytes_after_clear_is_all_zero() {
    let mut s = InlineString::try_from("not empty").unwrap();
    s.clear();
    assert_eq!(s.into_bytes(), [0u8; INLINE_STRING_CAPACITY]);
}

#[test]
fn into_bytes_is_independent_of_history() {
    let mut a = InlineString::try_from("abcdefghij").unwrap();
    assert_eq!(a.insert(3, '\u{e9}'), Ok(()));
    assert_eq!(a.remove(3), '\u{e9}');
    a.truncate(3);
    let b = InlineString::try_from("abc").unwrap();
    assert_eq!(a.into_bytes(), b.into_bytes());
}

#[test]
fn try_from_fits() {
    let s = InlineString::try_from("hello").unwrap();
    assert_eq!(s, "hello");
    assert_eq!(s.len(), 5);
    let empty = InlineString::try_from("").unwrap();
    assert!(empty.is_empty());
}

#[test]
fn try_from_exactly_capacity() {
    let text = "0123456789012345678901";
    assert_eq!(text.len(), INLINE_STRING_CAPACITY);
    let s = InlineString::try_from(text).unwrap();
    assert_eq!(s, text);
    assert_eq!(s.len(), INLINE_STRING_CAPACITY);
}

#[test]
fn try_from_too_long() {
    let text = "01234567890123456789012";
    assert_eq!(text.len(), INLINE_STRING_CAPACITY + 1);
    assert_eq!(InlineString::try_from(text), Err(NotEnoughCapacityError));
    // eleven characters of two bytes each fit; one more byte does not
    assert!(InlineString::try_from("\u{e9}\u{e9}\u{e9}\u{e9}\u{e9}\u{e9}\u{e9}\u{e9}\u{e9}\u{e9}\u{e9}").is_ok());
    assert_eq!(
        InlineString::try_from("\u{e9}\u{e9}\u{e9}\u{e9}\u{e9}\u{e9}\u{e9}\u{e9}\u{e9}\u{e9}\u{e9}a"),
        Err(NotEnoughCapacityError)
    );
}

#[test]
fn capacity_error_message() {
    assert_eq!(
        NotEnoughCapacityError.message(),
        "the length of the string is bigger than maximum capacity of `InlineString`"
    );
}

#[test]
fn default_is_empty() {
    let s = InlineString::default();
    assert!(s.is_empty());
    assert_eq!(s, InlineString::new());
}

#[test]
fn equality_ignores_stale_storage() {
    let mut a = InlineString::try_from("abcxyz").unwrap();
    a.truncate(3);
    let b = InlineString::try_from("abc").unwrap();
    assert_eq!(a, b);
    assert!(a == "abc");
    assert!("abc" == a);
    assert!(a == *"abc");
    assert!(*"abc" == a);
    assert!(a != "abd");
    assert!(a != "ab");
    assert_ne!(a, InlineString::try_from("abcd").unwrap());
}

#[test]
fn hash_is_that_of_the_text() {
    let mut a = InlineString::try_from("abcxyz").unwrap();
    a.truncate(3);
    let b = InlineString::try_from("abc").unwrap();
    let mut ha = DefaultHasher::new();
    a.hash(&mut ha);
    let mut hb = DefaultHasher::new();
    b.hash(&mut hb);
    let mut hs = DefaultHasher::new();
    "abc".hash(&mut hs);
    assert_eq!(ha.finish(), hb.finish());
    assert_eq!(ha.finish(), hs.finish());
}

#[test]
fn as_str_and_to_string() {
    let s = InlineString::try_from("h\u{e9}llo").unwrap();
    assert_eq!(s.as_str(), "h\u{e9}llo");
    assert_eq!(s.to_string(), String::from("h\u{e9}llo"));
    let text: &str = s.as_ref();
    assert_eq!(text, "h\u{e9}llo");
    let bytes: &[u8] = s.as_ref();
    assert_eq!(bytes, "h\u{e9}llo".as_bytes());
    assert_eq!(&*s, "h\u{e9}llo");
}

#[test]
fn slices_follow_byte_positions() {
    let s = InlineString::try_from("a\u{20ac}bc").unwrap();
    assert_eq!(s.slice(1, 4), "\u{20ac}");
    assert_eq!(s.slice(0, 0), "");
    assert_eq!(s.slice(0, 6), "a\u{20ac}bc");
    assert_eq!(s.slice_to(4), "a\u{20ac}");
    assert_eq!(s.slice_from(4), "bc");
    assert_eq!(s.slice_from(6), "");
}

#[test]
fn char_boundaries() {
    let s = InlineString::try_from("a\u{20ac}b").unwrap();
    assert!(s.is_char_boundary(0));
    assert!(s.is_char_boundary(1));
    assert!(!s.is_char_boundary(2));
    assert!(!s.is_char_boundary(3));
    assert!(s.is_char_boundary(4));
    assert!(s.is_char_boundary(5));
    assert!(!s.is_char_boundary(6));
    for i in 0..8 {
        assert_eq!(s.is_char_boundary(i), "a\u{20ac}b".is_char_boundary(i));
    }
}

#[test]
fn content_stays_valid_utf8_under_mutation() {
    let mut s = InlineString::new();
    let chars = ['a', '\u{e9}', '\u{20ac}', '\u{1f600}', 'z'];
    let mut mirror = String::new();
    for round in 0..40usize {
        let c = chars[round % chars.len()];
        match round % 4 {
            0 => {
                if s.push(c).is_ok() {
                    mirror.push(c);
                }
            }
            1 => {
                if s.insert(0, c).is_ok() {
                    mirror.insert(0, c);
                }
            }
            2 => {
                if !s.is_empty() {
                    assert_eq!(s.remove(0), mirror.remove(0));
                }
            }
            _ => {
                let mut cut = s.len() / 2;
                while !s.is_char_boundary(cut) {
                    cut -= 1;
                }
                s.truncate(cut);
                mirror.truncate(cut);
            }
        }
        assert!(s.assert_sanity());
        assert!(std::str::from_utf8(s.as_bytes()).is_ok());
        assert!(s.len() <= INLINE_STRING_CAPACITY);
        assert_eq!(s, mirror.as_str());
    }
}

#[test]
fn equality_with_cow() {
    let s = InlineString::try_from("h\u{e9}llo").unwrap();
    let borrowed: Cow<str> = Cow::Borrowed("h\u{e9}llo");
    let owned: Cow<str> = Cow::Owned(String::from("h\u{e9}llo"));
    let other: Cow<str> = Cow::Borrowed("hello");
    assert!(s == borrowed);
    assert!(borrowed == s);
    assert!(s == owned);
    assert!(owned == s);
    assert!(s != other);
    assert!(other != s);
}

#[test]
fn clone_is_equal_and_independent() {
    let mut a = InlineString::try_from("abc").unwrap();
    let b = a.clone();
    assert_eq!(a.push('d'), Ok(()));
    assert_eq!(a, "abcd");
    assert_eq!(b, "abc");
}
