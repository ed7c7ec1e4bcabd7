use inlinable_string::buffer::{copy_into, shift_left, shift_right, zero_from};
use inlinable_string::equality::bytes_equal;
use inlinable_string::scalar::{decode_char, encode_char, utf8_width};

#[test]
fn width_of_each_range() {
    assert_eq!(utf8_width('\0'), 1);
    assert_eq!(utf8_width('\u{7f}'), 1);
    assert_eq!(utf8_width('\u{80}'), 2);
    assert_eq!(utf8_width('\u{7ff}'), 2);
    assert_eq!(utf8_width('\u{800}'), 3);
    assert_eq!(utf8_width('\u{ffff}'), 3);
    assert_eq!(utf8_width('\u{10000}'), 4);
    assert_eq!(utf8_width('\u{10ffff}'), 4);
}

#[test]
fn encode_matches_exact_bytes() {
    assert_eq!(encode_char('a'), [0x61, 0, 0, 0]);
    assert_eq!(encode_char('\u{e9}'), [0xc3, 0xa9, 0, 0]);
    assert_eq!(encode_char('\u{20ac}'), [0xe2, 0x82, 0xac, 0]);
    assert_eq!(encode_char('\u{1f600}'), [0xf0, 0x9f, 0x98, 0x80]);
}

#[test]
fn encode_agrees_with_std() {
    for c in ['\0', 'a', '\u{7f}', '\u{80}', '\u{7ff}', '\u{800}', '\u{d7ff}', '\u{e000}',
        '\u{ffff}', '\u{10000}', '\u{10ffff}']
    {
        let mut buf = [0u8; 4];
        let expected = c.encode_utf8(&mut buf).as_bytes().to_vec();
        let width = utf8_width(c);
        assert_eq!(width, c.len_utf8());
        assert_eq!(&encode_char(c)[..width], &expected[..]);
    }
}

#[test]
fn decode_reads_char_and_width() {
    let text = "a\u{e9}\u{20ac}\u{1f600}";
    let bytes = text.as_bytes();
    assert_eq!(decode_char(bytes, 0), ('a', 1));
    assert_eq!(decode_char(bytes, 1), ('\u{e9}', 2));
    assert_eq!(decode_char(bytes, 3), ('\u{20ac}', 3));
    assert_eq!(decode_char(bytes, 6), ('\u{1f600}', 4));
}

#[test]
fn decode_inverts_encode() {
    for c in ['\0', '\u{7f}', '\u{80}', '\u{7ff}', '\u{800}', '\u{d7ff}', '\u{e000}',
        '\u{ffff}', '\u{10000}', '\u{10ffff}']
    {
        let encoded = encode_char(c);
        let width = utf8_width(c);
        assert_eq!(decode_char(&encoded[..width], 0), (c, width));
    }
}

#[test]
fn copy_into_overwrites_only_its_range() {
    let mut buf = [1u8, 2, 3, 4, 5, 6];
    copy_into(&mut buf, 2, &[9, 8]);
    assert_eq!(buf, [1, 2, 9, 8, 5, 6]);
    copy_into(&mut buf, 6, &[]);
    assert_eq!(buf, [1, 2, 9, 8, 5, 6]);
}

#[test]
fn shift_right_moves_overlapping_range() {
    let mut buf = [1u8, 2, 3, 4, 5, 6];
    shift_right(&mut buf, 1, 4, 2);
    assert_eq!(buf, [1, 2, 3, 2, 3, 4]);
}

#[test]
fn shift_left_moves_overlapping_range() {
    let mut buf = [1u8, 2, 3, 4, 5, 6];
    shift_left(&mut buf, 2, 6, 1);
    assert_eq!(buf, [1, 3, 4, 5, 6, 6]);
}

#[test]
fn zero_from_clears_the_tail() {
    let mut buf = [1u8, 2, 3, 4];
    zero_from(&mut buf, 1);
    assert_eq!(buf, [1, 0, 0, 0]);
    let mut full = [7u8, 7];
    zero_from(&mut full, 2);
    assert_eq!(full, [7, 7]);
}

#[test]
fn bytes_equal_compares_length_and_content() {
    assert!(bytes_equal(&[], &[]));
    assert!(bytes_equal(&[1, 2, 3], &[1, 2, 3]));
    assert!(!bytes_equal(&[1, 2, 3], &[1, 2, 4]));
    assert!(!bytes_equal(&[1, 2, 3], &[1, 2]));
    assert!(!bytes_equal(&[], &[0]));
}
