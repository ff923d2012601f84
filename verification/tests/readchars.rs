use roolz::compiler::readchars::Error;
use roolz::compiler::readchars::ReadChars;

#[test]
fn decodes_each_width_in_order() {
    // 1-, 2-, 3- and 4-byte encodings, in order.
    let s = "a\u{e9}\u{20ac}\u{1f600}";
    let mut chars = ReadChars::from(s.as_bytes().to_vec());
    assert!(matches!(chars.next(), Some(Ok('a'))));
    assert!(matches!(chars.next(), Some(Ok('\u{e9}'))));
    assert!(matches!(chars.next(), Some(Ok('\u{20ac}'))));
    assert!(matches!(chars.next(), Some(Ok('\u{1f600}'))));
    assert!(chars.next().is_none());
    assert!(chars.next().is_none());
}

#[test]
fn truncated_tail_yields_one_error_then_nothing() {
    // 'a' followed by the first byte of a 2-byte encoding.
    let mut chars = ReadChars::from(vec![0x61, 0xc3]);
    assert!(matches!(chars.next(), Some(Ok('a'))));
    assert!(matches!(chars.next(), Some(Err(Error::Utf8Error))));
    assert!(chars.next().is_none());
    assert!(chars.next().is_none());
}

#[test]
fn lone_continuation_byte_is_an_error() {
    let mut chars = ReadChars::from(vec![0x80]);
    assert!(matches!(chars.next(), Some(Err(Error::Utf8Error))));
    assert!(chars.next().is_none());
}

#[test]
fn overlong_encoding_is_an_error() {
    // 0xC0 0xAF would be an overlong encoding of '/'.
    let mut chars = ReadChars::from(vec![0xc0, 0xaf]);
    assert!(matches!(chars.next(), Some(Err(Error::Utf8Error))));
}

#[test]
fn surrogate_encoding_is_an_error() {
    // 0xED 0xA0 0x80 would encode the surrogate U+D800.
    let mut chars = ReadChars::from(vec![0xed, 0xa0, 0x80]);
    assert!(matches!(chars.next(), Some(Err(Error::Utf8Error))));
}

#[test]
fn largest_scalar_decodes() {
    let mut chars = ReadChars::from(vec![0xf4, 0x8f, 0xbf, 0xbf]);
    assert!(matches!(chars.next(), Some(Ok('\u{10ffff}'))));
    assert!(chars.next().is_none());
}

#[test]
fn beyond_largest_scalar_is_an_error() {
    let mut chars = ReadChars::from(vec![0xf4, 0x90, 0x80, 0x80]);
    assert!(matches!(chars.next(), Some(Err(Error::Utf8Error))));
}

#[test]
fn empty_input_ends_cleanly() {
    let mut chars = ReadChars::from(Vec::new());
    assert!(chars.next().is_none());
}
