use cursebox::utf8::{decode, encode};

#[test]
fn decode_euro_sign() {
    assert_eq!(decode(&[0xE2, 0x82, 0xAC]), Some((0x20AC, 3)));
}

#[test]
fn decode_ascii() {
    assert_eq!(decode(b"a"), Some((0x61, 1)));
    assert_eq!(decode(b"ab"), Some((0x61, 1)));
}

#[test]
fn decode_empty_is_none() {
    assert_eq!(decode(&[]), None);
}

#[test]
fn decode_truncated_is_none() {
    assert_eq!(decode(&[0xE2, 0x82]), None);
    assert_eq!(decode(&[0xC3]), None);
    assert_eq!(decode(&[0xF0, 0x9F, 0x98]), None);
}

#[test]
fn decode_two_and_four_bytes() {
    assert_eq!(decode(&[0xC3, 0xA9]), Some((0xE9, 2)));
    assert_eq!(decode(&[0xF0, 0x9F, 0x98, 0x80]), Some((0x1F600, 4)));
}

#[test]
fn decode_long_forms() {
    assert_eq!(decode(&[0xF8, 0x80, 0x80, 0x80, 0x81]), Some((1, 5)));
    assert_eq!(decode(&[0xFC, 0x80, 0x80, 0x80, 0x80, 0x82]), Some((2, 6)));
    assert_eq!(decode(&[0xFD, 0xBF, 0xBF, 0xBF, 0xBF, 0xBF]), Some((0x7FFF_FFFF, 6)));
}

#[test]
fn decode_does_not_check_continuation_bytes() {
    assert_eq!(decode(&[0xC3, 0x41]), Some((0xC1, 2)));
    assert_eq!(decode(&[0x80]), Some((0, 1)));
    assert_eq!(decode(&[0xFF]), Some((0x7F, 1)));
}

#[test]
fn encode_then_decode() {
    for &c in &['a', 'é', '€', '\u{1F600}', '\u{7FF}', '\u{800}', '\u{FFFF}', '\u{10000}', '\u{10FFFF}'] {
        let mut out = Vec::new();
        encode(c, &mut out);
        let mut expected = [0u8; 4];
        assert_eq!(out.as_slice(), c.encode_utf8(&mut expected).as_bytes());
        assert_eq!(decode(&out), Some((c as u32, out.len())));
    }
}

#[test]
fn encode_appends() {
    let mut out = vec![1u8, 2];
    encode('X', &mut out);
    assert_eq!(out, vec![1, 2, b'X']);
}
