//! UTF-16 text.

use rdpcore::utf16::{decode_units, encode_units, read_fixed, write_fixed};

#[test]
fn write_fixed_pads_to_exact_byte_length() {
    let mut out = Vec::new();
    write_fixed(&mut out, "ab", 8);
    assert_eq!(out.len(), 8);
    assert_eq!(read_fixed(&out), "ab");
}

#[test]
fn read_fixed_stops_at_nul() {
    let mut out = Vec::new();
    write_fixed(&mut out, "hello", 12);
    assert_eq!(read_fixed(&out), "hello");
}

#[test]
fn encode_decode_units_round_trip() {
    let s = "naïve";
    let bytes = encode_units(s);
    assert_eq!(decode_units(&bytes), s);
}

#[test]
fn encode_units_is_utf16le() {
    let bytes = encode_units("A");
    assert_eq!(bytes, [b'A', 0]);
}

#[test]
fn a_fixed_field_always_ends_with_a_nul() {
    let mut out = Vec::new();
    write_fixed(&mut out, "abcdef", 8);
    assert_eq!(out, [b'a', 0, b'b', 0, b'c', 0, 0, 0]);
    assert_eq!(read_fixed(&out), "abc");
}

#[test]
fn what_is_no_text_is_replaced() {
    // Half of a pair, and a unit after it.
    assert_eq!(decode_units(&[0x3D, 0xD8, b'a', 0]), "\u{FFFD}a");
    let smile = encode_units("\u{1F600}");
    assert_eq!(smile, [0x3D, 0xD8, 0x00, 0xDE]);
    assert_eq!(decode_units(&smile), "\u{1F600}");
}

#[test]
fn a_fixed_field_has_exactly_its_length() {
    for byte_len in 0..12 {
        let mut out = Vec::new();
        write_fixed(&mut out, "abcdef", byte_len);
        assert_eq!(out.len(), byte_len);
        if byte_len >= 2 {
            // One NUL unit at least ends it.
            assert_eq!(out[byte_len / 2 * 2 - 2..], vec![0; 2 + byte_len % 2][..]);
        }
    }
}
