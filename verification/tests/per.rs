//! Compact lengths, numbers and strings.

use rdpcore::cursor::ReadCursor;
use rdpcore::per::{
    read_length, read_numeric_string, read_object_id, read_octet_string, read_u16, read_u32,
    write_length, write_numeric_string, write_object_id, write_octet_string, write_u16, write_u32,
};

#[test]
fn length_round_trip_short_and_long_form() {
    for len in [0usize, 0x7F, 0x80, 0x1234] {
        let mut buf = Vec::new();
        write_length(&mut buf, len);
        let mut cursor = ReadCursor::new(&buf);
        assert_eq!(read_length(&mut cursor).unwrap(), len);
    }
}

#[test]
fn u16_constrained_round_trip() {
    let mut buf = Vec::new();
    write_u16(&mut buf, 1003, 1001);
    assert_eq!(buf, [0x00, 0x02]);
    let mut cursor = ReadCursor::new(&buf);
    assert_eq!(read_u16(&mut cursor, 1001).unwrap(), 1003);
}

#[test]
fn u32_round_trip_all_widths() {
    for value in [0u32, 0xFF, 0x100, 0xFFFF, 0x10000, 0xFFFF_FFFF] {
        let mut buf = Vec::new();
        write_u32(&mut buf, value);
        let mut cursor = ReadCursor::new(&buf);
        assert_eq!(read_u32(&mut cursor).unwrap(), value);
    }
}

#[test]
fn object_id_round_trip() {
    let id = [0, 0, 20, 124, 0, 1];
    let mut buf = Vec::new();
    write_object_id(&mut buf, id);
    assert_eq!(buf, [0x05, 0x00, 0x14, 0x7C, 0x00, 0x01]);
    let mut cursor = ReadCursor::new(&buf);
    assert_eq!(read_object_id(&mut cursor).unwrap(), id);
}

#[test]
fn numeric_string_round_trip_matches_known_example() {
    // The conference name "1", min=1 -> `00 10`.
    let mut buf = Vec::new();
    write_numeric_string(&mut buf, "1", 1);
    assert_eq!(buf, [0x00, 0x10]);

    let mut cursor = ReadCursor::new(&buf);
    assert_eq!(read_numeric_string(&mut cursor, 1).unwrap(), "1");
}

#[test]
fn octet_string_round_trip_with_min() {
    let mut buf = Vec::new();
    write_octet_string(&mut buf, b"Duca", 4);
    assert_eq!(buf, [0x00, b'D', b'u', b'c', b'a']);
    let mut cursor = ReadCursor::new(&buf);
    assert_eq!(read_octet_string(&mut cursor, 4).unwrap(), b"Duca");
}
