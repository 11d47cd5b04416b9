//! Tag-length-value integers, booleans and strings.

use rdpcore::ber::{
    read_application_tag, read_boolean, read_integer, read_octet_string, write_application_tag,
    write_boolean, write_integer, write_length, write_octet_string,
};
use rdpcore::cursor::ReadCursor;

#[test]
fn integer_round_trip_all_size_classes() {
    for value in [0u32, 0x7F, 0x80, 0x7FFF, 0x8000, 0x007F_FFFF, 0x0080_0000, 0xFFFF_FFFF] {
        let mut buf = Vec::new();
        write_integer(&mut buf, value);
        let mut cursor = ReadCursor::new(&buf);
        assert_eq!(read_integer(&mut cursor).unwrap(), value, "value {value:#x}");
    }
}

#[test]
fn boolean_round_trip() {
    for value in [true, false] {
        let mut buf = Vec::new();
        write_boolean(&mut buf, value);
        let mut cursor = ReadCursor::new(&buf);
        assert_eq!(read_boolean(&mut cursor).unwrap(), value);
    }
}

#[test]
fn octet_string_round_trip() {
    let mut buf = Vec::new();
    write_octet_string(&mut buf, b"hello");
    let mut cursor = ReadCursor::new(&buf);
    assert_eq!(read_octet_string(&mut cursor).unwrap(), b"hello");
}

#[test]
fn long_form_length() {
    let mut buf = Vec::new();
    write_length(&mut buf, 200);
    assert_eq!(buf, [0x81, 200]);

    let mut buf = Vec::new();
    write_length(&mut buf, 300);
    assert_eq!(buf, [0x82, 0x01, 0x2C]);
}

#[test]
fn application_tag_round_trip() {
    let mut buf = Vec::new();
    write_application_tag(&mut buf, 0x65, 10);
    assert_eq!(&buf[..2], [0x7F, 0x65]);

    let mut cursor = ReadCursor::new(&buf);
    assert_eq!(read_application_tag(&mut cursor, 0x65).unwrap(), 10);
}
