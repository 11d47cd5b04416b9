//! Packet headers.

use rdpcore::DecodeError;
use rdpcore::cursor::ReadCursor;
use rdpcore::tpkt::{HEADER_SIZE, TpktHeader};

#[test]
fn round_trip() {
    let header = TpktHeader { packet_length: 42 };
    let mut buf = Vec::new();
    header.write(&mut buf);
    assert_eq!(buf, [0x03, 0x00, 0x00, 0x2a]);

    let mut cursor = ReadCursor::new(&buf);
    let decoded = TpktHeader::decode(&mut cursor).unwrap();
    assert_eq!(decoded, header);
    assert_eq!(cursor.pos(), HEADER_SIZE);
}

#[test]
fn rejects_unsupported_version() {
    let buf = [0x02, 0x00, 0x00, 0x07];
    let mut cursor = ReadCursor::new(&buf);
    assert!(matches!(
        TpktHeader::decode(&mut cursor),
        Err(DecodeError::InvalidValue { field: "tpkt.version", .. })
    ));
}

#[test]
fn rejects_truncated_header() {
    let buf = [0x03, 0x00];
    let mut cursor = ReadCursor::new(&buf);
    assert!(matches!(TpktHeader::decode(&mut cursor), Err(DecodeError::NotEnoughBytes(_))));
}
