//! Transport unit headers.

use rdpcore::DecodeError;
use rdpcore::cursor::ReadCursor;
use rdpcore::tpdu::{TpduCode, TpduHeader};

#[test]
fn connection_request_round_trip() {
    let header = TpduHeader::for_pdu(TpduCode::connection_request(), 8);
    assert_eq!(header.li, 6 + 8);

    let mut buf = Vec::new();
    header.write(&mut buf);
    assert_eq!(buf, [6 + 8, 0xE0, 0, 0, 0, 0, 0]);

    let mut cursor = ReadCursor::new(&buf);
    let decoded = TpduHeader::decode(&mut cursor, TpduCode::connection_request()).unwrap();
    assert_eq!(decoded, header);
    assert_eq!(decoded.variable_part_size(), 8);
}

#[test]
fn data_tpdu_round_trip() {
    let header = TpduHeader::for_pdu(TpduCode::data(), 0);
    assert_eq!(header.li, 2);

    let mut buf = Vec::new();
    header.write(&mut buf);
    assert_eq!(buf, [2, 0xF0, 0x80]);

    let mut cursor = ReadCursor::new(&buf);
    let decoded = TpduHeader::decode(&mut cursor, TpduCode::data()).unwrap();
    assert_eq!(decoded, header);
}

#[test]
fn rejects_wrong_code() {
    let mut buf = Vec::new();
    TpduHeader::for_pdu(TpduCode::connection_request(), 8).write(&mut buf);

    let mut cursor = ReadCursor::new(&buf);
    assert!(matches!(
        TpduHeader::decode(&mut cursor, TpduCode::connection_confirm()),
        Err(DecodeError::InvalidValue { field: "tpdu.code", .. })
    ));
}
