//! Data messages that end the connection sequence.

use rdpcore::finalization::{
    ControlPdu, DataPdu, FontPdu, STREAM_UNDEFINED, ShareDataPduType, SynchronizePdu,
};

#[test]
fn decodes_mstsc_synchronize_with_header_inclusive_uncompressed_length() {
    // uncompressedLength is 8 here: the last 4 bytes of the Share Data Header and
    // the 4 bytes of the body, not the body alone.
    let user_data: &[u8] = &[
        0x16, 0x00, 0x17, 0x00, 0xea, 0x03, 0x00, 0x00, 0x01, 0x00,
        0x00, 0x01, 0x08, 0x00, 0x1f, 0x00, 0x00, 0x00,
        0x01, 0x00, 0xeb, 0x03,
    ];
    let decoded = DataPdu::decode(user_data).unwrap();
    assert_eq!(decoded.pdu_type2, ShareDataPduType::Synchronize);
    assert_eq!(
        SynchronizePdu::decode_body(&decoded.body).unwrap(),
        SynchronizePdu { target_user: 1003 }
    );
}

#[test]
fn synchronize_round_trip_via_data_pdu() {
    let pdu = DataPdu {
        share_id: 0x1000,
        pdu_source: 1003,
        stream_id: STREAM_UNDEFINED,
        pdu_type2: ShareDataPduType::Synchronize,
        body: SynchronizePdu { target_user: 0 }.encode_body(),
    };
    let encoded = pdu.encode();
    let decoded = DataPdu::decode(&encoded).unwrap();
    assert_eq!(decoded, pdu);
    assert_eq!(
        SynchronizePdu::decode_body(&decoded.body).unwrap(),
        SynchronizePdu { target_user: 0 }
    );
}

#[test]
fn control_round_trip_via_data_pdu() {
    let control = ControlPdu {
        action: ControlPdu::GRANTED_CONTROL,
        grant_id: 1002,
        control_id: 0x03EA,
    };
    let pdu = DataPdu {
        share_id: 0x1000,
        pdu_source: 1003,
        stream_id: STREAM_UNDEFINED,
        pdu_type2: ShareDataPduType::Control,
        body: control.encode_body(),
    };
    let decoded = DataPdu::decode(&pdu.encode()).unwrap();
    assert_eq!(ControlPdu::decode_body(&decoded.body).unwrap(), control);
}

#[test]
fn font_map_default_round_trip() {
    let font_map = FontPdu::font_map_default();
    assert_eq!(
        FontPdu::decode_body(&font_map.encode_body()).unwrap(),
        font_map
    );
    assert_eq!(font_map.flags, FontPdu::FIRST | FontPdu::LAST);
    assert_eq!(font_map.entry_size, 4);
}

#[test]
fn data_pdu_tolerates_trailing_padding() {
    let mut encoded = DataPdu {
        share_id: 0x1000,
        pdu_source: 1003,
        stream_id: STREAM_UNDEFINED,
        pdu_type2: ShareDataPduType::FontList,
        body: FontPdu {
            number_fonts: 0,
            total_num_fonts: 0,
            flags: FontPdu::FIRST | FontPdu::LAST,
            entry_size: 0x32,
        }
        .encode_body(),
    }
    .encode();
    encoded.extend_from_slice(&[0xAA; 4]); // pretend padding some client tacked on
    let decoded = DataPdu::decode(&encoded).unwrap();
    assert_eq!(decoded.body.len(), 8);
}
