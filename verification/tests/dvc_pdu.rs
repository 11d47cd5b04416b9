//! Messages of the dynamic channel carrier.

use rdpcore::cursor::WriteBuf;
use rdpcore::dvc::pdu::{
    ClientMessage, CreateResponse, MAX_DATA_SIZE, decode_client_message, encode_capability_request,
    encode_channel_payload, encode_close, encode_create_request, encode_data,
};

#[test]
fn capability_request_has_no_channel_id_and_v2_charges() {
    let encoded = encode_capability_request();
    // header(1) + pad(1) + version(2) + 4 charges(2 each) = 12
    assert_eq!(encoded.len(), 12);
    assert_eq!(encoded[0], 0x05 << 4); // cmd=Capability, sp=0, cb_id=0
}

#[test]
fn create_request_round_trips_as_create_response_shape() {
    let encoded = encode_create_request(7, "ECHO");
    assert_eq!(encoded[0], (0x01 << 4)); // cb_id=0 since 7 fits in a u8
    assert_eq!(&encoded[2..6], b"ECHO");
    assert_eq!(encoded[6], 0); // NUL terminator
}

#[test]
fn create_response_decode() {
    let mut raw = Vec::new();
    raw.write_u8(0x01 << 4);
    raw.write_u8(7);
    raw.write_u32_le(0);
    let decoded = decode_client_message(&raw).unwrap();
    assert_eq!(
        decoded,
        ClientMessage::CreateResponse(CreateResponse {
            channel_id: 7,
            creation_status: 0
        })
    );
    let ClientMessage::CreateResponse(cr) = decoded else { unreachable!() };
    assert!(cr.is_ok());
}

#[test]
fn capability_response_decode() {
    let mut raw = Vec::new();
    raw.write_u8(0x05 << 4);
    raw.write_u8(0);
    raw.write_u16_le(2);
    assert_eq!(decode_client_message(&raw).unwrap(), ClientMessage::CapabilityResponse { version: 2 });
}

#[test]
fn close_round_trip() {
    let encoded = encode_close(300); // needs 2-byte channel id
    assert_eq!(encoded[0] & 0x03, 1); // cb_id selector = u16
    let decoded = decode_client_message(&encoded).unwrap();
    assert_eq!(decoded, ClientMessage::Close { channel_id: 300 });
}

#[test]
fn small_payload_encodes_as_single_data_pdu() {
    let frames = encode_channel_payload(1, b"hello");
    assert_eq!(frames.len(), 1);
    let decoded = decode_client_message(&frames[0]).unwrap();
    assert_eq!(
        decoded,
        ClientMessage::Data {
            channel_id: 1,
            data: b"hello".to_vec()
        }
    );
}

#[test]
fn large_payload_splits_into_data_first_plus_continuations() {
    let payload = vec![0xAB; MAX_DATA_SIZE * 2 + 10];
    let frames = encode_channel_payload(1, &payload);
    assert_eq!(frames.len(), 3);

    let ClientMessage::DataFirst { channel_id, total_length, data } = decode_client_message(&frames[0]).unwrap() else {
        panic!("expected DataFirst");
    };
    assert_eq!(channel_id, 1);
    assert_eq!(total_length as usize, payload.len());
    assert_eq!(data.len(), MAX_DATA_SIZE);

    let mut reassembled = data;
    for frame in &frames[1..] {
        let ClientMessage::Data { data, .. } = decode_client_message(frame).unwrap() else {
            panic!("expected Data continuation");
        };
        reassembled.extend(data);
    }
    assert_eq!(reassembled, payload);
}

#[test]
fn data_pdu_channel_id_sizes_selected_correctly() {
    for (channel_id, expected_selector) in [(5u32, 0u8), (1000, 1), (100_000, 2)] {
        let encoded = encode_data(channel_id, b"x");
        assert_eq!(encoded[0] & 0x03, expected_selector, "channel_id {channel_id}");
        let decoded = decode_client_message(&encoded).unwrap();
        assert_eq!(decoded, ClientMessage::Data { channel_id, data: b"x".to_vec() });
    }
}
