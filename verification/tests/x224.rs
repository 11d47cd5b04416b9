//! Connection request and confirm.

use rdpcore::DecodeError;
use rdpcore::x224::{
    ConnectionConfirm, ConnectionRequest, FailureCode, RequestFlags, ResponseFlags,
    SecurityProtocol, unwrap_data, wrap_data,
};

#[test]
fn connection_request_round_trip_with_cookie() {
    let request = ConnectionRequest {
        cookie: Some("kmsrdp".to_owned()),
        flags: RequestFlags(0),
        protocol: SecurityProtocol::ssl(),
    };
    let encoded = request.encode();
    let decoded = ConnectionRequest::decode(&encoded).unwrap();
    assert_eq!(decoded, request);
}

#[test]
fn a_cookie_follows_its_prefix() {
    let request = ConnectionRequest {
        cookie: Some("me".to_owned()),
        flags: RequestFlags(0),
        protocol: SecurityProtocol::ssl(),
    };
    let encoded = request.encode();
    assert_eq!(encoded[11..32], *b"Cookie: mstshash=me\r\n");
    assert_eq!(encoded[32..], [1, 0, 8, 0, 1, 0, 0, 0]);
}

#[test]
fn connection_request_round_trip_without_cookie() {
    let request = ConnectionRequest {
        cookie: None,
        flags: RequestFlags(0),
        protocol: SecurityProtocol::ssl() | SecurityProtocol::hybrid(),
    };
    let encoded = request.encode();
    let decoded = ConnectionRequest::decode(&encoded).unwrap();
    assert_eq!(decoded, request);
    assert!(decoded.protocol.contains(SecurityProtocol::ssl()));
    assert!(decoded.protocol.contains(SecurityProtocol::hybrid()));
}

#[test]
fn connection_confirm_response_round_trip() {
    let confirm = ConnectionConfirm::Response {
        flags: ResponseFlags(0),
        protocol: SecurityProtocol::ssl(),
    };
    let encoded = confirm.encode();
    let decoded = ConnectionConfirm::decode(&encoded).unwrap();
    assert_eq!(decoded, confirm);
}

#[test]
fn connection_confirm_failure_round_trip() {
    let confirm = ConnectionConfirm::Failure {
        code: FailureCode::ssl_required_by_server(),
    };
    let encoded = confirm.encode();
    let decoded = ConnectionConfirm::decode(&encoded).unwrap();
    assert_eq!(decoded, confirm);
}

/// What a client sends first, which is never encrypted.
#[test]
fn decodes_real_xfreerdp_connection_request() {
    let captured: &[u8] = &[
        0x03, 0x00, 0x00, 0x2c, 0x27, 0xe0, 0x00, 0x00, 0x00, 0x00, 0x00,
        0x43, 0x6f, 0x6f, 0x6b, 0x69, 0x65, 0x3a, 0x20, 0x6d, 0x73, 0x74,
        0x73, 0x68, 0x61, 0x73, 0x68, 0x3d, 0x6b, 0x6d, 0x73, 0x72, 0x64,
        0x70, 0x0d, 0x0a, 0x01, 0x00, 0x08, 0x00, 0x01, 0x00, 0x00, 0x00,
    ];

    let decoded = ConnectionRequest::decode(captured).unwrap();
    assert_eq!(
        decoded,
        ConnectionRequest {
            cookie: Some("kmsrdp".to_owned()),
            flags: RequestFlags(0),
            protocol: SecurityProtocol::ssl(),
        }
    );

    // Encoding what was decoded gives the same bytes.
    assert_eq!(decoded.encode(), captured);
}

#[test]
fn wrap_data_keeps_li_fixed_at_2_regardless_of_payload_size() {
    for payload in [vec![], vec![0xAB; 10], vec![0xCD; 300], vec![0xEF; 5000]] {
        let wrapped = wrap_data(&payload);
        // byte 4 is LI (after the 4-byte TPKT header) - must always be 2.
        assert_eq!(wrapped[4], 2, "LI must stay fixed at 2 for payload len {}", payload.len());
        assert_eq!(wrapped[5], 0xF0); // code: DATA
        assert_eq!(wrapped.len(), 4 + 3 + payload.len());

        let unwrapped = unwrap_data(&wrapped).unwrap();
        assert_eq!(unwrapped, payload.as_slice());
    }
}

#[test]
fn rejects_truncated_connection_request() {
    let request = ConnectionRequest {
        cookie: Some("kmsrdp".to_owned()),
        flags: RequestFlags(0),
        protocol: SecurityProtocol::ssl(),
    };
    let mut encoded = request.encode();
    encoded.truncate(encoded.len() - 2);
    assert!(matches!(
        ConnectionRequest::decode(&encoded),
        Err(DecodeError::NotEnoughBytes(_))
    ));
}
