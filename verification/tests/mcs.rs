//! Domain messages and channel data.

use rdpcore::cursor::ReadCursor;
use rdpcore::mcs::{
    AttachUserConfirm, AttachUserRequest, ChannelJoinConfirm, ChannelJoinRequest, ConnectInitial,
    ConnectResponse, DisconnectProviderUltimatum, DomainParameters, ErectDomainRequest, SendData,
};

#[test]
fn domain_parameters_round_trip() {
    let params = DomainParameters::target();
    let mut buf = Vec::new();
    params.write(&mut buf);
    let mut cursor = ReadCursor::new(&buf);
    assert_eq!(DomainParameters::decode(&mut cursor).unwrap(), params);
}

#[test]
fn connect_initial_round_trip() {
    let ci = ConnectInitial {
        target_parameters: DomainParameters::target(),
        min_parameters: DomainParameters::min(),
        max_parameters: DomainParameters::max(),
        user_data: b"opaque-gcc-bytes".to_vec(),
    };
    let encoded = ci.encode();
    let decoded = ConnectInitial::decode(&encoded).unwrap();
    assert_eq!(decoded, ci);
}

#[test]
fn connect_response_round_trip() {
    let cr = ConnectResponse {
        called_connect_id: 0,
        domain_parameters: DomainParameters::target(),
        user_data: b"opaque-gcc-response-bytes".to_vec(),
    };
    let encoded = cr.encode();
    let decoded = ConnectResponse::decode(&encoded).unwrap();
    assert_eq!(decoded, cr);
}

#[test]
fn erect_domain_request_round_trip() {
    let pdu = ErectDomainRequest {
        sub_height: 0,
        sub_interval: 0,
    };
    assert_eq!(ErectDomainRequest::decode(&pdu.encode()).unwrap(), pdu);
}

#[test]
fn attach_user_round_trip() {
    assert_eq!(AttachUserRequest::decode(&AttachUserRequest.encode()).unwrap(), AttachUserRequest);

    let confirm = AttachUserConfirm { result: 0, initiator: 1002 };
    assert_eq!(AttachUserConfirm::decode(&confirm.encode()).unwrap(), confirm);
}

#[test]
fn channel_join_round_trip() {
    let request = ChannelJoinRequest {
        initiator: 1002,
        channel_id: 1003,
    };
    assert_eq!(ChannelJoinRequest::decode(&request.encode()).unwrap(), request);

    let confirm = ChannelJoinConfirm {
        result: 0,
        initiator: 1002,
        requested_channel_id: 1003,
        channel_id: 1003,
    };
    assert_eq!(ChannelJoinConfirm::decode(&confirm.encode()).unwrap(), confirm);
}

#[test]
fn send_data_round_trip() {
    let msg = SendData {
        initiator: 1002,
        channel_id: 1003,
        data: b"hello virtual channel".to_vec(),
        complete: true,
    };
    assert_eq!(SendData::decode_request(&msg.encode_request()).unwrap(), msg);
    assert_eq!(SendData::decode_indication(&msg.encode_indication()).unwrap(), msg);
}

#[test]
fn send_data_large_payload_uses_long_form_length() {
    let msg = SendData {
        initiator: 1002,
        channel_id: 1004,
        data: vec![0xAB; 5000],
        complete: true,
    };
    assert_eq!(SendData::decode_request(&msg.encode_request()).unwrap(), msg);
}

#[test]
fn disconnect_provider_ultimatum_matches_known_example() {
    // choice=8, reason=3 -> `21 80`.
    let pdu = DisconnectProviderUltimatum { reason: 3 };
    assert_eq!(pdu.encode(), [0x21, 0x80]);
    assert_eq!(DisconnectProviderUltimatum::decode(&pdu.encode()).unwrap(), pdu);
}
