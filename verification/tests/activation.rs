//! Capabilities, the end of the handshake, and the mouse pointer.

use rdpcore::capability_sets::{
    parse_client_max_request_size, MultiFragmentUpdateCapability, RawCapabilitySet, ShareControlPduType,
    CAPSET_GENERAL, CAPSET_MULTIFRAGMENT_UPDATE,
};
use rdpcore::client_info::ClientInfoFlags;
use rdpcore::cursor::ReadCursor;
use rdpcore::finalization::{
    decode_refresh_rect, decode_suppress_output, encode_save_session_info_plain_notify, InclusiveRect,
};
use rdpcore::headers::{BasicSecurityHeader, BasicSecurityHeaderFlags};
use rdpcore::pointer;
use rdpcore::x224::{FailureCode, SecurityProtocol};
use rdpcore::DecodeError;

#[test]
fn share_control_types_have_their_numbers() {
    assert_eq!(ShareControlPduType::from_u16(1), Some(ShareControlPduType::DemandActive));
    assert_eq!(ShareControlPduType::from_u16(3), Some(ShareControlPduType::ConfirmActive));
    assert_eq!(ShareControlPduType::from_u16(6), Some(ShareControlPduType::DeactivateAll));
    assert_eq!(ShareControlPduType::from_u16(7), Some(ShareControlPduType::Data));
    assert_eq!(ShareControlPduType::from_u16(2), None);
}

#[test]
fn the_largest_request_is_that_of_the_first_set_that_says_one() {
    let size = |n: u32| RawCapabilitySet {
        set_type: CAPSET_MULTIFRAGMENT_UPDATE,
        body: MultiFragmentUpdateCapability { max_request_size: n }.encode_body(),
    };
    let other = RawCapabilitySet { set_type: CAPSET_GENERAL, body: vec![1, 2, 3, 4] };
    let broken = RawCapabilitySet { set_type: CAPSET_MULTIFRAGMENT_UPDATE, body: vec![1] };
    assert_eq!(parse_client_max_request_size(&[]), None);
    assert_eq!(parse_client_max_request_size(&[other.clone(), broken.clone()]), None);
    assert_eq!(
        parse_client_max_request_size(&[other, broken, size(65_535), size(7)]),
        Some(65_535)
    );
}

#[test]
fn display_updates_are_stopped_and_resumed() {
    assert_eq!(decode_suppress_output(&[0, 9, 9, 9]), Ok(false));
    assert_eq!(decode_suppress_output(&[1, 0, 0, 0, 5]), Ok(true));
    assert_eq!(
        decode_suppress_output(&[2, 0, 0, 0]),
        Err(DecodeError::InvalidValue {
            field: "suppress_output.allow_display_updates",
            reason: "expected 0 or 1",
        })
    );
    assert!(decode_suppress_output(&[0, 0, 0]).is_err());
}

#[test]
fn areas_to_draw_again_are_read_one_by_one() {
    let mut body = vec![2, 0, 0, 0];
    for n in 1u16..=8 {
        body.extend_from_slice(&n.to_le_bytes());
    }
    assert_eq!(
        decode_refresh_rect(&body).unwrap(),
        [
            InclusiveRect { left: 1, top: 2, right: 3, bottom: 4 },
            InclusiveRect { left: 5, top: 6, right: 7, bottom: 8 },
        ]
    );
    assert!(decode_refresh_rect(&body[..body.len() - 1]).is_err());
    assert_eq!(decode_refresh_rect(&[0, 0, 0, 0]).unwrap(), []);
    let mut c = ReadCursor::new(&body[4..]);
    assert_eq!(InclusiveRect::decode(&mut c).unwrap().bottom, 4);
}

#[test]
fn a_logon_is_announced_without_anything_else() {
    let body = encode_save_session_info_plain_notify();
    assert_eq!(body.len(), 580);
    assert_eq!(body[..4], [2, 0, 0, 0]);
    assert!(body[4..].iter().all(|b| *b == 0));
}

#[test]
fn pointer_updates_have_their_layout() {
    assert_eq!(pointer::encode_ptr_null(), [0, 5, 0x05, 0, 0]);
    assert_eq!(pointer::encode_cached_pointer(0x0102), [0, 7, 0x0A, 2, 0, 2, 1]);
    assert_eq!(
        pointer::encode_color_pointer(1, 2, 3, 4, 5, &[6, 7, 8], &[9, 10]),
        [0, 24, 0x09, 19, 0, 1, 0, 2, 0, 3, 0, 4, 0, 5, 0, 2, 0, 3, 0, 6, 7, 8, 9, 10]
    );
}

#[test]
fn flags_have_their_bits() {
    assert_eq!(BasicSecurityHeaderFlags::encrypt().0, 0x0008);
    assert_eq!(BasicSecurityHeaderFlags::info_pkt().0, 0x0040);
    assert_eq!(BasicSecurityHeaderFlags::license_pkt().0, 0x0080);
    let both = BasicSecurityHeaderFlags::encrypt() | BasicSecurityHeaderFlags::license_pkt();
    assert!(both.contains(BasicSecurityHeaderFlags::encrypt()));
    assert!(!both.contains(BasicSecurityHeaderFlags::info_pkt()));
    let mut out = Vec::new();
    BasicSecurityHeader { flags: both }.write(&mut out);
    assert_eq!(out, [0x88, 0, 0, 0]);
    assert_eq!(
        BasicSecurityHeader::decode(&mut ReadCursor::new(&out)),
        Ok(BasicSecurityHeader { flags: both })
    );
    assert_eq!(ClientInfoFlags::enable_windows_key().0, 0x0000_0100);
    assert_eq!(SecurityProtocol::rdstls().0, 4);
    assert_eq!(SecurityProtocol::hybrid_ex().0, 8);
    assert_eq!(FailureCode::ssl_required_by_server().0, 1);
    assert_eq!(FailureCode::ssl_not_allowed_by_server().0, 2);
    assert_eq!(FailureCode::ssl_cert_not_on_server().0, 3);
    assert_eq!(FailureCode::inconsistent_flags().0, 4);
    assert_eq!(FailureCode::hybrid_required_by_server().0, 5);
    assert_eq!(FailureCode::ssl_with_user_auth_required_by_server().0, 6);
}
