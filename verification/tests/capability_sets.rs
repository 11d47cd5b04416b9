//! Capability sets and the messages that carry them.

use rdpcore::capability_sets::{
    BitmapCapability, BitmapCodecsCapability, CAPSET_BITMAP_CODECS, CAPSET_GENERAL, ConfirmActive,
    DeactivateAllPdu, DemandActive, GeneralCapability, InputCapability,
    MultiFragmentUpdateCapability, OrderCapability, PointerCapability, ServerCapabilities,
    ShareControlHeader, ShareControlPduType, VirtualChannelCapability,
};
use rdpcore::cursor::{ReadCursor, WriteBuf};

fn sample_capabilities() -> ServerCapabilities {
    ServerCapabilities {
        general: GeneralCapability {
            extra_flags: GeneralCapability::FASTPATH_OUTPUT_SUPPORTED,
            refresh_rect_support: true,
            suppress_output_support: true,
        },
        bitmap: BitmapCapability {
            preferred_bits_per_pixel: 32,
            desktop_width: 1920,
            desktop_height: 1080,
            desktop_resize_flag: true,
        },
        order: OrderCapability,
        pointer: PointerCapability {
            color_pointer_cache_size: 2048,
            pointer_cache_size: 2048,
        },
        input: InputCapability {
            input_flags: InputCapability::SCANCODES
                | InputCapability::MOUSEX
                | InputCapability::FASTPATH_INPUT
                | InputCapability::UNICODE,
            keyboard_layout: 0x0409,
            keyboard_type: 4,
            keyboard_subtype: 0,
            keyboard_function_key: 12,
        },
        virtual_channel: VirtualChannelCapability { flags: 0 },
        multifragment_update: MultiFragmentUpdateCapability {
            max_request_size: 8 * 1024 * 1024,
        },
        bitmap_codecs: BitmapCodecsCapability,
    }
}

#[test]
fn share_control_header_round_trip() {
    let header = ShareControlHeader {
        pdu_type: ShareControlPduType::DemandActive,
        pdu_source: 1003,
        share_id: 0x1000,
    };
    let mut out = Vec::new();
    header.write(&mut out, 5);
    out.extend_from_slice(&[0u8; 5]);

    let mut cursor = ReadCursor::new(&out);
    let (decoded, body_len) = ShareControlHeader::decode(&mut cursor).unwrap();
    assert_eq!(decoded, header);
    assert_eq!(body_len, 5);
}

#[test]
fn deactivate_all_pdu_has_a_decodable_share_control_header() {
    let encoded = DeactivateAllPdu {
        share_id: 0x1_0000,
        pdu_source: 1003,
    }
    .encode();
    let mut cursor = ReadCursor::new(&encoded);
    let (header, body_len) = ShareControlHeader::decode(&mut cursor).unwrap();
    assert_eq!(header.pdu_type, ShareControlPduType::DeactivateAll);
    assert_eq!(header.share_id, 0x1_0000);
    assert_eq!(header.pdu_source, 1003);
    assert_eq!(body_len, 2); // lengthSourceDescriptor only, empty descriptor
}

#[test]
fn general_capability_round_trip() {
    let cap = GeneralCapability {
        extra_flags: GeneralCapability::FASTPATH_OUTPUT_SUPPORTED,
        refresh_rect_support: true,
        suppress_output_support: true,
    };
    assert_eq!(
        GeneralCapability::decode_body(&cap.encode_body()).unwrap(),
        cap
    );
    assert_eq!(cap.encode_body().len(), 20);
}

#[test]
fn bitmap_capability_round_trip() {
    let cap = BitmapCapability {
        preferred_bits_per_pixel: 32,
        desktop_width: 1920,
        desktop_height: 1080,
        desktop_resize_flag: true,
    };
    assert_eq!(
        BitmapCapability::decode_body(&cap.encode_body()).unwrap(),
        cap
    );
    assert_eq!(cap.encode_body().len(), 24);
}

#[test]
fn order_capability_is_84_bytes_and_all_zero_support() {
    let body = OrderCapability.encode_body();
    assert_eq!(body.len(), 84);
    assert!(OrderCapability::decode_body(&body).is_ok());
}

#[test]
fn pointer_capability_round_trip() {
    let cap = PointerCapability {
        color_pointer_cache_size: 2048,
        pointer_cache_size: 2048,
    };
    assert_eq!(
        PointerCapability::decode_body(&cap.encode_body()).unwrap(),
        cap
    );
    assert_eq!(cap.encode_body().len(), 6);
}

#[test]
fn input_capability_round_trip() {
    let cap = InputCapability {
        input_flags: InputCapability::SCANCODES | InputCapability::UNICODE,
        keyboard_layout: 0x0409,
        keyboard_type: 4,
        keyboard_subtype: 0,
        keyboard_function_key: 12,
    };
    assert_eq!(
        InputCapability::decode_body(&cap.encode_body()).unwrap(),
        cap
    );
    assert_eq!(cap.encode_body().len(), 84);
}

#[test]
fn virtual_channel_and_multifragment_round_trip() {
    let vc = VirtualChannelCapability { flags: 0 };
    assert_eq!(
        VirtualChannelCapability::decode_body(&vc.encode_body()).unwrap(),
        vc
    );

    let mfu = MultiFragmentUpdateCapability {
        max_request_size: 8 * 1024 * 1024,
    };
    assert_eq!(
        MultiFragmentUpdateCapability::decode_body(&mfu.encode_body()).unwrap(),
        mfu
    );
}

#[test]
fn bitmap_codecs_zero_count_is_one_byte() {
    assert_eq!(BitmapCodecsCapability.encode_body(), [0, 0]);
}

#[test]
fn demand_active_round_trip_via_confirm_active_decoder() {
    // ConfirmActive::decode is generic over any well-formed capability
    // list, so we can reuse it to sanity-check DemandActive's own
    // capability-list bytes (share control header pdu_type aside).
    let caps = sample_capabilities();
    let demand = DemandActive {
        share_id: 0x1000,
        pdu_source: 1003,
        capabilities: &caps,
    };
    let mut encoded = demand.encode();
    // Flip the share control header's pdu_type bits from DemandActive
    // (0x1) to ConfirmActive (0x3) in place, and inject a 2-byte
    // originatorId after the header so `ConfirmActive::decode` (which
    // expects that field) can parse the rest unchanged.
    let type_field = u16::from_le_bytes([encoded[2], encoded[3]]);
    let patched = (type_field & !0xF) | 0x3;
    encoded[2..4].copy_from_slice(&patched.to_le_bytes());
    let mut with_originator = encoded[..10].to_vec();
    with_originator.write_u16_le(1002);
    with_originator.extend_from_slice(&encoded[10..]);
    // Fix up totalLength for the 2 extra bytes we just inserted.
    let new_total = with_originator.len() as u16;
    with_originator[0..2].copy_from_slice(&new_total.to_le_bytes());

    let confirm = ConfirmActive::decode(&with_originator).unwrap();
    assert_eq!(confirm.share_id, 0x1000);
    assert_eq!(confirm.capabilities.len(), 8);
    assert!(
        confirm
            .capabilities
            .iter()
            .any(|c| c.set_type == CAPSET_GENERAL)
    );
    assert!(
        confirm
            .capabilities
            .iter()
            .any(|c| c.set_type == CAPSET_BITMAP_CODECS)
    );
}
