//! Messages of the graphics pipeline.

use rdpcore::cursor::WriteBuf;
use rdpcore::rdpegfx::pdu::{
    CAPS_FLAG_AVC420_ENABLED, CAPS_FLAG_AVC_DISABLED, CAPS_FLAG_SMALL_CACHE, CAP_VERSION_10,
    CAP_VERSION_107, CAP_VERSION_8, CAP_VERSION_81, CMD_CACHE_IMPORT_OFFER, CMD_CAPS_ADVERTISE,
    CMD_CAPS_CONFIRM, CMD_CREATE_SURFACE, CMD_DELETE_SURFACE, CMD_END_FRAME, CMD_FRAME_ACKNOWLEDGE,
    CMD_MAP_SURFACE_TO_OUTPUT, CMD_START_FRAME, CMD_WIRE_TO_SURFACE_1, CODEC_AVC420, ClientMessage,
    MonitorDef, PIXEL_FORMAT_XRGB, RawCapabilitySet, Rect16, decode_client_message,
    encode_avc420_bitmap_stream, encode_caps_confirm, encode_create_surface, encode_delete_surface,
    encode_end_frame, encode_map_surface_to_output, encode_reset_graphics, encode_segmented_single,
    encode_start_frame, encode_wire_to_surface_1_avc420, select_avc420_capability, write_header,
};

#[test]
fn segmented_single_wraps_payload() {
    let wrapped = encode_segmented_single(&[0xab, 0xcd]);
    assert_eq!(wrapped, vec![0xe0, 0x04, 0xab, 0xcd]);
}

#[test]
fn caps_confirm_roundtrip_header() {
    let cap = RawCapabilitySet::flags_only(CAP_VERSION_81, CAPS_FLAG_AVC420_ENABLED);
    let encoded = encode_caps_confirm(&cap);
    assert_eq!(&encoded[0..2], &CMD_CAPS_CONFIRM.to_le_bytes());
    let len = u32::from_le_bytes(encoded[4..8].try_into().unwrap()) as usize;
    assert_eq!(encoded.len(), len);
}

#[test]
fn reset_graphics_is_340_bytes() {
    let pdu = encode_reset_graphics(
        1920,
        1080,
        &[MonitorDef {
            left: 0,
            top: 0,
            right: 1919,
            bottom: 1079,
            primary: true,
        }],
    );
    assert_eq!(pdu.len(), 340);
}

#[test]
fn avc420_metablock_then_bitstream() {
    let stream = encode_avc420_bitmap_stream(100, 50, 22, 100, &[0x00, 0x00, 0x00, 0x01, 0x67]);
    assert_eq!(&stream[0..4], &1u32.to_le_bytes());
    // right and bottom are exclusive
    assert_eq!(
        &stream[4..12],
        &{
            let mut r = Vec::new();
            Rect16 {
                left: 0,
                top: 0,
                right: 100,
                bottom: 50,
            }
            .encode(&mut r);
            r
        }[..]
    );
    assert_eq!(stream[12], 22 | 0x80); // progressive bit set
    assert_eq!(stream[13], 100);
    assert_eq!(&stream[14..], &[0x00, 0x00, 0x00, 0x01, 0x67]);
}

#[test]
fn decode_caps_advertise() {
    let mut body = Vec::new();
    body.write_u16_le(1);
    RawCapabilitySet::flags_only(CAP_VERSION_81, CAPS_FLAG_AVC420_ENABLED)
        .encode_body(&mut body);
    let mut pdu = Vec::new();
    write_header(&mut pdu, CMD_CAPS_ADVERTISE, body.len());
    pdu.extend_from_slice(&body);

    match decode_client_message(&pdu).unwrap() {
        ClientMessage::CapsAdvertise { sets } => {
            assert_eq!(sets.len(), 1);
            assert!(sets[0].supports_avc420());
        }
        other => panic!("unexpected {other:?}"),
    }
}

#[test]
fn select_prefers_higher_version() {
    let sets = vec![
        RawCapabilitySet::flags_only(CAP_VERSION_81, CAPS_FLAG_AVC420_ENABLED),
        RawCapabilitySet::flags_only(CAP_VERSION_10, CAPS_FLAG_SMALL_CACHE),
        RawCapabilitySet::flags_only(CAP_VERSION_8, CAPS_FLAG_SMALL_CACHE),
    ];
    let selected = select_avc420_capability(&sets).unwrap();
    assert_eq!(selected.version, CAP_VERSION_10);
}

#[test]
fn select_rejects_avc_disabled() {
    let sets = vec![RawCapabilitySet::flags_only(
        CAP_VERSION_10,
        CAPS_FLAG_AVC_DISABLED,
    )];
    assert!(select_avc420_capability(&sets).is_none());
}

#[test]
fn wire_to_surface_header_and_codec() {
    let data = encode_avc420_bitmap_stream(16, 16, 22, 100, &[1, 2, 3]);
    let pdu = encode_wire_to_surface_1_avc420(1, 16, 16, &data);
    assert_eq!(&pdu[0..2], &CMD_WIRE_TO_SURFACE_1.to_le_bytes());
    assert_eq!(&pdu[8..10], &1u16.to_le_bytes()); // surfaceId
    assert_eq!(&pdu[10..12], &CODEC_AVC420.to_le_bytes());
}

#[test]
fn avc420_preserves_annex_b_start_codes_on_wire() {
    let annex_b = [
        0x00, 0x00, 0x00, 0x01, 0x67, 0x42, 0x00, 0x00, 0x00, 0x01, 0x65,
    ];
    let stream = encode_avc420_bitmap_stream(32, 24, 22, 100, &annex_b);
    // metablock = 4 + 8 + 2; bitstream follows verbatim (Annex B, not AVCC).
    assert_eq!(&stream[14..], &annex_b);
    assert_eq!(&stream[14..18], &[0, 0, 0, 1]);
}

#[test]
fn create_delete_map_start_end_layouts() {
    let create = encode_create_surface(7, 1280, 800);
    assert_eq!(&create[0..2], &CMD_CREATE_SURFACE.to_le_bytes());
    assert_eq!(&create[8..10], &7u16.to_le_bytes());
    assert_eq!(&create[10..12], &1280u16.to_le_bytes());
    assert_eq!(&create[12..14], &800u16.to_le_bytes());
    assert_eq!(create[14], PIXEL_FORMAT_XRGB);

    let delete = encode_delete_surface(7);
    assert_eq!(&delete[0..2], &CMD_DELETE_SURFACE.to_le_bytes());
    assert_eq!(&delete[8..10], &7u16.to_le_bytes());

    let map = encode_map_surface_to_output(7, 10, 20);
    assert_eq!(&map[0..2], &CMD_MAP_SURFACE_TO_OUTPUT.to_le_bytes());
    assert_eq!(&map[8..10], &7u16.to_le_bytes());
    assert_eq!(&map[12..16], &10u32.to_le_bytes());
    assert_eq!(&map[16..20], &20u32.to_le_bytes());

    let start = encode_start_frame(1_000, 42);
    assert_eq!(&start[0..2], &CMD_START_FRAME.to_le_bytes());
    assert_eq!(&start[8..12], &1_000u32.to_le_bytes());
    assert_eq!(&start[12..16], &42u32.to_le_bytes());

    let end = encode_end_frame(42);
    assert_eq!(&end[0..2], &CMD_END_FRAME.to_le_bytes());
    assert_eq!(&end[8..12], &42u32.to_le_bytes());
}

#[test]
fn reset_graphics_monitor_coords_are_inclusive() {
    let pdu = encode_reset_graphics(
        100,
        50,
        &[MonitorDef {
            left: 0,
            top: 0,
            right: 99,
            bottom: 49,
            primary: true,
        }],
    );
    assert_eq!(pdu.len(), 340);
    // width/height then monitorCount then first monitor left/top/right/bottom
    assert_eq!(&pdu[8..12], &100u32.to_le_bytes());
    assert_eq!(&pdu[12..16], &50u32.to_le_bytes());
    assert_eq!(&pdu[16..20], &1u32.to_le_bytes());
    assert_eq!(&pdu[20..24], &0i32.to_le_bytes());
    assert_eq!(&pdu[28..32], &99i32.to_le_bytes());
    assert_eq!(&pdu[32..36], &49i32.to_le_bytes());
}

#[test]
fn decode_frame_acknowledge() {
    let mut body = Vec::new();
    body.write_u32_le(3);
    body.write_u32_le(9);
    body.write_u32_le(100);
    let mut pdu = Vec::new();
    write_header(&mut pdu, CMD_FRAME_ACKNOWLEDGE, body.len());
    pdu.extend_from_slice(&body);
    match decode_client_message(&pdu).unwrap() {
        ClientMessage::FrameAcknowledge {
            queue_depth,
            frame_id,
            total_frames_decoded,
        } => {
            assert_eq!(queue_depth, 3);
            assert_eq!(frame_id, 9);
            assert_eq!(total_frames_decoded, 100);
        }
        other => panic!("unexpected {other:?}"),
    }
}

#[test]
fn decode_rejects_truncated_and_undersized_length() {
    assert!(decode_client_message(&[0x12, 0x00, 0, 0, 4, 0, 0, 0]).is_err());
    let mut pdu = Vec::new();
    write_header(&mut pdu, CMD_FRAME_ACKNOWLEDGE, 12);
    // claim 12 body bytes but provide none
    assert!(decode_client_message(&pdu).is_err());
}

#[test]
fn decode_cache_import_offer_and_unknown() {
    let mut offer = Vec::new();
    write_header(&mut offer, CMD_CACHE_IMPORT_OFFER, 0);
    assert!(matches!(
        decode_client_message(&offer).unwrap(),
        ClientMessage::CacheImportOffer
    ));
    let mut other = Vec::new();
    write_header(&mut other, 0x00ff, 0);
    assert!(matches!(
        decode_client_message(&other).unwrap(),
        ClientMessage::Other { cmd_id: 0x00ff }
    ));
}

#[test]
fn select_rejects_version8_and_prefers_107() {
    assert!(
        !RawCapabilitySet::flags_only(CAP_VERSION_8, CAPS_FLAG_SMALL_CACHE).supports_avc420()
    );
    let sets = vec![
        RawCapabilitySet::flags_only(CAP_VERSION_81, CAPS_FLAG_AVC420_ENABLED),
        RawCapabilitySet::flags_only(CAP_VERSION_107, 0),
    ];
    assert_eq!(
        select_avc420_capability(&sets).unwrap().version,
        CAP_VERSION_107
    );
}

#[test]
fn caps_advertise_rejects_oversize_capability_blob() {
    let mut body = Vec::new();
    body.write_u16_le(1);
    body.write_u32_le(CAP_VERSION_81);
    body.write_u32_le(1_000_000); // claims huge data
    body.extend_from_slice(&0u32.to_le_bytes()); // only 4 bytes present
    let mut pdu = Vec::new();
    write_header(&mut pdu, CMD_CAPS_ADVERTISE, body.len());
    pdu.extend_from_slice(&body);
    assert!(decode_client_message(&pdu).is_err());
}
