//! Fast-path input and output.

use rdpcore::fastpath::{
    BitmapRect, BitmapUpdateData, FastPathInput, FastPathInputEvent, FastPathOutput,
    FastPathUpdatePdu, Fragmentation, UPDATE_CODE_BITMAP,
};
use rdpcore::rdp6::{FORMAT_HEADER_RLE_NO_ALPHA_ARGB, decode, encode};

#[test]
fn scancode_event_round_trip() {
    let input = FastPathInput {
        events: vec![FastPathInputEvent::Scancode {
            flags: 0,
            code: 0x1E, // 'A'
        }],
    };
    let encoded = input.encode();
    assert_eq!(FastPathInput::decode(&encoded).unwrap(), input);
}

#[test]
fn mouse_event_round_trip() {
    let input = FastPathInput {
        events: vec![FastPathInputEvent::Mouse {
            pointer_flags: 0x8000 | 0x1000, // DOWN | LEFT_BUTTON
            x: 640,
            y: 360,
        }],
    };
    let encoded = input.encode();
    assert_eq!(FastPathInput::decode(&encoded).unwrap(), input);
}

#[test]
fn sync_event_round_trip() {
    let input = FastPathInput {
        events: vec![FastPathInputEvent::Sync { flags: 0x01 }],
    };
    let encoded = input.encode();
    assert_eq!(FastPathInput::decode(&encoded).unwrap(), input);
}

#[test]
fn many_events_use_the_explicit_count_byte() {
    let input = FastPathInput {
        events: (0..20)
            .map(|i| FastPathInputEvent::Scancode { flags: 0, code: i })
            .collect(),
    };
    let encoded = input.encode();
    // action=0, numEvents nibble = 0 (sentinel) -> byte value 0.
    assert_eq!(encoded[0], 0);
    assert_eq!(FastPathInput::decode(&encoded).unwrap(), input);
}

#[test]
fn unicode_event_round_trip() {
    let input = FastPathInput {
        events: vec![FastPathInputEvent::Unicode {
            flags: 0,
            code: 0x3042, // U+3042 HIRAGANA LETTER A
        }],
    };
    let encoded = input.encode();
    assert_eq!(FastPathInput::decode(&encoded).unwrap(), input);
}

#[test]
fn rejects_unadvertised_event_code() {
    // event_code=2 (MouseX), which is not taken.
    let encoded = vec![
        1 << 2, // header: 1 event
        3,      // 1-byte PER length
        2 << 5, // event header: code=2 (MouseX), flags=0
    ];
    assert!(FastPathInput::decode(&encoded).is_err());
}

#[test]
fn bitmap_update_round_trip_via_fastpath_output() {
    let bitmap = BitmapUpdateData {
        rectangles: vec![BitmapRect {
            dest_left: 0,
            dest_top: 0,
            dest_right: 63,
            dest_bottom: 63,
            width: 64,
            height: 64,
            bits_per_pixel: 32,
            data: vec![0xABu8; 64 * 64 * 4],
            compressed_scan_width: None,
        }],
    };
    let output = FastPathOutput {
        updates: vec![FastPathUpdatePdu {
            update_code: UPDATE_CODE_BITMAP,
            fragmentation: Fragmentation::Single,
            data: bitmap.encode(),
        }],
    };
    let encoded = output.encode();
    let decoded = FastPathOutput::decode(&encoded).unwrap();
    assert_eq!(decoded, output);
    assert_eq!(
        BitmapUpdateData::decode(&decoded.updates[0].data).unwrap(),
        bitmap
    );
}

#[test]
fn compressed_bitmap_rect_round_trips_with_compression_header() {
    let compressed_payload = vec![FORMAT_HEADER_RLE_NO_ALPHA_ARGB, 0x10, 0xAB];
    let bitmap = BitmapUpdateData {
        rectangles: vec![BitmapRect {
            dest_left: 0,
            dest_top: 0,
            dest_right: 63,
            dest_bottom: 63,
            width: 64,
            height: 64,
            bits_per_pixel: 32,
            data: compressed_payload.clone(),
            compressed_scan_width: Some(64 * 4), // bytes (cbScanWidth)
        }],
    };
    let encoded = bitmap.encode();
    let decoded = BitmapUpdateData::decode(&encoded).unwrap();
    assert_eq!(decoded, bitmap);
    assert_eq!(decoded.rectangles[0].data, compressed_payload);
    assert_eq!(decoded.rectangles[0].compressed_scan_width, Some(64 * 4));
    // Layout: updateType(2) + count(2) + dest(8) + wh+bpp(6) + flags(2)
    // + bitmapLength(2) + firstRow(2) + mainBody(2) + scanWidth(2)
    // + uncompressedSize(2) = bytes [28..30].
    assert_eq!(&encoded[28..30], &(64u16 * 64 * 4).to_le_bytes());
    assert_eq!(&encoded[26..28], &(256u16).to_le_bytes()); // cbScanWidth in bytes
}

#[test]
fn multiple_updates_in_one_fastpath_output_round_trip() {
    let output = FastPathOutput {
        updates: vec![
            FastPathUpdatePdu {
                update_code: UPDATE_CODE_BITMAP,
                fragmentation: Fragmentation::First,
                data: vec![0x11; 10],
            },
            FastPathUpdatePdu {
                update_code: UPDATE_CODE_BITMAP,
                fragmentation: Fragmentation::Last,
                data: vec![0x22; 20],
            },
        ],
    };
    let encoded = output.encode();
    assert_eq!(FastPathOutput::decode(&encoded).unwrap(), output);
}
