//! Planar bitmap compression.

use rdpcore::DecodeError;
use rdpcore::rdp6::{
    FORMAT_HEADER_RLE_NO_ALPHA_ARGB, decode, encode, encode_to, zigzag_decode, zigzag_encode,
};

fn make_tile(
    width: usize,
    height: usize,
    mut pixel: impl FnMut(usize, usize) -> (u8, u8, u8),
) -> Vec<u8> {
    let mut out = vec![0u8; width * height * 4];
    for row in 0..height {
        for col in 0..width {
            let (b, g, r) = pixel(col, row);
            let idx = (row * width + col) * 4;
            out[idx] = b;
            out[idx + 1] = g;
            out[idx + 2] = r;
            out[idx + 3] = 0;
        }
    }
    out
}

#[test]
fn zigzag_round_trips_every_byte_value() {
    for raw in 0u8..=255 {
        assert_eq!(zigzag_decode(zigzag_encode(raw)), raw, "raw delta {raw}");
    }
}

#[test]
fn solid_color_tile_round_trips_and_compresses_well() {
    let bgrx = make_tile(64, 64, |_, _| (10, 20, 30));
    let compressed = encode(&bgrx, 64, 64);
    assert!(
        compressed.len() < bgrx.len() / 10,
        "solid color should compress at least 10x, got {} bytes",
        compressed.len()
    );
    let decoded = decode(&compressed, 64, 64).unwrap();
    assert_eq!(decoded, bgrx);
}

#[test]
fn gradient_tile_round_trips() {
    let bgrx = make_tile(64, 64, |x, y| {
        ((x * 4) as u8, (y * 4) as u8, ((x + y) * 2) as u8)
    });
    let compressed = encode(&bgrx, 64, 64);
    let decoded = decode(&compressed, 64, 64).unwrap();
    assert_eq!(decoded, bgrx);
}

#[test]
fn noisy_tile_round_trips() {
    // Noise that is the same every time.
    let mut state: u32 = 0x12345678;
    let mut next = move || {
        state = state.wrapping_mul(1_664_525).wrapping_add(1_013_904_223);
        (state >> 24) as u8
    };
    let bgrx = make_tile(37, 29, |_, _| (next(), next(), next()));
    let compressed = encode(&bgrx, 37, 29);
    let decoded = decode(&compressed, 37, 29).unwrap();
    assert_eq!(decoded, bgrx);
}

#[test]
fn heap_path_tile_round_trips() {
    // A tile much larger than usual.
    let mut state: u32 = 0xC0FFEE;
    let mut next = move || {
        state = state.wrapping_mul(1_664_525).wrapping_add(1_013_904_223);
        (state >> 24) as u8
    };
    let bgrx = make_tile(128, 96, |_, _| (next(), next(), next()));
    let compressed = encode(&bgrx, 128, 96);
    let decoded = decode(&compressed, 128, 96).unwrap();
    assert_eq!(decoded, bgrx);
}

#[test]
fn runs_crossing_the_extended_length_thresholds_round_trip() {
    // Exercise run lengths right around 16/32 (the extended-form
    // boundaries this encoder deliberately avoids) and past it.
    for &run_len in &[3usize, 4, 15, 16, 17, 31, 32, 33, 60] {
        let width = run_len + 5;
        let bgrx = make_tile(width, 3, |x, _| {
            if x < run_len {
                (7, 7, 7)
            } else {
                (200, 200, 200)
            }
        });
        let compressed = encode(&bgrx, width, 3);
        let decoded = decode(&compressed, width, 3).unwrap();
        assert_eq!(decoded, bgrx, "run length {run_len}");
    }
}

#[test]
fn single_pixel_tile_round_trips() {
    let bgrx = make_tile(4, 1, |_, _| (1, 2, 3));
    let compressed = encode(&bgrx, 4, 1);
    let decoded = decode(&compressed, 4, 1).unwrap();
    assert_eq!(decoded, bgrx);
}

#[test]
fn format_header_is_rle_no_alpha_argb() {
    let bgrx = make_tile(4, 4, |_, _| (1, 2, 3));
    let compressed = encode(&bgrx, 4, 4);
    assert_eq!(compressed[0], FORMAT_HEADER_RLE_NO_ALPHA_ARGB);
}

#[test]
fn decode_rejects_unsupported_format_header() {
    let err = decode(&[0x00, 0, 0, 0], 4, 1).unwrap_err();
    assert!(matches!(
        err,
        DecodeError::InvalidValue {
            field: "rdp6.format_header",
            ..
        }
    ));
}

#[test]
fn decode_rejects_zero_control_byte() {
    // FormatHeader + a lone 0x00 control byte for the R plane.
    let err = decode(&[FORMAT_HEADER_RLE_NO_ALPHA_ARGB, 0x00], 4, 1).unwrap_err();
    assert!(matches!(
        err,
        DecodeError::InvalidValue {
            field: "rdp6.rle.control",
            ..
        }
    ));
}

#[test]
fn zero_height_encode_does_not_panic() {
    let out = encode(&[], 64, 0);
    assert_eq!(out, vec![FORMAT_HEADER_RLE_NO_ALPHA_ARGB]);
}

#[test]
fn zero_width_encode_does_not_panic() {
    let out = encode(&[], 0, 64);
    assert_eq!(out, vec![FORMAT_HEADER_RLE_NO_ALPHA_ARGB]);
}

#[test]
fn prop_rdp6_round_trip() {
    let mut seed: u32 = 0x1234_5678;
    for w_blocks in 1usize..=8 {
        for h in 1usize..=8 {
            let w = w_blocks * 4;
            seed = seed.wrapping_mul(1_664_525).wrapping_add(1_013_904_223);
            let bgrx = make_tile(w, h, |x, y| {
                let s = seed.wrapping_add((y * w + x) as u32);
                ((s & 0xFF) as u8, ((s >> 8) & 0xFF) as u8, ((s >> 16) & 0xFF) as u8)
            });
            let encoded = encode(&bgrx, w, h);
            let decoded = decode(&encoded, w, h).unwrap();
            assert_eq!(decoded, bgrx);
        }
    }
}

#[test]
fn prop_rdp6_arbitrary_bytes_do_not_panic() {
    let mut seed: u32 = 0x9E37_79B9;
    for n in 0..2000usize {
        let mut data: Vec<u8> = Vec::new();
        for _ in 0..n % 128 {
            seed = seed.wrapping_mul(1_664_525).wrapping_add(1_013_904_223);
            data.push((seed >> 24) as u8);
        }
        let w = (1 + n % 4) * 4;
        let h = 1 + n / 4 % 4;
        let _ = decode(&data, w, h);
    }
}

#[test]
fn a_tile_takes_the_place_of_what_is_there() {
    let bgrx = make_tile(4, 4, |x, y| (x as u8, y as u8, 7));
    let mut out = vec![1, 2, 3];
    encode_to(&bgrx, 4, 4, &mut out);
    assert_eq!(out, encode(&bgrx, 4, 4));
}
