//! Pictures for an encoder.

use rdpcore::rdpegfx::encoder::{H264Encoder, MockH264Encoder, align16, bgrx_to_i420, bgrx_to_nv12};

#[test]
fn align16_rounds_up() {
    assert_eq!(align16(1920), 1920);
    assert_eq!(align16(1080), 1088);
    assert_eq!(align16(1), 16);
    assert_eq!(align16(0), 0);
}

#[test]
fn bgrx_to_i420_size() {
    let w = 4u16;
    let h = 4u16;
    let pixels = vec![0u8; usize::from(w) * usize::from(h) * 4];
    let i420 = bgrx_to_i420(w, h, usize::from(w) * 4, &pixels, 16, 16).unwrap();
    assert_eq!(i420.len(), 16 * 16 + 2 * (8 * 8));
}

#[test]
fn bgrx_to_i420_rejects_bad_geometry() {
    let pixels = vec![0u8; 4 * 4 * 4];
    assert!(bgrx_to_i420(4, 4, 16, &pixels, 15, 16).is_err()); // odd width
    assert!(bgrx_to_i420(8, 8, 32, &pixels, 16, 16).is_err()); // visible > padded
    assert!(bgrx_to_i420(4, 4, 16, &[0u8; 8], 16, 16).is_err()); // short buffer
}

#[test]
fn bgrx_to_i420_black_and_white_luma() {
    let mut black = vec![0u8; 2 * 2 * 4];
    let i420 = bgrx_to_i420(2, 2, 8, &black, 2, 2).unwrap();
    // BT.601 limited-range black ≈ 16
    assert!(i420[0] <= 20);

    // White BGRX
    for px in black.chunks_exact_mut(4) {
        px[0] = 255;
        px[1] = 255;
        px[2] = 255;
    }
    let i420 = bgrx_to_i420(2, 2, 8, &black, 2, 2).unwrap();
    assert!(i420[0] >= 230);
}

#[test]
fn bgrx_to_nv12_interleaves_uv() {
    let mut pixels = vec![0u8; 2 * 2 * 4];
    // Pure red → distinctive U/V
    for px in pixels.chunks_exact_mut(4) {
        px[0] = 0;
        px[1] = 0;
        px[2] = 255;
    }
    let nv12 = bgrx_to_nv12(2, 2, 8, &pixels, 2, 2).unwrap();
    assert_eq!(nv12.len(), 6); // 2x2 Y + 1x1 UV interleaved (2 bytes)
    let y_size = 4;
    let u = nv12[y_size];
    let v = nv12[y_size + 1];
    // Red: U low, V high in BT.601
    assert!(u < 128);
    assert!(v > 128);
}

#[test]
fn bgrx_to_i420_and_nv12_agree_on_luma_and_chroma() {
    // Every pixel has a colour of its own, so that averages of unlike pixels
    // are compared.
    let w = 6u16;
    let h = 4u16;
    let stride = usize::from(w) * 4;
    let mut pixels = vec![0u8; stride * usize::from(h)];
    for (i, px) in pixels.chunks_exact_mut(4).enumerate() {
        px[0] = (i * 17) as u8; // B
        px[1] = (i * 31) as u8; // G
        px[2] = (i * 53) as u8; // R
    }

    let i420 = bgrx_to_i420(w, h, stride, &pixels, w, h).unwrap();
    let nv12 = bgrx_to_nv12(w, h, stride, &pixels, w, h).unwrap();

    let y_size = usize::from(w) * usize::from(h);
    let uv_size = y_size / 4;
    assert_eq!(&i420[..y_size], &nv12[..y_size], "Y plane must match");

    let (u_plane, v_plane) = i420[y_size..].split_at(uv_size);
    for i in 0..uv_size {
        assert_eq!(nv12[y_size + i * 2], u_plane[i], "U mismatch at block {i}");
        assert_eq!(
            nv12[y_size + i * 2 + 1],
            v_plane[i],
            "V mismatch at block {i}"
        );
    }
}

#[test]
fn bgrx_to_i420_handles_odd_visible_dimensions() {
    // 3x3 visible, padded to 4x4: the last row and the last column count
    // twice.
    let w = 3u16;
    let h = 3u16;
    let stride = usize::from(w) * 4;
    let mut pixels = vec![0u8; stride * usize::from(h)];
    for (i, px) in pixels.chunks_exact_mut(4).enumerate() {
        px[0] = (i * 23) as u8;
        px[1] = (i * 37) as u8;
        px[2] = (i * 41) as u8;
    }

    let i420 = bgrx_to_i420(w, h, stride, &pixels, 4, 4).unwrap();
    assert_eq!(i420.len(), 4 * 4 + 2 * (2 * 2));
    // Every visible pixel's luma must be written (non-default for at
    // least the non-black ones) - just confirm no panic/short read
    // and the padding row/column past the visible 3x3 stay zero.
    let y_plane = &i420[..16];
    assert_eq!(y_plane[3], 0, "padding column must stay black");
    assert_eq!(y_plane[12], 0, "padding row must stay black");
}

#[test]
fn mock_encoder_marks_idr_nal() {
    let mut enc = MockH264Encoder::default();
    let idr = enc
        .encode_bgrx(16, 16, 64, &[0u8; 16 * 16 * 4], true)
        .unwrap();
    assert_eq!(idr.annex_b[4], 0x65);
    let p = enc
        .encode_bgrx(16, 16, 64, &[0u8; 16 * 16 * 4], false)
        .unwrap();
    assert_eq!(p.annex_b[4], 0x41);
}
