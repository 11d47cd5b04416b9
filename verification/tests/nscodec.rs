//! The planar color encoder.

use rdpcore::nscodec::encode;

#[test]
fn solid_red_tile_has_header_and_body() {
    let data = vec![0u8, 0, 255, 0xFF].repeat(4);
    let out = encode(&data, 2, 2, 4, 3);
    assert!(out.len() >= 20);
    assert_eq!(out[16], 3);
}

#[test]
fn every_plane_is_sent_in_runs_and_its_last_four_bytes_as_they_are() {
    // Eight pixels: seven of one colour, and one of another in the bottom row.
    let mut data = vec![10u8, 20, 30, 0].repeat(8);
    data[4 * 4..4 * 4 + 3].copy_from_slice(&[200, 100, 50]);
    let out = encode(&data, 4, 2, 16, 1);
    // luma = r/4 + g/2 + b/4, for 30/20/10 and for 50/100/200.
    let (y, y2) = (30u8 / 4 + 20 / 2 + 10 / 4, 50u8 / 4 + 100 / 2 + 200 / 4);
    assert_eq!(out[0..4], [8, 0, 0, 0]);
    // Bottom row first: the odd pixel, then three alike, then the last four.
    assert_eq!(out[20..28], [y2, y, y, 1, y, y, y, y]);
    // Orange is half of r - b, as a signed byte.
    let (co, co2) = (10u8, (-75i8) as u8);
    assert_eq!(out[28..36], [co2, co, co, 1, co, co, co, co]);
    // Opaque everywhere: four in a run and four as they are.
    let opaque = [0xFF, 0xFF, 2, 0xFF, 0xFF, 0xFF, 0xFF];
    assert_eq!(out[12..16], [7, 0, 0, 0]);
    assert!(out.ends_with(&opaque));
    assert_eq!(out[16..20], [1, 0, 0, 0]);
}

#[test]
fn a_long_run_has_a_long_count() {
    let data = vec![1u8, 2, 3, 0].repeat(300);
    let out = encode(&data, 300, 1, 1200, 3);
    let opaque = [0xFF, 0xFF, 0xFF, 0x28, 1, 0, 0, 0xFF, 0xFF, 0xFF, 0xFF];
    assert!(out.ends_with(&opaque));
}
