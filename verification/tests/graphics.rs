//! Pictures on their way to an encoder and back, and who encodes them.

use std::sync::{Arc, Mutex};

use rdpcore::rdpegfx::encoder::{
    bgrx_to_i420, bgrx_to_nv12, check_bgrx_geometry, coded_length, EncodedAu, H264Encoder,
    MockH264Encoder,
};
use rdpcore::rdpegfx::h264_headers::annex_b_sps_pps;
use rdpcore::rdpegfx::hardware::{
    bit_rate, block_counts, coded_buffer_size, join_segments, pick_entrypoint, place_abgr, place_nv12,
    put_row, reusable, take_stream, wanted_format, Plane,
};
use rdpcore::rdpegfx::openh264_enc::{
    job, planes, settings, take_picture, Coded, CodingProfile, FrameKind, OpenH264Encoder,
    RateControl, Settings, Usage,
};
use rdpcore::rdpegfx::pdu::{CAPS_FLAG_AVC420_ENABLED, CAP_VERSION_81, RawCapabilitySet};
use rdpcore::rdpegfx::select::{NO_BACKEND, Selected, first_available, select_h264_encoder};
use rdpcore::rdpegfx::session::{encode_twice, GfxFrameResult, GfxState};
use rdpcore::rdpegfx::{EncoderError, GfxSession};

/// A picture in which every pixel is different.
fn picture(width: usize, height: usize) -> Vec<u8> {
    (0..width * height * 4).map(|i| (i * 7 % 251) as u8).collect()
}

#[test]
fn what_is_wrong_is_said_in_words() {
    assert_eq!(
        EncoderError::InvalidGeometry("x".to_owned()).message(),
        "invalid frame geometry: x"
    );
    assert_eq!(
        EncoderError::InitFailed("x".to_owned()).message(),
        "encoder initialization failed: x"
    );
    assert_eq!(
        EncoderError::EncodeFailed("x".to_owned()).message(),
        "frame encoding failed: x"
    );
    assert_eq!(
        EncoderError::NoBackendAvailable.message(),
        "no supported H.264 encoder backends available (enable openh264/vaapi/nvenc)"
    );
}

#[test]
fn a_picture_that_does_not_fit_is_refused() {
    let pixels = vec![0; 64];
    assert_eq!(check_bgrx_geometry(4, 4, 16, &pixels, 16, 16), Ok(()));
    assert_eq!(
        check_bgrx_geometry(4, 4, 16, &pixels, 15, 16),
        Err("planar YUV size must be even, got 15x16".to_owned())
    );
    assert_eq!(
        check_bgrx_geometry(18, 4, 72, &pixels, 16, 16),
        Err("visible 18x4 larger than padded 16x16".to_owned())
    );
    assert_eq!(
        check_bgrx_geometry(4, 4, 17, &pixels, 16, 16),
        Err("pixel buffer too short: have 64, need at least 67".to_owned())
    );
}

#[test]
fn a_length_is_coded_in_whole_blocks() {
    assert_eq!(coded_length(0), 16);
    assert_eq!(coded_length(16), 16);
    assert_eq!(coded_length(17), 32);
    assert_eq!(coded_length(1080), 1088);
    assert_eq!(coded_length(u16::MAX), 0xFFF0);
}

#[test]
fn both_arrangements_hold_the_same_colours() {
    let pixels = picture(6, 4);
    let i420 = bgrx_to_i420(6, 4, 24, &pixels, 16, 16).unwrap();
    let nv12 = bgrx_to_nv12(6, 4, 24, &pixels, 16, 16).unwrap();
    assert_eq!(i420.len(), 384);
    assert_eq!(nv12.len(), 384);
    assert_eq!(i420[..256], nv12[..256]);
    for i in 0..64 {
        assert_eq!(i420[256 + i], nv12[256 + 2 * i]);
        assert_eq!(i420[320 + i], nv12[256 + 2 * i + 1]);
    }
    // Outside the picture there is nothing.
    assert_eq!(i420[6], 0);
    assert_eq!(i420[4 * 16], 0);
}

#[test]
fn bytes_are_written_over_what_is_there() {
    let mut dest = vec![9; 6];
    put_row(&mut dest, 2, &[1, 2]);
    assert_eq!(dest, [9, 9, 1, 2, 9, 9]);
}

#[test]
fn planes_lie_where_the_buffer_has_them() {
    let nv12: Vec<u8> = (1..=6).collect();
    let mut dest = vec![0; 16];
    place_nv12(
        &mut dest,
        Plane { offset: 1, pitch: 4 },
        Plane { offset: 10, pitch: 5 },
        2,
        2,
        &nv12,
    );
    assert_eq!(dest, [0, 1, 2, 0, 0, 3, 4, 0, 0, 0, 5, 6, 0, 0, 0, 0]);
}

#[test]
fn colours_are_turned_round_and_the_rest_is_cleared_below() {
    let pixels = [1, 2, 3, 4, 5, 6, 7, 8, 0, 0];
    let mut dest = vec![0x77; 28];
    place_abgr(&mut dest, 10, 1, 2, 5, &pixels, 2, 3);
    let mut want = vec![0x77; 28];
    want[0..4].copy_from_slice(&[3, 2, 1, 0xFF]);
    want[10..14].copy_from_slice(&[8, 7, 6, 0xFF]);
    want[20..28].copy_from_slice(&[0; 8]);
    assert_eq!(dest, want);
}

#[test]
fn pieces_get_the_start_codes_they_lack() {
    let head = annex_b_sps_pps(64, 64);
    let au = join_segments(
        64,
        64,
        &vec![vec![0x65, 1, 2], vec![], vec![0, 0, 1, 0x41], vec![0, 0, 0, 1, 0x41]],
    )
    .unwrap();
    let mut want = head.clone();
    want.extend_from_slice(&[0, 0, 0, 1, 0x65, 1, 2]);
    want.extend_from_slice(&[0, 0, 1, 0x41]);
    want.extend_from_slice(&[0, 0, 0, 1, 0x41]);
    assert_eq!(au, EncodedAu { annex_b: want, qp: 22 });
}

#[test]
fn a_whole_stream_has_to_have_bytes() {
    assert_eq!(take_stream(vec![1]).unwrap().annex_b, [1]);
    assert_eq!(
        take_stream(vec![]),
        Err(EncoderError::EncodeFailed("NVENC produced empty bitstream".to_owned()))
    );
}

#[test]
fn a_card_is_asked_for_what_it_has() {
    assert_eq!(pick_entrypoint(&vec![1, 8, 6], 8, 6), Ok(8));
    assert_eq!(pick_entrypoint(&vec![1, 6], 8, 6), Ok(6));
    assert_eq!(
        pick_entrypoint(&vec![1], 8, 6),
        Err("VAAPI: no H.264 EncSlice entrypoint".to_owned())
    );
    assert_eq!(wanted_format(0b101, 0b100), Ok(0b100));
    assert_eq!(
        wanted_format(0b011, 0b100),
        Err("VAAPI: YUV420 RT format unsupported".to_owned())
    );
    assert_eq!(bit_rate(64, 64), 500_000);
    assert_eq!(bit_rate(1920, 1088), 1_044_480);
    assert_eq!(coded_buffer_size(64, 64), 65_536);
    assert_eq!(coded_buffer_size(1920, 1088), 2_088_960);
    assert_eq!(block_counts(1920, 1088), (120, 68, 8160));
    assert!(reusable(Some((16, 32)), 16, 32));
    assert!(!reusable(Some((16, 32)), 32, 16));
    assert!(!reusable(None, 16, 32));
}

#[test]
fn software_keeps_to_two_million_bits_at_least() {
    assert_eq!(
        settings(64, 64),
        Settings {
            usage: Usage::Camera,
            profile: CodingProfile::Baseline,
            rate_control: RateControl::Quality,
            bits_per_second: 2_000_000,
            frames_per_second: 30,
            frames_per_key: 30,
            skip_frames: false,
        }
    );
    assert_eq!(settings(3840, 2160).bits_per_second, 8_294_400);
}

#[test]
fn what_comes_back_is_taken_only_as_a_picture() {
    let coded = |kind: FrameKind, bytes: &[u8]| Coded { kind, bytes: bytes.to_vec() };
    assert_eq!(
        take_picture(coded(FrameKind::P, &[1, 2])),
        Ok(EncodedAu { annex_b: vec![1, 2], qp: 22 })
    );
    assert_eq!(
        take_picture(coded(FrameKind::Skip, &[1, 2])),
        Err(EncoderError::EncodeFailed("openh264 skipped frame".to_owned()))
    );
    assert_eq!(
        take_picture(coded(FrameKind::Idr, &[])),
        Err(EncoderError::EncodeFailed("openh264 returned empty bitstream".to_owned()))
    );
}

#[test]
fn software_gets_three_planes() {
    let pixels = picture(20, 10);
    assert_eq!(
        planes(20, 10, 80, &pixels),
        Ok(bgrx_to_i420(20, 10, 80, &pixels, 32, 16).unwrap())
    );
    assert_eq!(
        planes(0, 10, 80, &pixels),
        Err(EncoderError::EncodeFailed("empty frame".to_owned()))
    );
    assert!(matches!(
        planes(20, 10, 81, &pixels),
        Err(EncoderError::InvalidGeometry(_))
    ));
}

#[test]
fn software_encodes_one_picture_after_the_other() {
    let mut encoder = OpenH264Encoder::new().unwrap();
    let pixels = picture(64, 48);
    let first = encoder.encode_bgrx(64, 48, 256, &pixels, true).unwrap();
    assert_eq!(first.qp, 22);
    // Parameter sets come first, and they begin with a start code.
    assert_eq!(first.annex_b[..4], [0, 0, 0, 1]);
    assert_eq!(first.annex_b[4] & 0x1F, 7);
    let second = encoder.encode_bgrx(64, 48, 256, &pixels, false).unwrap();
    assert!(second.annex_b.len() < first.annex_b.len());
    // Asked for one that stands by itself, it gives one again.
    let third = encoder.encode_bgrx(64, 48, 256, &pixels, true).unwrap();
    assert_eq!(third.annex_b[4] & 0x1F, 7);
    // Another size takes another encoder.
    let pixels = picture(32, 32);
    let other = encoder.encode_bgrx(32, 32, 128, &pixels, false).unwrap();
    assert_eq!(other.annex_b[4] & 0x1F, 7);
    encoder.reset();
    assert!(encoder.encode_bgrx(32, 32, 128, &pixels, false).is_ok());
}

#[test]
fn software_refuses_what_it_cannot_encode() {
    let mut encoder = OpenH264Encoder::default();
    assert_eq!(
        encoder.encode_bgrx(0, 4, 16, &[], true),
        Err(EncoderError::EncodeFailed("empty frame".to_owned()))
    );
    assert!(matches!(
        encoder.encode_bgrx(4, 4, 16, &[0; 63], true),
        Err(EncoderError::InvalidGeometry(_))
    ));
    let wide = vec![0; 4000 * 4];
    match encoder.encode_bgrx(4000, 1, 16_000, &wide, true) {
        Err(EncoderError::EncodeFailed(m)) => {
            assert!(m.starts_with("openh264 encode: "));
            assert!(m.contains("3840"));
        }
        _ => panic!("too wide to be encoded"),
    }
}

#[test]
fn the_card_goes_before_the_software() {
    let found = |encoder: u8, name: &'static str| Ok(Selected { encoder, name });
    assert_eq!(first_available(Some(1), Some(2), Some(Ok(3))), found(1, "nvenc"));
    assert_eq!(first_available(None, Some(2), Some(Ok(3))), found(2, "vaapi"));
    assert_eq!(first_available(None, None, Some(Ok(3))), found(3, "openh264"));
    assert_eq!(
        first_available::<u8>(None, None, Some(Err("no".to_owned()))),
        Err("no".to_owned())
    );
    assert_eq!(first_available::<u8>(None, None, None), Err(NO_BACKEND.to_owned()));
    let chosen = select_h264_encoder(None, Some(Box::new(MockH264Encoder::default())));
    assert_eq!(chosen.map(|c| c.name).unwrap_or("none"), "vaapi");
    let mut software = select_h264_encoder(None, None).unwrap_or_else(|e| panic!("{e}"));
    assert_eq!(software.name, "openh264");
    let pixels = picture(16, 16);
    let coded = software.encoder.encode_bgrx(16, 16, 64, &pixels, true).unwrap();
    // A sequence parameter set comes first.
    assert_eq!(coded.annex_b[..4], [0, 0, 0, 1]);
    assert_eq!(coded.annex_b[4] & 0x1F, 7);
}

#[test]
fn a_mock_session_counts_its_pictures_from_one() {
    let mut session = GfxSession::mock(16, 16);
    assert_eq!(session.on_data(&advertise(CAP_VERSION_81, CAPS_FLAG_AVC420_ENABLED)).len(), 4);
    let pixels = picture(16, 16);
    for (nal, count) in [(0x65, 1), (0x41, 2)] {
        match session.encode_frame(16, 16, 64, &pixels) {
            GfxFrameResult::Frames(frames) => {
                assert!(frames[1].ends_with(&[0, 0, 0, 1, nal, count, 0, 0, 0]))
            }
            _ => panic!("a frame was expected"),
        }
    }
}

/// A capability advertisement of one set.
fn advertise(version: u32, flags: u32) -> Vec<u8> {
    let mut out = vec![0x12, 0, 0, 0, 22, 0, 0, 0, 1, 0];
    out.extend_from_slice(&version.to_le_bytes());
    out.extend_from_slice(&4u32.to_le_bytes());
    out.extend_from_slice(&flags.to_le_bytes());
    out
}

#[test]
fn a_session_paints_with_software() {
    let mut session = GfxSession::new(Box::new(OpenH264Encoder::default()), 64, 48);
    assert_eq!(session.on_data(&advertise(CAP_VERSION_81, CAPS_FLAG_AVC420_ENABLED)).len(), 4);
    let pixels = picture(64, 48);
    match session.encode_frame(64, 48, 256, &pixels) {
        GfxFrameResult::Frames(frames) => assert_eq!(frames.len(), 3),
        _ => panic!("a frame was expected"),
    }
}

#[test]
fn a_state_counts_failures_and_gives_up() {
    let mut state = GfxState::new(16, 16);
    let (begun, reset) = state.begin_encode(16, 16);
    assert!(begun.is_none());
    assert!(!reset);
    let sets = [RawCapabilitySet::flags_only(CAP_VERSION_81, CAPS_FLAG_AVC420_ENABLED)];
    let (messages, reset) = state.on_caps(&sets);
    assert_eq!(messages.len(), 4);
    assert!(reset);
    let (begun, _) = state.begin_encode(16, 16);
    assert_eq!(begun, Some((Vec::new(), true)));
    assert_eq!(state.record_encode_failure(), GfxFrameResult::Skip);
    assert_eq!(state.record_encode_failure(), GfxFrameResult::Skip);
    match state.record_encode_failure() {
        GfxFrameResult::Fallback { teardown } => assert_eq!(teardown.len(), 1),
        _ => panic!("given up after three failures"),
    }
    assert!(state.begin_encode(16, 16).0.is_none());
}

#[test]
fn frames_are_numbered_and_acknowledged() {
    let mut state = GfxState::new(16, 16);
    let sets = [RawCapabilitySet::flags_only(CAP_VERSION_81, CAPS_FLAG_AVC420_ENABLED)];
    state.on_caps(&sets);
    let au = EncodedAu { annex_b: vec![0, 0, 0, 1, 0x65], qp: 22 };
    let (begun, _) = state.begin_encode(16, 16);
    assert_eq!(begun, Some((Vec::new(), true)));
    assert_eq!(state.finish_encode(16, 16, &au).len(), 3);
    // The next one need not stand by itself.
    let (begun, _) = state.begin_encode(16, 16);
    assert_eq!(begun, Some((Vec::new(), false)));
    state.on_frame_ack(0);
    let (messages, reset) = state.resize(32, 16);
    assert!(reset);
    assert!(messages.is_some());
    let (begun, _) = state.begin_encode(32, 16);
    assert_eq!(begun, Some((Vec::new(), true)));
}

/// Fails as often as it is told to, and keeps what it was asked for.
struct Hesitant {
    failures: u32,
    asked: Arc<Mutex<Vec<bool>>>,
}

impl H264Encoder for Hesitant {
    fn encode_bgrx(
        &mut self,
        _width: u16,
        _height: u16,
        _stride: usize,
        _pixels: &[u8],
        force_idr: bool,
    ) -> Result<EncodedAu, EncoderError> {
        self.asked.lock().unwrap().push(force_idr);
        if self.failures > 0 {
            self.failures -= 1;
            return Err(EncoderError::EncodeFailed("not yet".to_owned()));
        }
        Ok(EncodedAu { annex_b: vec![0, 0, 0, 1], qp: 3 })
    }

    fn reset(&mut self) {}
}

#[test]
fn an_encoder_is_asked_twice_at_the_most() {
    for (failures, idr, calls, found) in [
        (0, false, vec![false], true),
        (0, true, vec![true], true),
        (1, false, vec![false, true], true),
        (2, false, vec![false, true], false),
    ] {
        let asked = Arc::new(Mutex::new(Vec::new()));
        let mut encoder: Box<dyn H264Encoder> =
            Box::new(Hesitant { failures, asked: asked.clone() });
        let got = encode_twice(&mut encoder, 4, 4, 16, &[0; 64], idr);
        assert_eq!(got.is_some(), found);
        assert_eq!(*asked.lock().unwrap(), calls);
    }
}

#[test]
fn planes_are_handed_over_in_order() {
    let i420: Vec<u8> = (0..96).collect();
    let handed = job(&i420, 8, 8, u64::MAX, true);
    assert_eq!(handed.planes.0, &i420[..64]);
    assert_eq!(handed.planes.1, &i420[64..80]);
    assert_eq!(handed.planes.2, &i420[80..]);
    assert_eq!(handed.size, (8, 8));
    assert_eq!(handed.strides, (8, 4, 4));
    assert_eq!(handed.ts_ms, i64::MAX as u64);
    assert!(handed.force);
    assert!(!job(&i420, 8, 8, 33, false).force);
    assert_eq!(job(&i420, 8, 8, 33, false).ts_ms, 33);
}
