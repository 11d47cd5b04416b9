//! The audio output channel.

use rdpcore::cursor::WriteBuf;
use rdpcore::rdpsnd::{RdpsndChannel, RdpsndError, RdpsndServerHandler, pdu};
use rdpcore::svc;

#[derive(Debug, Default)]
struct FakeHandler {
    formats: Vec<pdu::AudioFormat>,
    started_with: Option<pdu::NegotiatedFormat>,
    stopped: bool,
}

impl RdpsndServerHandler for FakeHandler {
    fn get_formats(&self) -> &[pdu::AudioFormat] {
        &self.formats
    }

    fn choose_format(
        &mut self,
        common: &[pdu::NegotiatedFormat],
    ) -> Option<pdu::NegotiatedFormat> {
        common.first().cloned()
    }

    fn start(&mut self, format: &pdu::NegotiatedFormat) -> Result<(), Box<dyn RdpsndError>> {
        self.started_with = Some(format.clone());
        Ok(())
    }

    fn stop(&mut self) {
        self.stopped = true;
    }
}

/// Incoming channel data always carries the Channel PDU Header
/// (length+flags) too.
fn as_single_incoming_chunk(rdpsnd_pdu_bytes: &[u8]) -> Vec<u8> {
    let mut chunks = svc::chunkify(rdpsnd_pdu_bytes);
    assert_eq!(chunks.len(), 1, "test fixture too big for a single chunk");
    chunks.remove(0)
}

fn client_audio_formats_payload(formats: &[pdu::AudioFormat]) -> Vec<u8> {
    // The formats of a client, field by field.
    let mut body = Vec::new();
    body.write_u32_le(0);
    body.write_u32_le(0);
    body.write_u32_le(0);
    body.write_u16_be(0);
    body.write_u16_le(formats.len() as u16);
    body.write_u8(0);
    body.write_u16_le(6);
    body.write_u8(0);
    for f in formats {
        body.write_u16_le(f.format_tag);
        body.write_u16_le(f.n_channels);
        body.write_u32_le(f.n_samples_per_sec);
        body.write_u32_le(f.n_avg_bytes_per_sec);
        body.write_u16_le(f.n_block_align);
        body.write_u16_le(f.bits_per_sample);
        body.write_u16_le(0);
    }
    let mut out = Vec::new();
    out.write_u8(pdu::SNDC_FORMATS);
    out.write_u8(0);
    out.write_u16_le(body.len() as u16);
    out.extend(body);
    as_single_incoming_chunk(&out)
}

fn training_confirm_payload() -> Vec<u8> {
    let mut out = Vec::new();
    out.write_u8(pdu::SNDC_TRAINING);
    out.write_u8(0);
    out.write_u16_le(4);
    out.write_u16_le(0);
    out.write_u16_le(0);
    as_single_incoming_chunk(&out)
}

#[test]
fn full_negotiation_reaches_ready_and_starts_handler() {
    let formats = vec![pdu::AudioFormat::pcm(2, 48000, 16)];
    let handler = Box::new(FakeHandler {
        formats: formats.clone(),
        ..Default::default()
    });
    let (mut channel, initial) = RdpsndChannel::new(1004, 1002, handler);
    assert!(!initial.is_empty()); // Server Audio Formats went out immediately

    // No wave frames before negotiation completes.
    assert!(channel.encode_wave(vec![0; 10], 0).is_empty());

    let training = channel
        .on_channel_data(&client_audio_formats_payload(&formats))
        .unwrap();
    assert!(!training.is_empty(), "expects a Training PDU in response");

    assert!(
        channel
            .on_channel_data(&training_confirm_payload())
            .unwrap()
            .is_empty()
    );

    // Now negotiated and started - a wave chunk should encode.
    let wave = channel.encode_wave(vec![0xAB; 100], 1234);
    assert!(!wave.is_empty());
}

#[test]
fn wave_confirm_is_ignored_without_erroring() {
    let handler = Box::<FakeHandler>::default();
    let (mut channel, _initial) = RdpsndChannel::new(1004, 1002, handler);

    let mut wave_confirm = Vec::new();
    wave_confirm.write_u8(pdu::SNDC_WAVECONFIRM);
    wave_confirm.write_u8(0);
    wave_confirm.write_u16_le(4);
    wave_confirm.write_u16_le(0);
    wave_confirm.write_u8(0);
    wave_confirm.write_u8(0);

    assert!(
        channel
            .on_channel_data(&as_single_incoming_chunk(&wave_confirm))
            .unwrap()
            .is_empty()
    );
}

#[test]
fn a_large_wave_chunk_splits_into_multiple_svc_chunks() {
    let formats = vec![pdu::AudioFormat::pcm(2, 48000, 16)];
    let handler = Box::new(FakeHandler {
        formats: formats.clone(),
        ..Default::default()
    });
    let (mut channel, _initial) = RdpsndChannel::new(1004, 1002, handler);
    channel
        .on_channel_data(&client_audio_formats_payload(&formats))
        .unwrap();
    channel
        .on_channel_data(&training_confirm_payload())
        .unwrap();

    // A 20ms/48kHz/stereo/16-bit chunk is 3840 bytes of PCM - plus the
    // 12-byte Wave2 header, well over the 1600-byte default SVC chunk
    // size, so this must come back as more than one wire frame.
    let wave_frames = channel.encode_wave(vec![0x11; 3840], 0);
    assert!(
        wave_frames.len() > 1,
        "expected multiple SVC chunks, got {}",
        wave_frames.len()
    );
}
