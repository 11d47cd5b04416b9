//! The audio input channel.

use std::sync::{Arc, Mutex};

use rdpcore::cursor::WriteBuf;
use rdpcore::dvc::DvcHandler;
use rdpcore::model::Held;
use rdpcore::rdpeai::pdu::AudioFormat;
use rdpcore::rdpeai::{
    AudioInputBackend, AudioInputBackendFactory, AudioInputHandler, State, negotiate, pdu,
};

#[derive(Debug, Default)]
struct RecordingBackend {
    received: Vec<(AudioFormat, Vec<u8>)>,
}

impl AudioInputBackend for RecordingBackend {
    fn on_audio_data(&mut self, format: &AudioFormat, data: &[u8]) {
        self.received.push((format.clone(), data.to_vec()));
    }
}

fn client_formats_matching_server() -> Vec<AudioFormat> {
    vec![AudioFormat::pcm(2, 48_000, 16)]
}

#[test]
fn full_sequence_reaches_streaming_and_delivers_audio() {
    let mut handler = AudioInputHandler::new(Box::<RecordingBackend>::default());
    assert_eq!(handler.channel_name(), "AUDIO_INPUT");

    let opened = handler.on_open();
    assert_eq!(opened.len(), 1); // Version PDU

    let formats_reply = handler.on_data(&pdu::encode_version(pdu::VERSION_2));
    assert_eq!(formats_reply.len(), 1); // our Formats PDU goes out

    let client_formats = pdu::encode_formats(&client_formats_matching_server());
    let open_frames = handler.on_data(&client_formats);
    assert_eq!(open_frames.len(), 1); // Open PDU
    assert!(matches!(handler.state(), State::WaitOpenReply));

    let mut open_reply = Vec::new();
    WriteBuf::write_u8(&mut open_reply, 0x04);
    WriteBuf::write_u32_le(&mut open_reply, 0);
    assert!(handler.on_data(&open_reply).is_empty());
    assert!(matches!(handler.state(), State::Streaming));

    let mut data_pdu = vec![0x06u8];
    data_pdu.extend_from_slice(&[0x11; 40]);
    assert!(handler.on_data(&data_pdu).is_empty());
}

#[test]
fn no_compatible_format_never_sends_open() {
    let mut handler = AudioInputHandler::new(Box::<RecordingBackend>::default());
    handler.on_open();
    handler.on_data(&pdu::encode_version(pdu::VERSION_2));

    let incompatible = vec![AudioFormat::pcm(1, 8_000, 8)];
    let response = handler.on_data(&pdu::encode_formats(&incompatible));
    assert!(response.is_empty());
}

#[test]
fn negotiate_picks_first_server_format_with_any_client_match() {
    let server = vec![AudioFormat::pcm(2, 48_000, 16), AudioFormat::pcm(1, 16_000, 16)];
    let client = vec![AudioFormat::pcm(1, 16_000, 16)];
    assert_eq!(negotiate(&server, &client), Some(1));
}

/// The audio that its backends were given.
#[derive(Clone, Default)]
struct Tape(Arc<Mutex<Vec<(AudioFormat, Vec<u8>)>>>);

impl AudioInputBackend for Tape {
    fn on_audio_data(&mut self, format: &AudioFormat, data: &[u8]) {
        self.0.lock().unwrap().push((format.clone(), data.to_vec()));
    }
}

impl AudioInputBackendFactory for Tape {
    fn build_backend(&self) -> Held<Box<dyn AudioInputBackend>> {
        Held { value: Box::new(self.clone()) }
    }
}

#[test]
fn audio_is_handed_on_in_the_format_that_was_agreed_on() {
    let tape = Tape::default();
    let mut handler = AudioInputHandler::new(tape.build_backend().value);
    handler.on_open();
    // Out of turn, nothing is handed on.
    handler.on_data(&[0x06, 1, 2]);
    handler.on_data(&pdu::encode_version(pdu::VERSION_2));
    handler.on_data(&pdu::encode_formats(&client_formats_matching_server()));
    handler.on_data(&[0x04, 0, 0, 0, 0]);
    assert!(tape.0.lock().unwrap().is_empty());
    handler.on_data(&[0x06, 7, 8, 9]);
    handler.on_data(&[0x05]);
    assert_eq!(*tape.0.lock().unwrap(), [(AudioFormat::pcm(2, 48_000, 16), vec![7, 8, 9])]);
}
