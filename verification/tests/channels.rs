//! Clipboard, audio and dynamic channels, from message to frames and back.

use std::sync::{Arc, Mutex};

use rdpcore::cliprdr::{
    self, BackendCall, ClipboardFormat, ClipboardMessage, CliprdrBackend, CliprdrChannel, FormatDataRequest,
    FormatDataResponse,
};
use rdpcore::dvc::echo::{EchoHandler, EchoListener};
use rdpcore::dvc::{self, DvcHandler, DvcMux, MuxEvent};
use rdpcore::mcs::SendData;
use rdpcore::rdpeai::{AudioInputBackend, AudioInputHandler, State};
use rdpcore::rdpsnd::pdu::{AudioFormat, NegotiatedFormat};
use rdpcore::rdpsnd::{self, RdpsndChannel, RdpsndError, RdpsndServerHandler};
use rdpcore::svc;
use rdpcore::x224;

struct Silent;

impl CliprdrBackend for Silent {
    fn on_ready(&mut self) {}
    fn on_remote_copy(&mut self, _formats: &[ClipboardFormat]) {}
    fn on_format_data_request(&mut self, _request: FormatDataRequest) {}
    fn on_format_data_response(&mut self, _response: FormatDataResponse) {}
}

/// What a frame carries, and the channel it goes to.
fn carried(frame: &[u8]) -> (u16, Vec<u8>) {
    let send_data = SendData::decode_indication(x224::unwrap_data(frame).unwrap()).unwrap();
    let (_, _, data) = svc::dechunkify(&send_data.data).unwrap();
    (send_data.channel_id, data.to_vec())
}

#[test]
fn a_clipboard_begins_with_its_capabilities() {
    let (channel, initial) = CliprdrChannel::new(1004, 1002, Box::new(Silent));
    assert_eq!(channel.channel_id(), 1004);
    assert_eq!(carried(&initial[0]), (1004, cliprdr::pdu::encode_capabilities()));
    assert_eq!(carried(&initial[1]), (1004, cliprdr::pdu::encode_monitor_ready()));
    assert_eq!(cliprdr::pdu::encode_monitor_ready(), [1, 0, 0, 0, 0, 0, 0, 0]);
}

#[test]
fn clipboard_text_comes_through_as_it_is() {
    let text = "grüße \u{1F600}";
    let answer = FormatDataResponse::new_unicode_string(text);
    assert!(!answer.is_error());
    assert_eq!(answer.to_unicode_string().as_deref(), Some(text));
    assert!(FormatDataResponse::new_error().is_error());
    assert_eq!(FormatDataResponse::new_error().to_unicode_string(), None);

    let (mut here, _) = CliprdrChannel::new(1004, 1002, Box::new(Silent));
    let frames = here.encode_message(ClipboardMessage::SendFormatData(answer));
    let (_, body) = carried(&frames[0]);
    let (mut there, _) = CliprdrChannel::new(1004, 1002, Box::new(Silent));
    let (answers, call) = there.receive(&svc::chunkify(&body)[0]).unwrap();
    assert!(answers.is_empty());
    match call {
        Some(BackendCall::DataResponse(r)) => assert_eq!(r.to_unicode_string().as_deref(), Some(text)),
        _ => panic!("expected a response with text"),
    }
}

#[test]
fn an_offer_of_formats_is_acknowledged() {
    let (mut channel, _) = CliprdrChannel::new(1004, 1002, Box::new(Silent));
    let offer = svc::chunkify(&cliprdr::pdu::encode_format_list_unicode_text());
    let (answers, call) = channel.receive(&offer[0]).unwrap();
    assert_eq!(
        carried(&answers[0]),
        (1004, cliprdr::pdu::encode_format_list_response_ok())
    );
    assert!(matches!(call, Some(BackendCall::RemoteCopy(formats))
        if formats == [ClipboardFormat::unicode_text()]));
}

#[derive(Clone, Default)]
struct Echoes(Arc<Mutex<Vec<bool>>>);

impl EchoListener for Echoes {
    fn on_result(&mut self, matched: bool) {
        self.0.lock().unwrap().push(matched);
    }
}

#[test]
fn an_echo_is_compared_with_what_was_sent() {
    let echoes = Echoes::default();
    let mut handler = EchoHandler::new(b"ping".to_vec(), Box::new(echoes.clone()));
    assert_eq!(handler.channel_name(), "ECHO");
    assert_eq!(handler.on_open(), [b"ping".to_vec()]);
    assert!(handler.matches(b"ping"));
    assert!(handler.on_data(b"ping").is_empty());
    assert!(handler.on_data(b"pong").is_empty());
    assert_eq!(*echoes.0.lock().unwrap(), [true, false]);
}

/// A multiplexer with one channel open, whose number is one.
fn with_one_channel() -> DvcMux {
    let (mut mux, _) = DvcMux::new(1005, 1002);
    mux.register_channel(Box::new(EchoHandler::new(Vec::new(), Box::new(Echoes::default()))));
    let answer = svc::chunkify(&[0x50, 0, 2, 0]);
    assert_eq!(mux.on_channel_data(&answer[0]).unwrap().len(), 1);
    let created = svc::chunkify(&[0x10, 1, 0, 0, 0, 0]);
    mux.on_channel_data(&created[0]).unwrap();
    mux
}

#[test]
fn an_open_channel_is_found_by_its_name() {
    let mut mux = with_one_channel();
    assert_eq!(mux.channel_id_for_name("ECHO"), Some(1));
    assert_eq!(mux.channel_id_for_name("AUDIO_INPUT"), None);
    let close = svc::chunkify(&dvc::pdu::encode_close(1));
    mux.on_channel_data(&close[0]).unwrap();
    assert_eq!(mux.channel_id_for_name("ECHO"), None);
}

#[test]
fn a_long_payload_is_whole_again_on_the_other_side() {
    let payload: Vec<u8> = (0..4000u32).map(|i| (i % 251) as u8).collect();
    let parts = dvc::pdu::encode_channel_payload(1, &payload);
    assert_eq!(parts.len(), 3);
    assert_eq!(
        parts[0],
        dvc::pdu::encode_data_first(1, 4000, &payload[..dvc::pdu::MAX_DATA_SIZE])
    );
    let mut mux = with_one_channel();
    let mut delivered = Vec::new();
    for part in parts {
        match mux.receive(&svc::chunkify(&part)[0]).unwrap() {
            MuxEvent::Nothing => {}
            MuxEvent::Deliver(at, data) => delivered.push((at, data)),
            _ => panic!("nothing else can happen"),
        }
    }
    assert_eq!(delivered, [(0, payload)]);
}

/// A channel of a name that says nothing.
struct Named(&'static str);

impl DvcHandler for Named {
    fn channel_name(&self) -> &str {
        self.0
    }
    fn on_open(&mut self) -> Vec<Vec<u8>> {
        Vec::new()
    }
    fn on_data(&mut self, _data: &[u8]) -> Vec<Vec<u8>> {
        Vec::new()
    }
}

#[test]
fn channels_that_wait_are_asked_for_in_order() {
    let (mut mux, _) = DvcMux::new(1005, 1002);
    for name in ["FIRST", "SECOND", "FIRST"] {
        assert!(mux.register_channel(Box::new(Named(name))).is_empty());
    }
    assert_eq!(mux.channel_id_for_name("FIRST"), None);
    let answer = svc::chunkify(&[0x50, 0, 2, 0]);
    let frames = mux.on_channel_data(&answer[0]).unwrap();
    let asked: Vec<_> = frames.iter().map(|f| carried(f)).collect();
    assert_eq!(
        asked,
        [
            (1005, dvc::pdu::encode_create_request(1, "FIRST")),
            (1005, dvc::pdu::encode_create_request(2, "SECOND")),
            (1005, dvc::pdu::encode_create_request(3, "FIRST")),
        ]
    );
    assert_eq!(mux.channel_id_for_name("FIRST"), Some(1));
    assert_eq!(mux.channel_id_for_name("SECOND"), Some(2));
    assert_eq!(mux.channel_id_for_name("THIRD"), None);
    let later = mux.register_channel(Box::new(Named("THIRD")));
    assert_eq!(later.len(), 1);
    assert_eq!(carried(&later[0]), (1005, dvc::pdu::encode_create_request(4, "THIRD")));
    assert_eq!(mux.channel_id_for_name("THIRD"), Some(4));
}

#[test]
fn parts_of_any_length_come_together() {
    let mut mux = with_one_channel();
    let mut deliveries = Vec::new();
    let messages = [
        dvc::pdu::encode_data_first(1, 9, b"ab"),
        dvc::pdu::encode_data(1, b""),
        dvc::pdu::encode_data(1, b"cdefgh"),
        dvc::pdu::encode_data(1, b"ijk"),
        dvc::pdu::encode_data(1, b"alone"),
        dvc::pdu::encode_data_first(1, 3, b"whole"),
    ];
    for message in messages {
        match mux.receive(&svc::chunkify(&message)[0]).unwrap() {
            MuxEvent::Nothing => deliveries.push(None),
            MuxEvent::Deliver(at, data) => deliveries.push(Some((at, data))),
            _ => panic!("nothing else can happen"),
        }
    }
    assert_eq!(
        deliveries,
        [
            None,
            None,
            None,
            Some((0, b"abcdefghijk".to_vec())),
            Some((0, b"alone".to_vec())),
            Some((0, b"whole".to_vec())),
        ]
    );
}

#[test]
fn data_for_a_channel_that_is_not_there_reaches_nobody() {
    let mut mux = with_one_channel();
    for message in [dvc::pdu::encode_data(2, b"lost"), dvc::pdu::encode_data_first(2, 9, b"lost")] {
        match mux.receive(&svc::chunkify(&message)[0]).unwrap() {
            MuxEvent::Nothing => {}
            _ => panic!("there is no such channel"),
        }
    }
}

#[test]
fn payloads_are_wrapped_for_the_channel() {
    let mux = with_one_channel();
    let frames = mux.wrap_channel_payloads(1, vec![b"one".to_vec(), b"two".to_vec()]);
    assert_eq!(frames.len(), 2);
    assert_eq!(carried(&frames[1]), (1005, dvc::pdu::encode_data(1, b"two")));
}

struct Player {
    formats: Vec<AudioFormat>,
    stopped: Arc<Mutex<u32>>,
}

impl RdpsndServerHandler for Player {
    fn get_formats(&self) -> &[AudioFormat] {
        &self.formats
    }
    fn choose_format(&mut self, common: &[NegotiatedFormat]) -> Option<NegotiatedFormat> {
        common.last().cloned()
    }
    fn start(&mut self, _format: &NegotiatedFormat) -> Result<(), Box<dyn RdpsndError>> {
        Ok(())
    }
    fn stop(&mut self) {
        *self.stopped.lock().unwrap() += 1;
    }
}

#[test]
fn audio_flows_once_the_training_is_confirmed() {
    let stopped = Arc::new(Mutex::new(0));
    let formats = vec![AudioFormat::pcm(2, 44_100, 16), AudioFormat::pcm(2, 48_000, 16)];
    let (mut channel, initial) = RdpsndChannel::new(
        1006,
        1002,
        Box::new(Player { formats: formats.clone(), stopped: stopped.clone() }),
    );
    assert_eq!(
        carried(&initial[0]),
        (1006, rdpsnd::pdu::encode_server_audio_formats(&formats))
    );
    assert!(channel.encode_wave(vec![1, 2, 3, 4], 0).is_empty());

    // The client has one of them, with other numbers in it that do not count.
    let mut its_own = AudioFormat::pcm(2, 48_000, 16);
    its_own.n_avg_bytes_per_sec = 0;
    assert!(its_own.negotiation_eq(&formats[1]));
    let mut body = vec![0; 14];
    body.extend_from_slice(&1u16.to_le_bytes());
    body.extend_from_slice(&[0, 2, 0, 0]);
    rdpsnd::pdu::write_formats(&mut body, &[its_own]);
    let mut message = Vec::new();
    rdpsnd::pdu::write_header(&mut message, rdpsnd::pdu::SNDC_FORMATS, body.len());
    message.extend_from_slice(&body);
    let frames = channel.on_channel_data(&svc::chunkify(&message)[0]).unwrap();
    assert_eq!(carried(&frames[0]), (1006, rdpsnd::pdu::encode_training()));
    assert!(channel.encode_wave(vec![1, 2, 3, 4], 0).is_empty());

    let mut confirm = Vec::new();
    rdpsnd::pdu::write_header(&mut confirm, rdpsnd::pdu::SNDC_TRAINING, 4);
    confirm.extend_from_slice(&[0; 4]);
    assert!(channel.on_channel_data(&svc::chunkify(&confirm)[0]).unwrap().is_empty());
    let first = channel.encode_wave(vec![1, 2, 3, 4], 7);
    let second = channel.encode_wave(vec![5, 6, 7, 8], 8);
    assert_eq!(
        carried(&first[0]).1,
        rdpsnd::pdu::encode_wave2(0, 0, 7, &[1, 2, 3, 4])
    );
    assert_eq!(
        carried(&second[0]).1,
        rdpsnd::pdu::encode_wave2(0, 1, 8, &[5, 6, 7, 8])
    );
    assert_eq!(*stopped.lock().unwrap(), 0);
    channel.stop();
    assert_eq!(*stopped.lock().unwrap(), 1);
}

struct Microphone;

impl AudioInputBackend for Microphone {
    fn on_audio_data(&mut self, _format: &rdpcore::rdpeai::pdu::AudioFormat, _data: &[u8]) {}
}

#[test]
fn nothing_is_recorded_before_it_is_agreed_on() {
    let mut handler = AudioInputHandler::new(Box::new(Microphone));
    let (answers, recorded) = handler.receive(&[6, 1, 2, 3]);
    assert!(answers.is_empty());
    assert_eq!(recorded, None);
    assert_eq!(handler.state(), State::WaitVersion);
    // Formats before a version are not taken either.
    let (answers, _) = handler.receive(&[1, 2, 0, 0, 0]);
    assert_eq!(answers.len(), 1);
    assert_eq!(handler.state(), State::WaitFormats);
}
