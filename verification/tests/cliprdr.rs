//! The clipboard channel.

use rdpcore::cliprdr::{
    ClipboardFormat, ClipboardMessage, CliprdrBackend, CliprdrChannel, FormatDataRequest,
    FormatDataResponse, pdu,
};
use rdpcore::svc;

#[derive(Debug, Default)]
struct FakeBackend {
    ready: bool,
    remote_formats: Vec<ClipboardFormat>,
    last_request: Option<FormatDataRequest>,
    last_response: Option<FormatDataResponse>,
}

impl CliprdrBackend for FakeBackend {
    fn on_ready(&mut self) {
        self.ready = true;
    }
    fn on_remote_copy(&mut self, formats: &[ClipboardFormat]) {
        self.remote_formats = formats.to_vec();
    }
    fn on_format_data_request(&mut self, request: FormatDataRequest) {
        self.last_request = Some(request);
    }
    fn on_format_data_response(&mut self, response: FormatDataResponse) {
        self.last_response = Some(response);
    }
}

#[test]
fn new_channel_sends_capabilities_then_monitor_ready_and_calls_on_ready() {
    let (channel, initial) = CliprdrChannel::new(1004, 1002, Box::new(FakeBackend::default()));
    assert_eq!(initial.len(), 2);
    let _ = channel; // on_ready was called inside `new` on the boxed backend before it moved in
}

#[test]
fn incoming_format_list_triggers_on_remote_copy_and_acks() {
    let (mut channel, _initial) =
        CliprdrChannel::new(1004, 1002, Box::new(FakeBackend::default()));

    let wire = svc::chunkify(&pdu::encode_format_list_unicode_text());
    assert_eq!(wire.len(), 1);
    let response = channel.on_channel_data(&wire[0]).unwrap();
    assert_eq!(response.len(), 1); // Format List Response
}

#[test]
fn multi_chunk_incoming_message_is_reassembled_before_dispatch() {
    let (mut channel, _initial) =
        CliprdrChannel::new(1004, 1002, Box::new(FakeBackend::default()));

    let full = pdu::encode_format_list_unicode_text();
    // In two chunks, as a longer list would come.
    let mid = full.len() / 2;
    let mut first = Vec::new();
    first.extend_from_slice(&(full.len() as u32).to_le_bytes());
    first.extend_from_slice(&svc::CHANNEL_FLAG_FIRST.to_le_bytes());
    first.extend_from_slice(&full[..mid]);
    let mut second = Vec::new();
    second.extend_from_slice(&(full.len() as u32).to_le_bytes());
    second.extend_from_slice(&svc::CHANNEL_FLAG_LAST.to_le_bytes());
    second.extend_from_slice(&full[mid..]);

    assert!(channel.on_channel_data(&first).unwrap().is_empty()); // waiting for more
    let response = channel.on_channel_data(&second).unwrap();
    assert_eq!(response.len(), 1); // now dispatched: Format List Response went out
}

#[test]
fn encode_initiate_copy_only_for_unicode_text() {
    let (mut channel, _initial) =
        CliprdrChannel::new(1004, 1002, Box::new(FakeBackend::default()));
    let frames = channel.encode_message(ClipboardMessage::SendInitiateCopy(vec![
        ClipboardFormat::unicode_text(),
    ]));
    assert_eq!(frames.len(), 1);

    // A format that cannot be offered: nothing is sent.
    let frames =
        channel.encode_message(ClipboardMessage::SendInitiateCopy(vec![ClipboardFormat {
            id: 2,
        }]));
    assert!(frames.is_empty());
}

#[test]
fn format_data_request_response_round_trip_via_wire() {
    let (mut channel, _initial) =
        CliprdrChannel::new(1004, 1002, Box::new(FakeBackend::default()));

    let request_wire =
        channel.encode_message(ClipboardMessage::SendInitiatePaste(pdu::CF_UNICODETEXT));
    assert_eq!(request_wire.len(), 1);

    let response_wire = channel.encode_message(ClipboardMessage::SendFormatData(
        FormatDataResponse::new_unicode_string("hello"),
    ));
    assert_eq!(response_wire.len(), 1);
}
