//! Dynamic channels over one static channel.

use rdpcore::cursor::WriteBuf;
use rdpcore::dvc::{DvcHandler, DvcMux, pdu};
use rdpcore::mcs::SendData;
use rdpcore::svc;
use rdpcore::x224;

#[derive(Debug, Default)]
struct RecordingHandler {
    name: &'static str,
    opened: bool,
    received: Vec<Vec<u8>>,
    reply_with: Vec<Vec<u8>>,
}

impl DvcHandler for RecordingHandler {
    fn channel_name(&self) -> &str {
        self.name
    }
    fn on_open(&mut self) -> Vec<Vec<u8>> {
        self.opened = true;
        self.reply_with.clone()
    }
    fn on_data(&mut self, data: &[u8]) -> Vec<Vec<u8>> {
        self.received.push(data.to_vec());
        Vec::new()
    }
}

#[test]
fn full_lifecycle_open_data_close() {
    let (mut mux, initial) = DvcMux::new(1005, 1002);
    assert_eq!(initial.len(), 1); // Capability Request

    // Client responds to capability negotiation.
    let cap_response_wire = svc::chunkify(&{
        let mut raw = Vec::new();
        raw.write_u8(0x05 << 4);
        raw.write_u8(0);
        raw.write_u16_le(2);
        raw
    });
    assert_eq!(cap_response_wire.len(), 1);

    let handler = Box::new(RecordingHandler {
        name: "TEST",
        ..Default::default()
    });
    // Registered before negotiation completes - should be queued.
    assert!(mux.register_channel(handler).is_empty());

    let create_requests = mux.on_channel_data(&cap_response_wire[0]).unwrap();
    assert_eq!(create_requests.len(), 1); // Create Request for the queued channel

    // Client confirms creation with channel_id=1 (server's first allocation).
    let create_response_wire = svc::chunkify(&{
        let mut raw = Vec::new();
        raw.write_u8(0x01 << 4);
        raw.write_u8(1);
        raw.write_u32_le(0);
        raw
    });
    let opened_frames = mux.on_channel_data(&create_response_wire[0]).unwrap();
    assert!(opened_frames.is_empty()); // RecordingHandler's on_open reply_with is empty by default

    // Client sends data on the now-open channel.
    let data_wire = svc::chunkify(&pdu::encode_data(1, b"hello"));
    assert!(mux.on_channel_data(&data_wire[0]).unwrap().is_empty());

    // Client closes the channel.
    let close_wire = svc::chunkify(&pdu::encode_close(1));
    assert!(mux.on_channel_data(&close_wire[0]).unwrap().is_empty());
}

#[test]
fn on_open_reply_payload_reaches_the_wire_as_a_data_pdu() {
    let (mut mux, _initial) = DvcMux::new(1005, 1002);
    // Nothing waits yet, so the answer to the capabilities brings nothing.
    let cap_response_wire = svc::chunkify(&{
        let mut raw = Vec::new();
        raw.write_u8(0x05 << 4);
        raw.write_u8(0);
        raw.write_u16_le(2);
        raw
    });
    assert!(mux.on_channel_data(&cap_response_wire[0]).unwrap().is_empty());

    let handler = Box::new(RecordingHandler {
        name: "TEST",
        reply_with: vec![b"greetings".to_vec()],
        ..Default::default()
    });
    let create_request = mux.register_channel(handler);
    assert_eq!(create_request.len(), 1);

    let create_response_wire = svc::chunkify(&{
        let mut raw = Vec::new();
        raw.write_u8(0x01 << 4);
        raw.write_u8(1);
        raw.write_u32_le(0);
        raw
    });
    let reply_frames = mux.on_channel_data(&create_response_wire[0]).unwrap();
    assert_eq!(reply_frames.len(), 1);

    // Unwrap the wire frame back down to the DVC Data PDU to confirm
    // the handler's payload made it through encode_channel_payload.
    let x224_payload = x224::unwrap_data(&reply_frames[0]).unwrap();
    let send_data = SendData::decode_indication(x224_payload).unwrap();
    let (_, _, dvc_pdu) = svc::dechunkify(&send_data.data).unwrap();
    assert_eq!(
        pdu::decode_client_message(dvc_pdu).unwrap(),
        pdu::ClientMessage::Data {
            channel_id: 1,
            data: b"greetings".to_vec()
        }
    );
}
