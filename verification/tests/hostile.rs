//! Whatever bytes come in, they are read or refused.

use rdpcore::capability_sets::ConfirmActive;
use rdpcore::client_info::ClientInfoPdu;
use rdpcore::cliprdr;
use rdpcore::cursor::ReadCursor;
use rdpcore::dvc;
use rdpcore::fastpath::{FastPathInput, FastPathOutput};
use rdpcore::finalization;
use rdpcore::gcc::{ClientGccBlocks, ConferenceCreateRequest, ConferenceCreateResponse};
use rdpcore::licensing;
use rdpcore::mcs::{
    AttachUserConfirm, AttachUserRequest, ChannelJoinConfirm, ChannelJoinRequest, ConnectInitial,
    ConnectResponse, DisconnectProviderUltimatum, ErectDomainRequest, SendData,
};
use rdpcore::rdp6;
use rdpcore::rdpdr::{irp, pdu};
use rdpcore::rdpeai;
use rdpcore::rdpegfx;
use rdpcore::rdpsnd;
use rdpcore::svc;
use rdpcore::tpkt::TpktHeader;
use rdpcore::utf16;
use rdpcore::x224;

fn read_everything(data: &[u8]) {
    let _ = TpktHeader::decode(&mut ReadCursor::new(data));
    let _ = x224::unwrap_data(data);
    let _ = x224::ConnectionRequest::decode(data);
    let _ = FastPathInput::decode(data);
    let _ = FastPathOutput::decode(data);
    let _ = ConnectInitial::decode(data);
    let _ = ConnectResponse::decode(data);
    let _ = ErectDomainRequest::decode(data);
    let _ = AttachUserRequest::decode(data);
    let _ = AttachUserConfirm::decode(data);
    let _ = ChannelJoinRequest::decode(data);
    let _ = ChannelJoinConfirm::decode(data);
    let _ = DisconnectProviderUltimatum::decode(data);
    let _ = SendData::decode_request(data);
    let _ = SendData::decode_indication(data);
    let _ = svc::dechunkify(data);
    let _ = utf16::decode_units(data);
    let _ = finalization::decode_suppress_output(data);
    let _ = finalization::decode_refresh_rect(data);
    let _ = licensing::decode_valid_client(data);
    let _ = rdp6::decode(data, 64, 64);
    let _ = ClientInfoPdu::decode(data);
    let _ = ConfirmActive::decode(data);
    let _ = ClientGccBlocks::decode(data);
    let _ = ConferenceCreateRequest::decode(data);
    let _ = ConferenceCreateResponse::decode(data);
    let _ = pdu::decode_client_message(data);
    let _ = irp::decode_create_reply(data);
    let _ = irp::decode_read_reply(data);
    let _ = irp::decode_write_reply(data);
    let _ = irp::decode_query_directory_reply(data);
    let _ = rdpegfx::pdu::decode_client_message(data);
    let _ = cliprdr::pdu::decode_client_message(data);
    let _ = dvc::pdu::decode_client_message(data);
    let _ = rdpeai::pdu::decode_client_message(data);
    let _ = rdpsnd::pdu::decode_client_message(data);
}

#[test]
fn arbitrary_bytes_are_read_or_refused() {
    let mut seed: u64 = 0x1234_5678_9ABC_DEF1;
    for n in 0..6000usize {
        let mut data: Vec<u8> = Vec::new();
        for _ in 0..n % 97 {
            seed ^= seed << 13;
            seed ^= seed >> 7;
            seed ^= seed << 17;
            // Small numbers often, so that lengths and kinds are hit.
            data.push(if seed & 3 == 0 { (seed >> 8) as u8 & 0x0F } else { (seed >> 8) as u8 });
        }
        read_everything(&data);
    }
}

#[test]
fn every_single_byte_repeated_is_read_or_refused() {
    for byte in 0..=255u8 {
        for n in [0usize, 1, 2, 3, 4, 7, 8, 9, 16, 33, 64, 300] {
            read_everything(&vec![byte; n]);
        }
    }
}

#[test]
fn every_beginning_of_a_message_is_read_or_refused() {
    let whole = x224::wrap_data(&AttachUserRequest.encode());
    for n in 0..whole.len() {
        read_everything(&whole[..n]);
    }
}
