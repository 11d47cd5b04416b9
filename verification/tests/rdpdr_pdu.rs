//! Messages of the device redirection channel.

use rdpcore::cursor::WriteBuf;
use rdpcore::rdpdr::pdu::{
    CAP_DRIVE_TYPE, CAP_GENERAL_TYPE, CAP_PRINTER_TYPE, ClientMessage, DeviceAnnounce,
    PAKID_CORE_CLIENTID_CONFIRM, PAKID_CORE_CLIENT_CAPABILITY, PAKID_CORE_CLIENT_NAME,
    PAKID_CORE_DEVICELIST_ANNOUNCE, PAKID_CORE_DEVICE_IOCOMPLETION, PAKID_CORE_SERVER_ANNOUNCE,
    PAKID_CORE_USER_LOGGEDON, RDPDR_CTYP_CORE, RDPDR_DTYP_FILESYSTEM, RDPDR_DTYP_PRINT,
    RDPDR_PRINTER_ANNOUNCE_FLAG_ASCII, RDPDR_PRINTER_ANNOUNCE_FLAG_DEFAULTPRINTER, STATUS_SUCCESS,
    VERSION_MAJOR, VERSION_MINOR, decode_client_message, decode_printer_device_data,
    encode_client_id_confirm, encode_device_reply, encode_server_announce_request,
    encode_server_capability_request, encode_user_logged_on, write_header,
};
use rdpcore::utf16;

#[test]
fn server_announce_request_layout() {
    let encoded = encode_server_announce_request(0x1234_5678);
    assert_eq!(encoded.len(), 12);
    assert_eq!(&encoded[0..2], &RDPDR_CTYP_CORE.to_le_bytes());
    assert_eq!(&encoded[2..4], &PAKID_CORE_SERVER_ANNOUNCE.to_le_bytes());
    assert_eq!(&encoded[4..6], &VERSION_MAJOR.to_le_bytes());
    assert_eq!(&encoded[6..8], &VERSION_MINOR.to_le_bytes());
    assert_eq!(&encoded[8..12], &0x1234_5678u32.to_le_bytes());
}

#[test]
fn client_id_confirm_and_user_logged_on_round_trip_component() {
    let confirm = encode_client_id_confirm(42);
    assert_eq!(confirm.len(), 12);
    let logged_on = encode_user_logged_on();
    assert_eq!(logged_on.len(), 4);
    assert_eq!(&logged_on[2..4], &PAKID_CORE_USER_LOGGEDON.to_le_bytes());
}

#[test]
fn server_capability_request_advertises_general_and_drive() {
    let encoded = encode_server_capability_request(RDPDR_DTYP_FILESYSTEM);
    // header(4) + numCapabilities/padding(4) + general(8+36) + drive(8)
    assert_eq!(encoded.len(), 4 + 4 + 44 + 8);
    assert_eq!(&encoded[4..6], &2u16.to_le_bytes()); // numCapabilities
    let general_type = u16::from_le_bytes([encoded[8], encoded[9]]);
    assert_eq!(general_type, CAP_GENERAL_TYPE);
    let drive_offset = 8 + 44;
    let drive_type = u16::from_le_bytes([encoded[drive_offset], encoded[drive_offset + 1]]);
    assert_eq!(drive_type, CAP_DRIVE_TYPE);
}

#[test]
fn server_capability_request_adds_printer_when_supported() {
    let encoded = encode_server_capability_request(RDPDR_DTYP_FILESYSTEM | RDPDR_DTYP_PRINT);
    assert_eq!(encoded.len(), 4 + 4 + 44 + 8 + 8); // + printer capset (header-only, like drive)
    assert_eq!(&encoded[4..6], &3u16.to_le_bytes()); // numCapabilities
    let printer_offset = 8 + 44 + 8;
    let printer_type =
        u16::from_le_bytes([encoded[printer_offset], encoded[printer_offset + 1]]);
    assert_eq!(printer_type, CAP_PRINTER_TYPE);
}

#[test]
fn server_capability_request_general_only_when_nothing_supported() {
    let encoded = encode_server_capability_request(0);
    assert_eq!(encoded.len(), 4 + 4 + 44);
    assert_eq!(&encoded[4..6], &1u16.to_le_bytes());
}

#[test]
fn decodes_printer_device_data_unicode() {
    let mut body = Vec::new();
    body.write_u32_le(RDPDR_PRINTER_ANNOUNCE_FLAG_DEFAULTPRINTER); // Flags (not ASCII)
    body.write_u32_le(0); // CodePage
    let pnp_name = utf16::encode_units("PNPNAME");
    let driver_name = utf16::encode_units("MyDriver");
    let print_name = utf16::encode_units("MyPrinter");
    body.write_u32_le(pnp_name.len() as u32);
    body.write_u32_le(driver_name.len() as u32);
    body.write_u32_le(print_name.len() as u32);
    body.write_u32_le(0); // CachedFieldsLen
    body.write_slice(&pnp_name);
    body.write_slice(&driver_name);
    body.write_slice(&print_name);

    let decoded = decode_printer_device_data(&body).unwrap();
    assert_eq!(decoded.driver_name, "MyDriver");
    assert_eq!(decoded.print_name, "MyPrinter");
    assert!(decoded.is_default);
}

#[test]
fn decodes_printer_device_data_ascii() {
    let mut body = Vec::new();
    body.write_u32_le(RDPDR_PRINTER_ANNOUNCE_FLAG_ASCII);
    body.write_u32_le(0);
    body.write_u32_le(0); // empty PnPName
    body.write_u32_le(9); // "MyDriver\0".len()
    body.write_u32_le(10); // "MyPrinter\0".len()
    body.write_u32_le(0);
    body.write_slice(b"MyDriver\0");
    body.write_slice(b"MyPrinter\0");

    let decoded = decode_printer_device_data(&body).unwrap();
    assert_eq!(decoded.driver_name, "MyDriver");
    assert_eq!(decoded.print_name, "MyPrinter");
    assert!(!decoded.is_default);
}

#[test]
fn printer_device_data_parse_failure_returns_none_not_panic() {
    assert_eq!(decode_printer_device_data(&[0, 1, 2]), None);
}

#[test]
fn device_reply_round_trip_fields() {
    let encoded = encode_device_reply(7, STATUS_SUCCESS);
    assert_eq!(encoded.len(), 12);
    assert_eq!(&encoded[4..8], &7u32.to_le_bytes());
    assert_eq!(&encoded[8..12], &STATUS_SUCCESS.to_le_bytes());
}

fn build_device_list_announce(devices: &[(u32, u32, &str)]) -> Vec<u8> {
    let mut body = Vec::new();
    body.write_u32_le(devices.len() as u32);
    for (device_type, device_id, dos_name) in devices {
        body.write_u32_le(*device_type);
        body.write_u32_le(*device_id);
        let mut name_bytes = dos_name.as_bytes().to_vec();
        name_bytes.resize(8, 0);
        body.write_slice(&name_bytes);
        body.write_u32_le(0); // DeviceDataLength
    }
    let mut out = Vec::new();
    write_header(&mut out, PAKID_CORE_DEVICELIST_ANNOUNCE);
    out.write_slice(&body);
    out
}

#[test]
fn decodes_device_list_announce_with_filesystem_device() {
    let wire = build_device_list_announce(&[(RDPDR_DTYP_FILESYSTEM, 1, "share")]);
    let decoded = decode_client_message(&wire).unwrap();
    assert_eq!(
        decoded,
        ClientMessage::DeviceListAnnounce(vec![DeviceAnnounce {
            device_type: RDPDR_DTYP_FILESYSTEM,
            device_id: 1,
            preferred_dos_name: "share".to_owned(),
            device_data: Vec::new(),
        }])
    );
}

#[test]
fn decodes_device_list_announce_with_full_length_dos_name_no_nul() {
    // Exactly 8 ASCII chars, which leave no room for a NUL.
    let wire = build_device_list_announce(&[(RDPDR_DTYP_FILESYSTEM, 2, "12345678")]);
    let decoded = decode_client_message(&wire).unwrap();
    assert_eq!(
        decoded,
        ClientMessage::DeviceListAnnounce(vec![DeviceAnnounce {
            device_type: RDPDR_DTYP_FILESYSTEM,
            device_id: 2,
            preferred_dos_name: "12345678".to_owned(),
            device_data: Vec::new(),
        }])
    );
}

#[test]
fn decodes_device_io_completion_header_and_leaves_body_raw() {
    let mut out = Vec::new();
    write_header(&mut out, PAKID_CORE_DEVICE_IOCOMPLETION);
    out.write_u32_le(1); // DeviceId
    out.write_u32_le(99); // CompletionId
    out.write_u32_le(STATUS_SUCCESS); // IoStatus
    out.write_slice(&[0xAA, 0xBB]);

    let decoded = decode_client_message(&out).unwrap();
    assert_eq!(
        decoded,
        ClientMessage::DeviceIoCompletion {
            device_id: 1,
            completion_id: 99,
            io_status: STATUS_SUCCESS,
            body: vec![0xAA, 0xBB],
        }
    );
}

#[test]
fn simple_header_only_messages_are_recognized() {
    let mut announce_reply = Vec::new();
    write_header(&mut announce_reply, PAKID_CORE_CLIENTID_CONFIRM);
    assert_eq!(
        decode_client_message(&announce_reply).unwrap(),
        ClientMessage::AnnounceReply
    );

    let mut client_name = Vec::new();
    write_header(&mut client_name, PAKID_CORE_CLIENT_NAME);
    assert_eq!(
        decode_client_message(&client_name).unwrap(),
        ClientMessage::ClientName
    );

    let mut client_cap = Vec::new();
    write_header(&mut client_cap, PAKID_CORE_CLIENT_CAPABILITY);
    assert_eq!(
        decode_client_message(&client_cap).unwrap(),
        ClientMessage::ClientCapability
    );

    let mut user_logged_on = Vec::new();
    write_header(&mut user_logged_on, PAKID_CORE_USER_LOGGEDON);
    assert_eq!(
        decode_client_message(&user_logged_on).unwrap(),
        ClientMessage::UserLoggedOn
    );
}

#[test]
fn unknown_packet_id_decodes_as_other() {
    let mut out = Vec::new();
    write_header(&mut out, 0xFFFF);
    assert_eq!(decode_client_message(&out).unwrap(), ClientMessage::Other);
}
