//! Messages of the clipboard channel.

use rdpcore::cliprdr::pdu::{
    CB_FORMAT_LIST, CB_FORMAT_LIST_RESPONSE, CB_RESPONSE_OK, CF_UNICODETEXT, ClientMessage,
    decode_client_message, encode_format_data_request, encode_format_data_response_error,
    encode_format_data_response_text, encode_format_list_unicode_text, write_header,
};
use rdpcore::cursor::WriteBuf;

#[test]
fn format_list_round_trip_minimal_standard_entry() {
    let encoded = encode_format_list_unicode_text();
    assert_eq!(encoded.len(), 8 + 6);
    let decoded = decode_client_message(&encoded).unwrap();
    assert_eq!(decoded, ClientMessage::FormatList(vec![CF_UNICODETEXT]));
}

#[test]
fn format_data_response_text_round_trip() {
    let encoded = encode_format_data_response_text("hello");
    let decoded = decode_client_message(&encoded).unwrap();
    assert_eq!(
        decoded,
        ClientMessage::FormatDataResponse(Ok("hello".to_owned()))
    );
}

#[test]
fn format_data_response_error_round_trip() {
    let encoded = encode_format_data_response_error();
    let decoded = decode_client_message(&encoded).unwrap();
    assert_eq!(decoded, ClientMessage::FormatDataResponse(Err(())));
}

#[test]
fn format_data_request_round_trip() {
    let encoded = encode_format_data_request(CF_UNICODETEXT);
    let decoded = decode_client_message(&encoded).unwrap();
    assert_eq!(decoded, ClientMessage::FormatDataRequest(CF_UNICODETEXT));
}

#[test]
fn format_list_response_is_recognized() {
    let mut out = Vec::new();
    write_header(&mut out, CB_FORMAT_LIST_RESPONSE, CB_RESPONSE_OK, 0);
    assert_eq!(
        decode_client_message(&out).unwrap(),
        ClientMessage::FormatListResponse
    );
}

#[test]
fn unknown_message_types_decode_as_other_without_erroring() {
    let mut out = Vec::new();
    write_header(&mut out, 0x0006, 0, 4); // CB_TEMP_DIRECTORY, not implemented
    out.write_slice(&[0u8; 4]);
    assert_eq!(decode_client_message(&out).unwrap(), ClientMessage::Other);
}

#[test]
fn multi_format_list_finds_unicodetext_among_others() {
    // CF_TEXT(1, no name) then CF_UNICODETEXT(13, no name).
    let mut body = Vec::new();
    body.write_u32_le(1);
    body.write_u16_le(0);
    body.write_u32_le(CF_UNICODETEXT);
    body.write_u16_le(0);
    let mut out = Vec::new();
    write_header(&mut out, CB_FORMAT_LIST, 0, body.len());
    out.extend(body);

    let decoded = decode_client_message(&out).unwrap();
    assert_eq!(decoded, ClientMessage::FormatList(vec![1, CF_UNICODETEXT]));
}
