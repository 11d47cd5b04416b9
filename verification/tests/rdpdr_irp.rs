//! Requests on devices, and their replies.

use rdpcore::cursor::WriteBuf;
use rdpcore::rdpdr::irp::{
    CreateReply, FILE_ATTRIBUTE_NORMAL, FILE_BASIC_INFORMATION, FILE_DISPOSITION_INFORMATION,
    FILE_END_OF_FILE_INFORMATION, FILE_OPEN, FILE_OPENED, FILE_RENAME_INFORMATION, GENERIC_READ,
    IRP_MJ_CREATE, IRP_MJ_SET_INFORMATION, decode_create_reply, decode_query_directory_reply,
    decode_read_reply, decode_write_reply, encode_close_request, encode_create_request,
    encode_query_directory_request, encode_read_request, encode_set_basic_information_request,
    encode_set_disposition_request, encode_set_end_of_file_request, encode_set_rename_request,
    encode_write_request,
};
use rdpcore::rdpdr::pdu;
use rdpcore::utf16;

fn encode_directory_entry_body(file_name: &str, end_of_file: i64, attributes: u32) -> Vec<u8> {
    let mut name_bytes = utf16::encode_units(file_name);
    let mut entry = Vec::new();
    entry.write_u32_le(0); // NextEntryOffset
    entry.write_u32_le(1); // FileIndex
    entry.write_u64_le(0); // CreationTime
    entry.write_u64_le(0); // LastAccessTime
    entry.write_u64_le(0); // LastWriteTime
    entry.write_u64_le(0); // ChangeTime
    entry.write_u64_le(end_of_file as u64);
    entry.write_u64_le(0); // AllocationSize
    entry.write_u32_le(attributes);
    entry.write_u32_le(name_bytes.len() as u32);
    entry.append(&mut name_bytes);

    let mut body = Vec::new();
    body.write_u32_le(entry.len() as u32);
    body.append(&mut entry);
    body
}

#[test]
fn create_request_round_trip_layout() {
    let encoded = encode_create_request(1, 5, "\\foo.txt", GENERIC_READ, FILE_OPEN, 0);
    assert_eq!(&encoded[0..2], &pdu::RDPDR_CTYP_CORE.to_le_bytes());
    assert_eq!(
        &encoded[2..4],
        &pdu::PAKID_CORE_DEVICE_IOREQUEST.to_le_bytes()
    );
    assert_eq!(&encoded[4..8], &1u32.to_le_bytes()); // DeviceId
    assert_eq!(&encoded[8..12], &0u32.to_le_bytes()); // FileId (unknown yet)
    assert_eq!(&encoded[12..16], &5u32.to_le_bytes()); // CompletionId
    assert_eq!(&encoded[16..20], &IRP_MJ_CREATE.to_le_bytes());
    // fixed body starts at offset 24: DesiredAccess..PathLength = 32 bytes
    assert_eq!(&encoded[24..28], &GENERIC_READ.to_le_bytes());
    let path_length = u32::from_le_bytes(encoded[24 + 28..24 + 32].try_into().unwrap());
    assert_eq!(path_length as usize, encoded.len() - (24 + 32));
}

#[test]
fn create_reply_decodes_file_id_and_information() {
    let mut body = Vec::new();
    body.write_u32_le(42);
    body.write_u8(FILE_OPENED);
    let decoded = decode_create_reply(&body).unwrap();
    assert_eq!(
        decoded,
        CreateReply {
            file_id: 42,
            information: FILE_OPENED
        }
    );
}

#[test]
fn close_request_has_32_bytes_padding() {
    let encoded = encode_close_request(1, 42, 6);
    assert_eq!(encoded.len(), 4 + 20 + 32);
}

#[test]
fn read_request_and_reply_round_trip() {
    let encoded = encode_read_request(1, 42, 7, 1024, 4096);
    assert_eq!(encoded.len(), 4 + 20 + 32);
    assert_eq!(&encoded[24..28], &1024u32.to_le_bytes());
    assert_eq!(&encoded[28..36], &4096u64.to_le_bytes());

    let mut reply_body = Vec::new();
    reply_body.write_u32_le(3);
    reply_body.write_slice(b"abc");
    assert_eq!(decode_read_reply(&reply_body).unwrap(), b"abc".to_vec());
}

#[test]
fn write_request_and_reply_round_trip() {
    let encoded = encode_write_request(1, 42, 8, 0, b"hello");
    assert_eq!(&encoded[24..28], &5u32.to_le_bytes()); // Length
    assert_eq!(&encoded[encoded.len() - 5..], b"hello");

    let mut reply_body = Vec::new();
    reply_body.write_u32_le(5);
    reply_body.write_u8(0); // padding
    assert_eq!(decode_write_reply(&reply_body).unwrap(), 5);
}

#[test]
fn query_directory_initial_query_sets_flag_and_carries_pattern() {
    let encoded = encode_query_directory_request(1, 42, 9, Some("\\*"));
    // fixed(32) starts right after the 24-byte io-request header
    let initial_query = encoded[24 + 4];
    assert_eq!(initial_query, 1);
    let path_length = u32::from_le_bytes(encoded[24 + 5..24 + 9].try_into().unwrap());
    assert_eq!(path_length as usize, encoded.len() - (24 + 32));
}

#[test]
fn query_directory_continue_has_no_path_and_clears_initial_query() {
    let encoded = encode_query_directory_request(1, 42, 10, None);
    assert_eq!(encoded.len(), 4 + 20 + 32);
    assert_eq!(encoded[24 + 4], 0); // InitialQuery
}

#[test]
fn query_directory_reply_decodes_one_entry() {
    let body = encode_directory_entry_body("file.txt", 123, FILE_ATTRIBUTE_NORMAL);
    let decoded = decode_query_directory_reply(&body).unwrap().unwrap();
    assert_eq!(decoded.file_name, "file.txt");
    assert_eq!(decoded.end_of_file, 123);
    assert_eq!(decoded.file_attributes, FILE_ATTRIBUTE_NORMAL);
}

#[test]
fn query_directory_reply_empty_body_means_no_more_files() {
    assert_eq!(decode_query_directory_reply(&[]).unwrap(), None);
}

#[test]
fn set_disposition_request_is_one_byte_true() {
    let encoded = encode_set_disposition_request(1, 2, 3, true);
    assert_eq!(
        &encoded[24..28],
        &FILE_DISPOSITION_INFORMATION.to_le_bytes()
    );
    assert_eq!(u32::from_le_bytes(encoded[28..32].try_into().unwrap()), 1);
    assert_eq!(encoded[32 + 24], 1);
}

#[test]
fn set_rename_request_layout_matches_freerdp() {
    let encoded = encode_set_rename_request(1, 7, 9, "\\dir\\new.txt", false);
    assert_eq!(&encoded[16..20], &IRP_MJ_SET_INFORMATION.to_le_bytes());
    assert_eq!(&encoded[24..28], &FILE_RENAME_INFORMATION.to_le_bytes());
    let length = u32::from_le_bytes(encoded[28..32].try_into().unwrap()) as usize;
    let set_buffer = &encoded[32 + 24..];
    assert_eq!(set_buffer.len(), length);
    assert_eq!(set_buffer[0], 0); // ReplaceIfExists
    assert_eq!(set_buffer[1], 0); // RootDirectory
    let name_len = u32::from_le_bytes(set_buffer[2..6].try_into().unwrap()) as usize;
    assert_eq!(name_len + 6, length);
    assert_eq!(&set_buffer[6..], &{
        let mut n = utf16::encode_units("\\dir\\new.txt");
        n.write_u16_le(0);
        n
    });
}

#[test]
fn set_end_of_file_request_carries_eight_byte_size() {
    let encoded = encode_set_end_of_file_request(1, 2, 3, 1234);
    assert_eq!(
        &encoded[24..28],
        &FILE_END_OF_FILE_INFORMATION.to_le_bytes()
    );
    assert_eq!(u32::from_le_bytes(encoded[28..32].try_into().unwrap()), 8);
    assert_eq!(&encoded[56..64], &1234u64.to_le_bytes());
}

#[test]
fn set_basic_information_is_36_bytes_without_reserved() {
    let encoded =
        encode_set_basic_information_request(1, 2, 3, 10, 20, 30, 40, FILE_ATTRIBUTE_NORMAL);
    assert_eq!(&encoded[24..28], &FILE_BASIC_INFORMATION.to_le_bytes());
    assert_eq!(u32::from_le_bytes(encoded[28..32].try_into().unwrap()), 36);
    assert_eq!(encoded.len(), 32 + 24 + 36);
}

#[test]
fn of_an_offset_to_read_from_only_the_low_half_is_sent() {
    let encoded = encode_read_request(1, 42, 7, 1024, 0x1_0000_1000);
    assert_eq!(encoded.len(), 56);
    assert_eq!(encoded[24..28], [0, 4, 0, 0]);
    assert_eq!(encoded[28..32], [0, 0x10, 0, 0]);
    assert_eq!(encoded[32..36], [0, 0, 0, 0]);
}
