//! Messages of the audio input channel.

use rdpcore::cursor::WriteBuf;
use rdpcore::rdpeai::pdu::{
    ClientMessage, MSG_SNDIN_DATA, MSG_SNDIN_DATA_INCOMING, MSG_SNDIN_FORMATCHANGE,
    MSG_SNDIN_OPEN_REPLY, VERSION_2, decode_client_message, encode_formats, encode_open,
    encode_version,
};
use rdpcore::rdpeai::pdu::AudioFormat;

#[test]
fn version_round_trip() {
    let encoded = encode_version(VERSION_2);
    assert_eq!(encoded.len(), 5);
    assert_eq!(
        decode_client_message(&encoded).unwrap(),
        ClientMessage::Version { version: VERSION_2 }
    );
}

#[test]
fn formats_round_trip() {
    let formats = vec![
        AudioFormat::pcm(2, 44100, 16),
        AudioFormat::pcm(1, 16000, 16),
    ];
    let encoded = encode_formats(&formats);
    assert_eq!(
        decode_client_message(&encoded).unwrap(),
        ClientMessage::Formats { formats }
    );
}

#[test]
fn open_encodes_frames_per_packet_and_format_index() {
    let format = AudioFormat::pcm(2, 44100, 16);
    let encoded = encode_open(441, 0, &format);
    // header(1) + framesPerPacket(4) + initialFormat(4) + 18-byte PCM core, no extension tail
    assert_eq!(encoded.len(), 1 + 4 + 4 + 18);
    assert_eq!(u32::from_le_bytes(encoded[1..5].try_into().unwrap()), 441);
    assert_eq!(u32::from_le_bytes(encoded[5..9].try_into().unwrap()), 0);
}

#[test]
fn open_reply_decode() {
    let mut raw = Vec::new();
    raw.write_u8(MSG_SNDIN_OPEN_REPLY);
    raw.write_u32_le(0);
    assert_eq!(
        decode_client_message(&raw).unwrap(),
        ClientMessage::OpenReply { result: 0 }
    );
}

#[test]
fn data_incoming_has_no_body() {
    let raw = vec![MSG_SNDIN_DATA_INCOMING];
    assert_eq!(
        decode_client_message(&raw).unwrap(),
        ClientMessage::DataIncoming
    );
}

#[test]
fn data_is_raw_bytes_to_end_of_message() {
    let mut raw = vec![MSG_SNDIN_DATA];
    raw.extend_from_slice(&[0xAB; 100]);
    assert_eq!(
        decode_client_message(&raw).unwrap(),
        ClientMessage::Data {
            data: vec![0xAB; 100]
        }
    );
}

#[test]
fn format_change_new_format_is_four_bytes() {
    let mut raw = Vec::new();
    raw.write_u8(MSG_SNDIN_FORMATCHANGE);
    raw.write_u32_le(3);
    assert_eq!(
        decode_client_message(&raw).unwrap(),
        ClientMessage::FormatChange { new_format: 3 }
    );
}

#[test]
fn unknown_message_id_decodes_as_other() {
    let raw = vec![0xFF];
    assert_eq!(decode_client_message(&raw).unwrap(), ClientMessage::Other);
}

#[test]
fn open_leaves_out_the_extra_data_of_a_format() {
    let plain = AudioFormat::pcm(2, 44100, 16);
    let mut extended = AudioFormat::pcm(2, 44100, 16);
    extended.extra_data = Some(vec![1, 2, 3]);
    let encoded = encode_open(441, 1, &extended);
    assert_eq!(encoded.len(), 27);
    // No bytes follow the length of the extra data.
    assert_eq!(encoded[25..27], [0, 0]);
    assert_eq!(encoded, encode_open(441, 1, &plain));
}
