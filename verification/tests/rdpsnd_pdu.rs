//! Messages of the audio output channel.

use rdpcore::cursor::WriteBuf;
use rdpcore::rdpsnd::pdu::{
    AudioFormat, ClientAudioFormats, ClientMessage, SNDC_FORMATS, SNDC_TRAINING, SNDC_WAVE2,
    SNDC_WAVECONFIRM, decode_client_message, encode_server_audio_formats, encode_wave2,
    negotiate_formats, write_header,
};

#[test]
fn server_audio_formats_round_trip_via_client_decode_shape() {
    // Server and client PDUs share the same body shape (direction
    // reversed) apart from the wDGramPort endianness quirk and which
    // fields are meaningful - round-trip by decoding our own server
    // encoding as if it were a client one, skipping the BE field.
    let formats = vec![AudioFormat::pcm(2, 48000, 16)];
    let encoded = encode_server_audio_formats(&formats);
    assert_eq!(encoded[0], SNDC_FORMATS);

    let body_len = u16::from_le_bytes([encoded[2], encoded[3]]) as usize;
    assert_eq!(encoded.len(), 4 + body_len);
}

#[test]
fn client_audio_formats_decode() {
    // The formats of a client, field by field (the port is the one big-endian
    // field).
    let mut body = Vec::new();
    body.write_u32_le(0x0000_0007); // dwFlags: ALIVE|VOLUME|PITCH
    body.write_u32_le(0);
    body.write_u32_le(0);
    body.write_u16_be(0); // wDGramPort, big-endian
    body.write_u16_le(1); // one format
    body.write_u8(0);
    body.write_u16_le(0x06);
    body.write_u8(0);
    AudioFormat::pcm(2, 44100, 16).encode(&mut body);

    let mut pdu = Vec::new();
    write_header(&mut pdu, SNDC_FORMATS, body.len());
    pdu.extend_from_slice(&body);

    let decoded = decode_client_message(&pdu).unwrap();
    assert_eq!(
        decoded,
        ClientMessage::AudioFormats(ClientAudioFormats {
            formats: vec![AudioFormat::pcm(2, 44100, 16)],
        })
    );
}

#[test]
fn training_confirm_is_recognized() {
    let mut pdu = Vec::new();
    write_header(&mut pdu, SNDC_TRAINING, 4);
    pdu.write_u16_le(0);
    pdu.write_u16_le(0);
    assert_eq!(decode_client_message(&pdu).unwrap(), ClientMessage::TrainingConfirm);
}

#[test]
fn wave_confirm_and_unknown_messages_decode_as_other_without_erroring() {
    let mut pdu = Vec::new();
    write_header(&mut pdu, SNDC_WAVECONFIRM, 4);
    pdu.write_u16_le(0x1234); // wTimeStamp
    pdu.write_u8(5); // cConfirmedBlockNo
    pdu.write_u8(0); // pad
    assert_eq!(decode_client_message(&pdu).unwrap(), ClientMessage::Other);
}

#[test]
fn wave2_encodes_expected_fixed_layout() {
    let data = vec![0xAB; 100];
    let encoded = encode_wave2(3, 7, 0x1000, &data);
    assert_eq!(encoded[0], SNDC_WAVE2);
    let body_len = u16::from_le_bytes([encoded[2], encoded[3]]) as usize;
    assert_eq!(body_len, 12 + data.len());
    // wFormatNo at body offset 2, cBlockNo at offset 4, dwAudioTimestamp at offset 8.
    let body = &encoded[4..];
    assert_eq!(u16::from_le_bytes([body[2], body[3]]), 3);
    assert_eq!(body[4], 7);
    assert_eq!(u32::from_le_bytes([body[8], body[9], body[10], body[11]]), 0x1000);
    assert_eq!(&encoded[16..], &data[..]);
}

#[test]
fn negotiate_formats_matches_ignoring_derived_fields() {
    let server = vec![AudioFormat::pcm(2, 48000, 16)];
    // Same tag/channels/rate/bits but a client that computed
    // n_avg_bytes_per_sec/n_block_align slightly differently.
    let mut client_format = AudioFormat::pcm(2, 48000, 16);
    client_format.n_avg_bytes_per_sec = 999;
    client_format.n_block_align = 1;
    let client = vec![AudioFormat::pcm(2, 44100, 16), client_format];

    let negotiated = negotiate_formats(&server, &client);
    assert_eq!(negotiated.len(), 1);
    assert_eq!(negotiated[0].format_no, 1); // index into the client's list
    assert_eq!(negotiated[0].format, server[0]);
}
