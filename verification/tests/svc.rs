//! Chunks of static channel data.

use rdpcore::DecodeError;
use rdpcore::svc::{
    CHANNEL_FLAG_FIRST, CHANNEL_FLAG_LAST, DEFAULT_CHUNK_LENGTH, chunkify, dechunkify, reassemble,
};

#[test]
fn small_payload_is_a_single_first_and_last_chunk() {
    let data = b"hello rdpsnd";
    let chunks = chunkify(data);
    assert_eq!(chunks.len(), 1);
    let (total_length, flags, body) = dechunkify(&chunks[0]).unwrap();
    assert_eq!(total_length as usize, data.len());
    assert_eq!(flags, CHANNEL_FLAG_FIRST | CHANNEL_FLAG_LAST);
    assert_eq!(body, data);
}

#[test]
fn empty_payload_is_a_single_first_and_last_chunk() {
    let chunks = chunkify(&[]);
    assert_eq!(chunks.len(), 1);
    let (total_length, flags, body) = dechunkify(&chunks[0]).unwrap();
    assert_eq!(total_length, 0);
    assert_eq!(flags, CHANNEL_FLAG_FIRST | CHANNEL_FLAG_LAST);
    assert!(body.is_empty());
}

#[test]
fn large_payload_splits_with_correct_first_middle_last_flags() {
    let data = vec![0xAB; DEFAULT_CHUNK_LENGTH * 2 + 100];
    let chunks = chunkify(&data);
    assert_eq!(chunks.len(), 3);

    let (total0, flags0, body0) = dechunkify(&chunks[0]).unwrap();
    assert_eq!(total0 as usize, data.len());
    assert_eq!(flags0, CHANNEL_FLAG_FIRST);
    assert_eq!(body0.len(), DEFAULT_CHUNK_LENGTH);

    let (_, flags1, body1) = dechunkify(&chunks[1]).unwrap();
    assert_eq!(flags1, 0); // neither first nor last
    assert_eq!(body1.len(), DEFAULT_CHUNK_LENGTH);

    let (_, flags2, body2) = dechunkify(&chunks[2]).unwrap();
    assert_eq!(flags2, CHANNEL_FLAG_LAST);
    assert_eq!(body2.len(), 100);

    let mut reassembled: Vec<u8> = Vec::new();
    reassembled.extend(body0);
    reassembled.extend(body1);
    reassembled.extend(body2);
    assert_eq!(reassembled, data);
}

#[test]
fn reassemble_waits_for_the_last_chunk_then_returns_the_full_message() {
    let data = vec![0xCD; DEFAULT_CHUNK_LENGTH * 2 + 42];
    let chunks = chunkify(&data);
    assert_eq!(chunks.len(), 3);

    let mut buffer = Vec::new();
    assert_eq!(
        reassemble(&mut buffer, &chunks[0], usize::MAX, "test").unwrap(),
        None
    );
    assert_eq!(
        reassemble(&mut buffer, &chunks[1], usize::MAX, "test").unwrap(),
        None
    );
    assert_eq!(
        reassemble(&mut buffer, &chunks[2], usize::MAX, "test").unwrap(),
        Some(data)
    );
    assert!(buffer.is_empty(), "buffer must be taken, not left behind");
}

#[test]
fn reassemble_rejects_messages_over_the_size_cap_and_clears_the_buffer() {
    let mut buffer = Vec::new();
    let mut first = Vec::new();
    first.extend_from_slice(&20u32.to_le_bytes()); // total_length (unchecked)
    first.extend_from_slice(&CHANNEL_FLAG_FIRST.to_le_bytes());
    first.extend_from_slice(&[0u8; 20]);

    let err = reassemble(&mut buffer, &first, 10, "test.buf").unwrap_err();
    assert!(
        matches!(
            err,
            DecodeError::InvalidValue {
                field: "test.buf",
                ..
            }
        ),
        "unexpected error: {err:?}"
    );
    assert!(buffer.is_empty(), "buffer must be cleared on rejection");
}

#[test]
fn reassemble_drops_a_stale_partial_message_on_a_new_first_chunk() {
    // A FIRST chunk arriving mid-reassembly (client abandoned the
    // previous message, or this is simply the next one) must
    // discard whatever was buffered, not append to it.
    let mut buffer = Vec::new();
    let stale_first = {
        let mut raw = Vec::new();
        raw.extend_from_slice(&99u32.to_le_bytes());
        raw.extend_from_slice(&CHANNEL_FLAG_FIRST.to_le_bytes());
        raw.extend_from_slice(b"stale-partial");
        raw
    };
    assert_eq!(
        reassemble(&mut buffer, &stale_first, usize::MAX, "test").unwrap(),
        None
    );
    assert_eq!(buffer, b"stale-partial");

    let fresh = chunkify(b"fresh message")
        .pop()
        .expect("single chunk for a short payload");
    assert_eq!(
        reassemble(&mut buffer, &fresh, usize::MAX, "test").unwrap(),
        Some(b"fresh message".to_vec())
    );
}
