//! The license message.

use rdpcore::DecodeError;
use rdpcore::licensing::{MSG_SIZE, decode_valid_client, encode_valid_client};

#[test]
fn valid_client_round_trip() {
    let encoded = encode_valid_client();
    assert_eq!(encoded.len(), 4 + usize::from(MSG_SIZE));
    decode_valid_client(&encoded).unwrap();
}

#[test]
fn only_the_one_message_is_accepted() {
    let message = encode_valid_client();
    assert_eq!(
        message,
        [0x80, 0, 0, 0, 0xFF, 3, 16, 0, 7, 0, 0, 0, 2, 0, 0, 0, 4, 0, 0, 0]
    );
    let other = DecodeError::InvalidValue {
        field: "licensing.message",
        reason: "expected the Valid Client message",
    };
    // Another version, size, transition or kind of blob will not do.
    for i in [1, 5, 6, 12, 16] {
        let mut changed = message.clone();
        changed[i] ^= 1;
        assert_eq!(decode_valid_client(&changed), Err(other.clone()));
    }
    let mut longer = message.clone();
    longer.push(0);
    assert_eq!(decode_valid_client(&longer), Err(other));
    for i in 0..message.len() {
        let mut changed = message.clone();
        changed[i] ^= 0xFF;
        assert!(decode_valid_client(&changed).is_err());
        assert!(decode_valid_client(&message[..i]).is_err());
    }
}
