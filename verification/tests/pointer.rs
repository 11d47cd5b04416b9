//! Pointer updates.

use rdpcore::fastpath::FastPathOutput;
use rdpcore::pointer::{
    UPDATE_CODE_COLOR, UPDATE_CODE_PTR_DEFAULT, UPDATE_CODE_PTR_POSITION,
    encode_default_arrow_pointer, encode_ptr_default, encode_ptr_position,
};

#[test]
fn default_and_position_round_trip_headers() {
    let def = encode_ptr_default();
    let decoded = FastPathOutput::decode(&def).unwrap();
    assert_eq!(decoded.updates[0].update_code, UPDATE_CODE_PTR_DEFAULT);
    assert!(decoded.updates[0].data.is_empty());

    let pos = encode_ptr_position(100, 200);
    let decoded = FastPathOutput::decode(&pos).unwrap();
    assert_eq!(decoded.updates[0].update_code, UPDATE_CODE_PTR_POSITION);
    assert_eq!(decoded.updates[0].data, [100, 0, 200, 0]);
}

#[test]
fn arrow_pointer_encodes_nonzero_masks() {
    let wire = encode_default_arrow_pointer(0);
    let decoded = FastPathOutput::decode(&wire).unwrap();
    assert_eq!(decoded.updates[0].update_code, UPDATE_CODE_COLOR);
    assert!(decoded.updates[0].data.len() > 12);
}
