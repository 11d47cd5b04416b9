//! Reading and writing numbers, tags and texts.

use rdpcore::ber;
use rdpcore::cursor::{NotEnoughBytes, ReadCursor, WriteBuf};
use rdpcore::per;
use rdpcore::render;
use rdpcore::DecodeError;

#[test]
fn a_cursor_reads_in_both_orders_and_stops_at_the_end() {
    let bytes: Vec<u8> = (1..=24).collect();
    let mut c = ReadCursor::new(&bytes);
    assert_eq!(c.peek_u16_be(), Ok(0x0102));
    assert_eq!(c.peek_slice(3), Ok(&[1u8, 2, 3][..]));
    assert_eq!(c.read_u8(), Ok(1));
    assert_eq!(c.read_u16_be(), Ok(0x0203));
    assert_eq!(c.read_u16_le(), Ok(0x0504));
    assert_eq!(c.read_u32_le(), Ok(0x0908_0706));
    assert_eq!(c.read_u64_le(), Ok(0x1110_0F0E_0D0C_0B0A));
    assert_eq!(c.read_slice(2), Ok(&[18u8, 19][..]));
    assert_eq!(c.slice_from_to(0, 2), &[1, 2]);
    assert_eq!((c.pos(), c.remaining()), (19, 5));
    c.advance(1);
    assert_eq!(c.ensure(4), Ok(()));
    assert_eq!(c.ensure(5), Err(NotEnoughBytes { needed: 5, remaining: 4 }));
    assert_eq!(c.read_u64_le(), Err(NotEnoughBytes { needed: 8, remaining: 4 }));
    assert_eq!(c.read_rest(), &[21, 22, 23, 24]);
    assert_eq!(c.remaining(), 0);
    assert_eq!(c.peek_u16_be(), Err(NotEnoughBytes { needed: 2, remaining: 0 }));
}

#[test]
fn a_failed_read_leaves_the_cursor_where_it_was() {
    let mut c = ReadCursor::new(&[7]);
    let short = NotEnoughBytes { needed: 2, remaining: 1 };
    assert_eq!(c.take_u16_le(), Err(DecodeError::NotEnoughBytes(short)));
    assert_eq!(c.take_u16_be(), Err(DecodeError::from(short)));
    assert!(c.take_u32_le().is_err());
    assert!(c.take_u64_le().is_err());
    assert!(c.take_slice(2).is_err());
    assert!(c.skip(2).is_err());
    assert_eq!(c.pos(), 0);
    assert_eq!(c.take_u8(), Ok(7));
    assert!(c.take_u8().is_err());
    assert_eq!(c.skip(0), Ok(()));
}

#[test]
fn errors_say_what_is_missing() {
    let short = NotEnoughBytes { needed: 8, remaining: 3 };
    assert_eq!(short.message(), "needed 8 bytes, only 3 remaining");
    assert_eq!(
        DecodeError::NotEnoughBytes(short).message(),
        "not enough bytes: needed 8 bytes, only 3 remaining"
    );
    assert_eq!(
        DecodeError::InvalidValue { field: "length", reason: "too long" }.message(),
        "invalid value for length: too long"
    );
}

#[test]
fn numbers_are_written_low_byte_first() {
    let mut out = Vec::new();
    out.write_u8(1);
    out.write_u16_le(0x0203);
    out.write_u16_be(0x0405);
    out.write_u32_le(0x0607_0809);
    out.write_i32_le(-2);
    out.write_u64_le(0x0A0B_0C0D_0E0F_1011);
    out.write_slice(&[0xFF, 0xFE]);
    assert_eq!(
        out,
        [
            1, 3, 2, 4, 5, 9, 8, 7, 6, 0xFE, 0xFF, 0xFF, 0xFF, 0x11, 0x10, 0x0F, 0x0E, 0x0D, 0x0C,
            0x0B, 0x0A, 0xFF, 0xFE
        ]
    );
}

#[test]
fn ber_sequences_and_enumerations_come_back() {
    let mut out = Vec::new();
    ber::write_sequence_tag(&mut out, 0x1234);
    ber::write_enumerated(&mut out, 9);
    assert_eq!(out, [0x30, 0x82, 0x12, 0x34, 0x0A, 1, 9]);
    let mut c = ReadCursor::new(&out);
    assert_eq!(ber::read_sequence_tag(&mut c), Ok(0x1234));
    assert_eq!(ber::read_enumerated(&mut c), Ok(9));
    assert!(ber::read_sequence_tag(&mut ReadCursor::new(&[0x31, 0])).is_err());
    assert!(ber::read_enumerated(&mut ReadCursor::new(&[0x02, 1, 9])).is_err());
    assert!(ber::read_enumerated(&mut ReadCursor::new(&[0x0A, 1])).is_err());
}

#[test]
fn ber_lengths_change_form_at_the_limits() {
    for (length, bytes) in [
        (0usize, vec![0u8]),
        (0x7F, vec![0x7F]),
        (0x80, vec![0x81, 0x80]),
        (0xFF, vec![0x81, 0xFF]),
        (0x100, vec![0x82, 1, 0]),
        (0xFFFF, vec![0x82, 0xFF, 0xFF]),
    ] {
        let mut out = Vec::new();
        ber::write_length(&mut out, length);
        assert_eq!(out, bytes);
        assert_eq!(ber::read_length(&mut ReadCursor::new(&out)), Ok(length));
    }
    assert!(ber::read_length(&mut ReadCursor::new(&[0x83, 1, 0, 0])).is_err());
}

#[test]
fn per_single_bytes_come_back() {
    let mut out = Vec::new();
    per::write_choice(&mut out, 0x7C);
    per::write_selection(&mut out, 8);
    per::write_number_of_sets(&mut out, 1);
    per::write_enum(&mut out, 3);
    per::write_padding(&mut out, 2);
    assert_eq!(out, [0x7C, 8, 1, 3, 0, 0]);
    let mut c = ReadCursor::new(&out);
    assert_eq!(per::read_choice(&mut c), Ok(0x7C));
    assert_eq!(per::read_selection(&mut c), Ok(8));
    assert_eq!(per::read_number_of_sets(&mut c), Ok(1));
    assert_eq!(per::read_enum(&mut c), Ok(3));
    assert_eq!(per::read_padding(&mut c, 2), Ok(()));
    assert!(per::read_padding(&mut c, 1).is_err());
}

#[test]
fn per_numbers_count_from_their_least() {
    let mut out = Vec::new();
    per::write_u16(&mut out, 1007, 1001);
    assert_eq!(out, [0, 6]);
    assert_eq!(per::read_u16(&mut ReadCursor::new(&out), 1001), Ok(1007));
    // Below the least, the difference goes round.
    let mut out = Vec::new();
    per::write_u16(&mut out, 1000, 1001);
    assert_eq!(out, [0xFF, 0xFF]);
    assert_eq!(per::read_u16(&mut ReadCursor::new(&out), 1001), Ok(1000));
}

#[test]
fn numbers_in_words() {
    let mut s = String::new();
    render::push_decimal(&mut s, 0);
    s.push(' ');
    render::push_decimal(&mut s, u64::MAX);
    s.push(' ');
    render::push_signed(&mut s, i64::MIN);
    s.push(' ');
    render::push_hex32(&mut s, 0xC000_0034);
    assert_eq!(s, "0 18446744073709551615 -9223372036854775808 0xc0000034");
    assert_eq!(render::around("a ", 42, " b"), "a 42 b");
}
