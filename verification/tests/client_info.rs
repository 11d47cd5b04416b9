//! The client information message.

use rdpcore::DecodeError;
use rdpcore::client_info::{ClientInfo, ClientInfoFlags, ClientInfoPdu, ExtendedClientInfo};
use rdpcore::cursor::WriteBuf;
use rdpcore::headers::{BasicSecurityHeader, BasicSecurityHeaderFlags};

/// What a client sends when it logs on as `testuser`: all five lengths come before
/// the first of the five texts.
#[test]
fn decodes_real_xfreerdp_client_info() {
    let captured: &[u8] = &[
        0x40, 0x00, 0x00, 0x00, 0x00, 0x00, 0x00, 0x00, 0xfb, 0x47, 0x0b, 0x00, 0x00, 0x00, 0x10, 0x00,
        0x16, 0x00, 0x00, 0x00, 0x00, 0x00, 0x00, 0x00, 0x74, 0x00, 0x65, 0x00, 0x73, 0x00, 0x74, 0x00,
        0x75, 0x00, 0x73, 0x00, 0x65, 0x00, 0x72, 0x00, 0x00, 0x00, 0x74, 0x00, 0x65, 0x00, 0x73, 0x00,
        0x74, 0x00, 0x70, 0x00, 0x61, 0x00, 0x73, 0x00, 0x73, 0x00, 0x31, 0x00, 0x32, 0x00, 0x33, 0x00,
        0x00, 0x00, 0x00, 0x00, 0x00, 0x00, 0x02, 0x00, 0x14, 0x00, 0x31, 0x00, 0x32, 0x00, 0x37, 0x00,
        0x2e, 0x00, 0x30, 0x00, 0x2e, 0x00, 0x30, 0x00, 0x2e, 0x00, 0x31, 0x00, 0x00, 0x00, 0x40, 0x00,
        0x43, 0x00, 0x3a, 0x00, 0x5c, 0x00, 0x57, 0x00, 0x69, 0x00, 0x6e, 0x00, 0x64, 0x00, 0x6f, 0x00,
        0x77, 0x00, 0x73, 0x00, 0x5c, 0x00, 0x53, 0x00, 0x79, 0x00, 0x73, 0x00, 0x74, 0x00, 0x65, 0x00,
        0x6d, 0x00, 0x33, 0x00, 0x32, 0x00, 0x5c, 0x00, 0x6d, 0x00, 0x73, 0x00, 0x74, 0x00, 0x73, 0x00,
        0x63, 0x00, 0x61, 0x00, 0x78, 0x00, 0x2e, 0x00, 0x64, 0x00, 0x6c, 0x00, 0x6c, 0x00, 0x00, 0x00,
        0xe4, 0xfd, 0xff, 0xff, // TimezoneInfo.bias (-540) - not parsed, left as trailing bytes
    ];

    let decoded = ClientInfoPdu::decode(captured).unwrap();
    assert_eq!(decoded.info.domain, "");
    assert_eq!(decoded.info.username, "testuser");
    assert_eq!(decoded.info.password, "testpass123");
    assert_eq!(decoded.info.alternate_shell, "");
    assert_eq!(decoded.info.working_dir, "");
    assert_eq!(decoded.info.extended.address_family, 0x0002);
    assert_eq!(decoded.info.extended.address, "127.0.0.1");
    assert_eq!(decoded.info.extended.dir, "C:\\Windows\\System32\\mstscax.dll");
}

#[test]
fn client_info_pdu_round_trip() {
    let pdu = ClientInfoPdu {
        info: ClientInfo {
            code_page: 0,
            flags: ClientInfoFlags::mouse() | ClientInfoFlags::autologon() | ClientInfoFlags::unicode(),
            domain: String::new(),
            username: "kmsrdp".to_owned(),
            password: "hunter2".to_owned(),
            alternate_shell: String::new(),
            working_dir: String::new(),
            extended: ExtendedClientInfo {
                address_family: 0x0002,
                address: "192.0.2.1".to_owned(),
                dir: "C:\\Windows\\System32\\mstscax.dll".to_owned(),
            },
        },
    };
    let encoded = pdu.encode();
    let decoded = ClientInfoPdu::decode(&encoded).unwrap();
    assert_eq!(decoded, pdu);
    assert!(decoded.info.flags.contains(ClientInfoFlags::unicode()));
}

#[test]
fn rejects_non_unicode_client_info() {
    let mut pdu = ClientInfoPdu {
        info: ClientInfo {
            username: "kmsrdp".to_owned(),
            ..Default::default()
        },
    };
    pdu.info.flags = ClientInfoFlags::default(); // no UNICODE
    let mut encoded = Vec::new();
    BasicSecurityHeader {
        flags: BasicSecurityHeaderFlags::info_pkt(),
    }
    .write(&mut encoded);
    encoded.write_u32_le(0); // code page
    encoded.write_u32_le(0); // flags, no UNICODE bit
    assert!(matches!(
        ClientInfoPdu::decode(&encoded),
        Err(DecodeError::InvalidValue {
            field: "client_info.flags",
            ..
        })
    ));
}
