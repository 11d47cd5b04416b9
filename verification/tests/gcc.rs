//! Conference data of both sides.

use rdpcore::gcc::{
    CS_CLUSTER, CS_CORE, CS_MCS_MSGCHANNEL, CS_SECURITY, CS_SUPPORT_ERRINFO_PDU,
    CS_WANT_32BPP_SESSION, ChannelDef, ClientCoreData, ClientGccBlocks, ClientMessageChannelData,
    ClientNetworkData, ClientSecurityData, ConferenceCreateRequest, ConferenceCreateResponse,
    ServerCoreData, ServerGccBlocks, ServerMessageChannelData, ServerNetworkData,
    ServerSecurityData, write_block,
};

fn sample_client_blocks() -> ClientGccBlocks {
    ClientGccBlocks {
        core: ClientCoreData {
            version: 0x0008_0004,
            desktop_width: 1920,
            desktop_height: 1080,
            color_depth: 0xCA01,
            sas_sequence: 0xAA03,
            keyboard_layout: 0x0409,
            client_build: 2600,
            client_name: "kmsrdp".to_owned(),
            keyboard_type: 4,
            keyboard_subtype: 0,
            keyboard_function_key: 12,
            ime_file_name: String::new(),
        },
        security: ClientSecurityData::default(),
        network: Some(ClientNetworkData {
            channels: vec![ChannelDef {
                name: "cliprdr".to_owned(),
                options: 0xC000_0000,
            }],
        }),
        early_capability_flags: None,
        cluster: None,
        message_channel: None,
    }
}

#[test]
fn client_gcc_blocks_round_trip() {
    let blocks = sample_client_blocks();
    let encoded = blocks.encode();
    let decoded = ClientGccBlocks::decode(&encoded).unwrap();
    assert_eq!(decoded, blocks);
}

#[test]
fn client_gcc_blocks_round_trip_without_network() {
    let mut blocks = sample_client_blocks();
    blocks.network = None;
    let encoded = blocks.encode();
    let decoded = ClientGccBlocks::decode(&encoded).unwrap();
    assert_eq!(decoded, blocks);
}

#[test]
fn server_gcc_blocks_round_trip() {
    let blocks = ServerGccBlocks {
        core: ServerCoreData {
            version: 0x0008_0004,
            client_requested_protocols: Some(1),
            early_capability_flags: None,
        },
        network: ServerNetworkData {
            io_channel_id: 1003,
            channel_ids: vec![1004, 1005],
        },
        security: ServerSecurityData,
        message_channel: None,
    };
    let encoded = blocks.encode();
    let decoded = ServerGccBlocks::decode(&encoded).unwrap();
    assert_eq!(decoded, blocks);
}

#[test]
fn server_network_data_odd_channel_count_pads() {
    let data = ServerNetworkData {
        io_channel_id: 1003,
        channel_ids: vec![1004],
    };
    let encoded = data.encode();
    assert_eq!(encoded.len(), 8); // 2+2+2 + 2 bytes padding
    assert_eq!(ServerNetworkData::decode(&encoded).unwrap(), data);
}

#[test]
fn conference_create_request_round_trip() {
    let blocks = sample_client_blocks().encode();
    let request = ConferenceCreateRequest {
        client_gcc_blocks: blocks,
    };
    let encoded = request.encode();
    let decoded = ConferenceCreateRequest::decode(&encoded).unwrap();
    assert_eq!(decoded, request);
    assert_eq!(ClientGccBlocks::decode(&decoded.client_gcc_blocks).unwrap(), sample_client_blocks());
}

#[test]
fn sc_core_does_not_echo_client_early_capability_flags() {
    let mut body = ClientCoreData {
        version: 0x0008_0004,
        desktop_width: 1920,
        desktop_height: 1080,
        color_depth: 0xCA01,
        sas_sequence: 0xAA03,
        keyboard_layout: 0x0409,
        client_build: 2600,
        client_name: "mstsc".to_owned(),
        keyboard_type: 4,
        keyboard_subtype: 0,
        keyboard_function_key: 12,
        ime_file_name: String::new(),
    }
    .encode();
    body.extend_from_slice(&[0u8; 12]); // up to earlyCapabilityFlags
    body.extend_from_slice(&CS_SUPPORT_ERRINFO_PDU.to_le_bytes());

    let mut blocks = Vec::new();
    write_block(&mut blocks, CS_CORE, &body);
    write_block(&mut blocks, CS_SECURITY, &ClientSecurityData::default().encode());
    let client = ClientGccBlocks::decode(&blocks).unwrap();
    assert_eq!(client.early_capability_flags, Some(CS_SUPPORT_ERRINFO_PDU));

    let server = ServerGccBlocks {
        core: ServerCoreData {
            version: 0x0008_0004,
            client_requested_protocols: Some(1),
            early_capability_flags: None,
        },
        network: ServerNetworkData {
            io_channel_id: 1003,
            channel_ids: vec![1004],
        },
        security: ServerSecurityData,
        message_channel: None,
    };
    let encoded = server.encode();
    let decoded = ServerGccBlocks::decode(&encoded).unwrap();
    assert_eq!(decoded.core.early_capability_flags, None);
}

#[test]
fn early_capability_flags_parsed_from_extended_cs_core() {
    let mut body = ClientCoreData {
        version: 0x0008_0004,
        desktop_width: 1920,
        desktop_height: 1080,
        color_depth: 0xCA01,
        sas_sequence: 0xAA03,
        keyboard_layout: 0x0409,
        client_build: 2600,
        client_name: "mstsc".to_owned(),
        keyboard_type: 4,
        keyboard_subtype: 0,
        keyboard_function_key: 12,
        ime_file_name: String::new(),
    }
    .encode();
    body.extend_from_slice(&[0u8; 12]); // up to earlyCapabilityFlags
    body.extend_from_slice(&(CS_SUPPORT_ERRINFO_PDU | CS_WANT_32BPP_SESSION).to_le_bytes());

    let mut blocks = Vec::new();
    write_block(&mut blocks, CS_CORE, &body);
    write_block(&mut blocks, CS_SECURITY, &ClientSecurityData::default().encode());
    let decoded = ClientGccBlocks::decode(&blocks).unwrap();
    assert_eq!(decoded.early_capability_flags, Some(CS_SUPPORT_ERRINFO_PDU | CS_WANT_32BPP_SESSION));
}

#[test]
fn cs_cluster_is_not_mistaken_for_message_channel() {
    let mut wire = sample_client_blocks().encode();
    write_block(&mut wire, CS_CLUSTER, &[0x0D, 0x00, 0x00, 0x00, 0x00, 0x00, 0x00, 0x00]);
    let decoded = ClientGccBlocks::decode(&wire).unwrap();
    assert!(decoded.cluster.is_some());
    assert_eq!(decoded.message_channel, None);
}

#[test]
fn message_channel_gcc_blocks_round_trip() {
    let mut wire = sample_client_blocks().encode();
    write_block(&mut wire, CS_MCS_MSGCHANNEL, &0xC000_0000u32.to_le_bytes());
    let decoded = ClientGccBlocks::decode(&wire).unwrap();
    assert_eq!(decoded.message_channel, Some(ClientMessageChannelData { flags: 0xC000_0000 }));

    let server = ServerGccBlocks {
        core: ServerCoreData {
            version: 0x0008_0004,
            client_requested_protocols: Some(1),
            early_capability_flags: Some(0x0001),
        },
        network: ServerNetworkData {
            io_channel_id: 1003,
            channel_ids: vec![1004, 1005, 1006, 1007],
        },
        security: ServerSecurityData,
        message_channel: Some(ServerMessageChannelData { mcs_channel_id: 1008 }),
    };
    let encoded = server.encode();
    let decoded = ServerGccBlocks::decode(&encoded).unwrap();
    assert_eq!(decoded, server);
}

#[test]
fn conference_create_response_round_trip() {
    let blocks = ServerGccBlocks {
        core: ServerCoreData {
            version: 0x0008_0004,
            client_requested_protocols: Some(1),
            early_capability_flags: None,
        },
        network: ServerNetworkData {
            io_channel_id: 1003,
            channel_ids: vec![1004],
        },
        security: ServerSecurityData,
        message_channel: None,
    }
    .encode();
    let response = ConferenceCreateResponse {
        node_id: 1002,
        server_gcc_blocks: blocks,
    };
    let encoded = response.encode();
    let decoded = ConferenceCreateResponse::decode(&encoded).unwrap();
    assert_eq!(decoded, response);
}
