//! Requests on devices, what becomes of them, and a client that is looked at.

use std::sync::{Arc, Mutex};

use rdpcore::rdpdr::diagnostic::{
    DirectoryListingSelfTest, EventListener, PRINT_JOB_TEST_CONTENTS, TAG_CLOSE_ROOT,
    TAG_CLOSE_SAMPLE, TAG_CREATE_WRITE_TEST, TAG_LIST, TAG_OPEN_PRINT_JOB, TAG_OPEN_ROOT,
    TAG_OPEN_SAMPLE, TAG_READ_SAMPLE, TAG_WRITE_PRINT_JOB, WRITE_TEST_FILE_NAME,
};
use rdpcore::rdpdr::{
    completion_call, encode_command, failure_call, irp, pdu, ConsumerCall, DriveCommand, DriveConsumer,
    PendingOp, RdpdrChannel, MAX_PENDING_OPS,
};

#[derive(Clone, Default)]
struct Events(Arc<Mutex<Vec<String>>>);

impl EventListener for Events {
    fn on_event(&mut self, message: String) {
        self.0.lock().unwrap().push(message);
    }
}

impl Events {
    fn last(&self) -> String {
        self.0.lock().unwrap().last().cloned().unwrap_or_default()
    }
}

fn entry(name: &str, attributes: u32, size: i64) -> irp::DirectoryEntry {
    irp::DirectoryEntry {
        file_index: 1,
        creation_time: 0,
        last_access_time: 0,
        last_write_time: 0,
        change_time: 0,
        end_of_file: size,
        allocation_size: 0,
        file_attributes: attributes,
        file_name: name.to_owned(),
    }
}

#[test]
fn a_drive_is_listed_and_its_first_file_is_read() {
    let events = Events::default();
    let mut test = DirectoryListingSelfTest::new(Box::new(events.clone()));
    let wants = test.on_device_ready(7, pdu::RDPDR_DTYP_FILESYSTEM, "C:");
    assert_eq!(events.last(), "device 7 (C:) ready - opening root directory");
    assert_eq!(wants.len(), 2);
    assert!(matches!(&wants[0], DriveCommand::Create { path, request_tag, .. }
        if path == "\\" && *request_tag == TAG_OPEN_ROOT));
    assert!(matches!(&wants[1], DriveCommand::Create { path, request_tag, .. }
        if path == WRITE_TEST_FILE_NAME && *request_tag == TAG_CREATE_WRITE_TEST));

    let wants = test.on_create_reply(
        TAG_OPEN_ROOT,
        Ok(irp::CreateReply { file_id: 3, information: irp::FILE_OPENED }),
    );
    assert_eq!(events.last(), "root directory opened - listing entries");
    assert!(matches!(&wants[0], DriveCommand::QueryDirectory { file_id: 3, path: Some(p), .. }
        if p == "\\*"));

    // A directory is passed over, and the listing goes on.
    let wants = test.on_query_directory_reply(
        TAG_LIST,
        Ok(Some(entry("..", irp::FILE_ATTRIBUTE_DIRECTORY, 0))),
    );
    assert_eq!(events.last(), "entry: .. (dir, 0 bytes)");
    assert!(matches!(&wants[0], DriveCommand::QueryDirectory { path: None, .. }));

    let wants = test.on_query_directory_reply(
        TAG_LIST,
        Ok(Some(entry("a.txt", irp::FILE_ATTRIBUTE_NORMAL, -5))),
    );
    assert_eq!(events.last(), "entry: a.txt (file, -5 bytes)");
    assert_eq!(wants.len(), 2);
    assert!(matches!(&wants[0], DriveCommand::Create { path, request_tag, .. }
        if path == "\\a.txt" && *request_tag == TAG_OPEN_SAMPLE));
    // The listing goes on after it too.
    assert!(matches!(
        &wants[1],
        DriveCommand::QueryDirectory { device_id: 7, file_id: 3, path: None, request_tag: TAG_LIST }
    ));

    let wants = test.on_create_reply(
        TAG_OPEN_SAMPLE,
        Ok(irp::CreateReply { file_id: 4, information: irp::FILE_OPENED }),
    );
    assert_eq!(events.last(), "sample file opened (FileId 4) - reading first 4096 bytes");
    assert!(matches!(&wants[0], DriveCommand::Read { file_id: 4, length: 4096, offset: 0, .. }));

    // What is no text is shown in place, and quotes are told apart from the text.
    let wants = test.on_read_reply(TAG_READ_SAMPLE, Ok(b"say \"hi\"\n\xFF".to_vec()));
    assert_eq!(
        events.last(),
        "read 10 bytes from sample file - preview: \"say \\\"hi\\\"\\n\u{FFFD}\""
    );
    assert!(matches!(
        &wants[0],
        DriveCommand::Close { device_id: 7, file_id: 4, request_tag: TAG_CLOSE_SAMPLE }
    ));

    let wants = test.on_query_directory_reply(TAG_LIST, Ok(None));
    assert_eq!(events.last(), "directory listing complete");
    assert!(matches!(
        &wants[0],
        DriveCommand::Close { device_id: 7, file_id: 3, request_tag: TAG_CLOSE_ROOT }
    ));
    // It is closed once.
    assert!(test.on_query_directory_reply(TAG_LIST, Ok(None)).is_empty());
}

#[test]
fn a_printer_gets_a_job() {
    let events = Events::default();
    let mut test = DirectoryListingSelfTest::new(Box::new(events.clone()));
    let wants = test.on_device_ready(2, pdu::RDPDR_DTYP_PRINT, "PRN1");
    assert_eq!(events.last(), "printer 2 (PRN1) ready - opening a test print job");
    assert_eq!(wants.len(), 1);
    let wants = test.on_create_reply(
        TAG_OPEN_PRINT_JOB,
        Ok(irp::CreateReply { file_id: 9, information: irp::FILE_CREATED }),
    );
    assert!(matches!(&wants[0], DriveCommand::Write { file_id: 9, offset: 0, data, request_tag: TAG_WRITE_PRINT_JOB, .. }
        if data == PRINT_JOB_TEST_CONTENTS.as_bytes()));
    let wants = test.on_write_reply(TAG_WRITE_PRINT_JOB, Ok(PRINT_JOB_TEST_CONTENTS.len() as u32));
    assert!(matches!(&wants[0], DriveCommand::Close { file_id: 9, .. }));
    assert!(test.on_create_reply(TAG_OPEN_PRINT_JOB, Err(0xC000_0022)).is_empty());
    assert_eq!(events.last(), "failed to open print job: NTSTATUS 0xc0000022");
}

#[test]
fn a_reply_that_is_not_expected_changes_nothing() {
    let events = Events::default();
    let mut test = DirectoryListingSelfTest::new(Box::new(events.clone()));
    assert!(test.on_query_directory_reply(99, Ok(None)).is_empty());
    assert!(test.on_read_reply(99, Err(1)).is_empty());
    assert!(test.on_set_information_reply(1, Ok(())).is_empty());
    assert!(events.0.lock().unwrap().is_empty());
}

#[test]
fn a_request_is_written_under_its_number_and_remembered() {
    let command = DriveCommand::Close { device_id: 5, file_id: 6, request_tag: 77 };
    let (op, body) = encode_command(&command, 0x0102_0304);
    assert_eq!(
        (op.device_id, op.major_function, op.request_tag),
        (5, irp::IRP_MJ_CLOSE, 77)
    );
    assert_eq!(body, irp::encode_close_request(5, 6, 0x0102_0304));
}

#[test]
fn a_completion_answers_the_request_it_belongs_to() {
    let op = |major_function: u32| PendingOp { device_id: 1, major_function, request_tag: 8 };
    assert!(matches!(
        completion_call(op(irp::IRP_MJ_CLOSE), 0xC000_0008, &[]),
        Some(ConsumerCall::Close { request_tag: 8, status: 0xC000_0008 })
    ));
    assert!(matches!(
        completion_call(op(irp::IRP_MJ_READ), 0, &[2, 0, 0, 0, 0xAA, 0xBB]),
        Some(ConsumerCall::Read { request_tag: 8, result: Ok(b) }) if b == [0xAA, 0xBB]
    ));
    assert!(matches!(
        completion_call(op(irp::IRP_MJ_WRITE), 0xC000_007F, &[]),
        Some(ConsumerCall::Write { request_tag: 8, result: Err(0xC000_007F) })
    ));
    assert!(matches!(
        completion_call(op(irp::IRP_MJ_DIRECTORY_CONTROL), irp::STATUS_NO_MORE_FILES, &[]),
        Some(ConsumerCall::QueryDirectory { request_tag: 8, result: Ok(None) })
    ));
}

#[test]
fn a_request_that_cannot_be_made_fails_as_its_own_kind() {
    let command = DriveCommand::Read { device_id: 1, file_id: 2, length: 3, offset: 4, request_tag: 5 };
    assert!(matches!(
        failure_call(&command, 0xC000_009A),
        ConsumerCall::Read { request_tag: 5, result: Err(0xC000_009A) }
    ));
}

#[test]
fn buffers_for_attributes_have_their_layout() {
    assert_eq!(irp::end_of_file_information_buffer(-2), (-2i64).to_le_bytes());
    let basic = irp::basic_information_buffer(1, 2, 3, 4, 0x80);
    assert_eq!(basic.len(), 36);
    assert_eq!(basic[..8], 1i64.to_le_bytes());
    assert_eq!(basic[24..32], 4i64.to_le_bytes());
    assert_eq!(basic[32..36], [0x80, 0, 0, 0]);
    let request = irp::encode_set_information_request(1, 2, 3, 0x14, &[9; 8]);
    assert!(request.ends_with(&[9; 8]));
}

#[test]
fn devices_come_and_go() {
    let (mut channel, _) = RdpdrChannel::new(
        1004,
        1002,
        pdu::RDPDR_DTYP_FILESYSTEM,
        Box::new(DirectoryListingSelfTest::new(Box::new(Events::default()))),
    );
    let device = |device_type: u32| pdu::DeviceAnnounce {
        device_type,
        device_id: 11,
        preferred_dos_name: "C:".to_owned(),
        device_data: Vec::new(),
    };
    let (accepted, frames) = channel.accept_device(&device(pdu::RDPDR_DTYP_PRINT));
    assert!(!accepted);
    assert_eq!(frames.len(), 1);
    assert!(channel.devices().is_empty());
    let (accepted, frames) = channel.accept_device(&device(pdu::RDPDR_DTYP_FILESYSTEM));
    assert!(accepted);
    assert_eq!(frames.len(), 1);
    assert_eq!(
        channel.devices().get(&11),
        Some(&(pdu::RDPDR_DTYP_FILESYSTEM, "C:".to_owned()))
    );

    let mut out = Vec::new();
    channel.encode_commands(
        vec![DriveCommand::Close { device_id: 11, file_id: 1, request_tag: 1 }],
        &mut out,
    );
    assert_eq!(out.len(), 1);
    // A completion counts once.
    let found = (0..4).find(|id| channel.take_completion(11, *id, 0, &[]).is_some());
    assert!(found.is_some());
    assert!(channel.take_completion(11, found.unwrap(), 0, &[]).is_none());

    assert!(channel.withdraw_devices(&[11]).is_empty());
    assert!(channel.devices().is_empty());
}

#[test]
fn requests_without_room_are_given_back_in_order() {
    let (mut channel, _) = RdpdrChannel::new(
        1004,
        1002,
        pdu::RDPDR_DTYP_FILESYSTEM,
        Box::new(DirectoryListingSelfTest::new(Box::new(Events::default()))),
    );
    let close = |request_tag: u64| DriveCommand::Close { device_id: 1, file_id: 1, request_tag };
    let mut out = Vec::new();
    let commands: Vec<DriveCommand> = (0..MAX_PENDING_OPS as u64 + 2).map(close).collect();
    let left = channel.issue_commands(commands, &mut out);
    assert_eq!(out.len(), MAX_PENDING_OPS);
    assert_eq!(left.len(), 2);
    assert!(matches!(left[0], DriveCommand::Close { request_tag: 4096, .. }));
    assert!(matches!(left[1], DriveCommand::Close { request_tag: 4097, .. }));
    // The end of one of them makes room for another.
    assert!(channel.take_completion(1, 0, 0, &[]).is_some());
    assert!(channel.issue_commands(vec![close(9)], &mut out).is_empty());
}

#[test]
fn a_listing_is_walked_to_its_end() {
    let events = Events::default();
    let mut test = DirectoryListingSelfTest::new(Box::new(events.clone()));
    let _ = test.on_device_ready(1, pdu::RDPDR_DTYP_FILESYSTEM, "C:");
    let _ = test.on_create_reply(
        TAG_OPEN_ROOT,
        Ok(irp::CreateReply { file_id: 5, information: irp::FILE_OPENED }),
    );
    for name in ["a.txt", "b.txt", "c.txt"] {
        let wants = test
            .on_query_directory_reply(TAG_LIST, Ok(Some(entry(name, irp::FILE_ATTRIBUTE_NORMAL, 1))));
        assert_eq!(events.last(), format!("entry: {name} (file, 1 bytes)"));
        assert!(matches!(
            wants.last(),
            Some(DriveCommand::QueryDirectory {
                device_id: 1,
                file_id: 5,
                path: None,
                request_tag: TAG_LIST
            })
        ));
        // Only the first of them is opened.
        assert_eq!(wants.len(), if name == "a.txt" { 2 } else { 1 });
    }
    let wants = test.on_query_directory_reply(TAG_LIST, Ok(None));
    assert!(matches!(wants[0], DriveCommand::Close { file_id: 5, .. }));
}

#[test]
fn a_consumer_has_nothing_of_its_own_unless_it_says_so() {
    let test = DirectoryListingSelfTest::new(Box::new(Events::default()));
    let (mut channel, _) =
        RdpdrChannel::new(1004, 1002, pdu::RDPDR_DTYP_FILESYSTEM, Box::new(test));
    assert!(channel.flush_pending_commands().is_empty());
}
