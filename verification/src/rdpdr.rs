//! Device redirection: the drives and printers of a client, made available to
//! the server.
//!
//! The devices stand on the other side, so here the server asks and the client
//! answers. Whoever uses the devices is a [`DriveConsumer`]: every call on it
//! gives back the requests to issue next, and it may have some of its own in
//! between.

pub mod diagnostic;
pub mod irp;
pub mod pdu;

use std::collections::{HashMap, VecDeque};

use vstd::prelude::*;

use crate::bytes;
use crate::model;
use crate::model::Held;
use crate::svc;
use crate::trace;
use crate::trace::CallOf;
use crate::DecodeError;

verus! {

broadcast use {
    model::lemma_views_push,
    vstd::std_specs::hash::group_hash_axioms,
    vstd::map::group_map_axioms,
    vstd::map_lib::group_map_properties,
};

/// The number that clients are given. They only ever send it back.
pub const CLIENT_ID: u32 = 0x0001;

/// How many requests may be waiting for their end.
pub const MAX_PENDING_OPS: usize = 4096;

/// How many devices a client may have announced.
pub const MAX_DEVICES: usize = 256;

/// How long a message may be.
pub const MAX_RDPDR_MESSAGE_SIZE: usize = 16 * 1024 * 1024;

/// A request that a consumer wants issued. The tag comes back with the reply.
#[derive(Debug, Clone)]
pub enum DriveCommand {
    Create {
        device_id: u32,
        path: String,
        desired_access: u32,
        create_disposition: u32,
        create_options: u32,
        request_tag: u64,
    },
    Close { device_id: u32, file_id: u32, request_tag: u64 },
    Read { device_id: u32, file_id: u32, length: u32, offset: u64, request_tag: u64 },
    Write { device_id: u32, file_id: u32, offset: u64, data: Vec<u8>, request_tag: u64 },
    /// With a pattern a listing starts; without one it goes on.
    QueryDirectory { device_id: u32, file_id: u32, path: Option<String>, request_tag: u64 },
    SetInformation {
        device_id: u32,
        file_id: u32,
        fs_information_class: u32,
        set_buffer: Vec<u8>,
        request_tag: u64,
    },
}

#[verifier::ext_equal]
pub enum DriveCommandView {
    Create {
        device_id: u32,
        path: Seq<char>,
        desired_access: u32,
        create_disposition: u32,
        create_options: u32,
        request_tag: u64,
    },
    Close { device_id: u32, file_id: u32, request_tag: u64 },
    Read { device_id: u32, file_id: u32, length: u32, offset: u64, request_tag: u64 },
    Write { device_id: u32, file_id: u32, offset: u64, data: Seq<u8>, request_tag: u64 },
    QueryDirectory { device_id: u32, file_id: u32, path: Option<Seq<char>>, request_tag: u64 },
    SetInformation {
        device_id: u32,
        file_id: u32,
        fs_information_class: u32,
        set_buffer: Seq<u8>,
        request_tag: u64,
    },
}

impl View for DriveCommand {
    type V = DriveCommandView;

    open spec fn view(&self) -> DriveCommandView {
        match *self {
            DriveCommand::Create {
                device_id,
                path,
                desired_access,
                create_disposition,
                create_options,
                request_tag,
            } => DriveCommandView::Create {
                device_id,
                path: path@,
                desired_access,
                create_disposition,
                create_options,
                request_tag,
            },
            DriveCommand::Close { device_id, file_id, request_tag } => DriveCommandView::Close {
                device_id,
                file_id,
                request_tag,
            },
            DriveCommand::Read { device_id, file_id, length, offset, request_tag } =>
                DriveCommandView::Read { device_id, file_id, length, offset, request_tag },
            DriveCommand::Write { device_id, file_id, offset, data, request_tag } =>
                DriveCommandView::Write { device_id, file_id, offset, data: data@, request_tag },
            DriveCommand::QueryDirectory { device_id, file_id, path, request_tag } =>
                DriveCommandView::QueryDirectory {
                device_id,
                file_id,
                path: model::opt_view(path),
                request_tag,
            },
            DriveCommand::SetInformation {
                device_id,
                file_id,
                fs_information_class,
                set_buffer,
                request_tag,
            } => DriveCommandView::SetInformation {
                device_id,
                file_id,
                fs_information_class,
                set_buffer: set_buffer@,
                request_tag,
            },
        }
    }
}

impl DriveCommandView {
    pub open spec fn device_id(self) -> u32 {
        match self {
            DriveCommandView::Create { device_id, .. } => device_id,
            DriveCommandView::Close { device_id, .. } => device_id,
            DriveCommandView::Read { device_id, .. } => device_id,
            DriveCommandView::Write { device_id, .. } => device_id,
            DriveCommandView::QueryDirectory { device_id, .. } => device_id,
            DriveCommandView::SetInformation { device_id, .. } => device_id,
        }
    }

    pub open spec fn request_tag(self) -> u64 {
        match self {
            DriveCommandView::Create { request_tag, .. } => request_tag,
            DriveCommandView::Close { request_tag, .. } => request_tag,
            DriveCommandView::Read { request_tag, .. } => request_tag,
            DriveCommandView::Write { request_tag, .. } => request_tag,
            DriveCommandView::QueryDirectory { request_tag, .. } => request_tag,
            DriveCommandView::SetInformation { request_tag, .. } => request_tag,
        }
    }

    pub open spec fn major_function(self) -> u32 {
        match self {
            DriveCommandView::Create { .. } => irp::IRP_MJ_CREATE,
            DriveCommandView::Close { .. } => irp::IRP_MJ_CLOSE,
            DriveCommandView::Read { .. } => irp::IRP_MJ_READ,
            DriveCommandView::Write { .. } => irp::IRP_MJ_WRITE,
            DriveCommandView::QueryDirectory { .. } => irp::IRP_MJ_DIRECTORY_CONTROL,
            DriveCommandView::SetInformation { .. } => irp::IRP_MJ_SET_INFORMATION,
        }
    }

    /// What is kept of a request until its end.
    pub open spec fn op(self) -> PendingOp {
        PendingOp {
            device_id: self.device_id(),
            major_function: self.major_function(),
            request_tag: self.request_tag(),
        }
    }

    /// The request, under the number that its end will name.
    pub open spec fn wire(self, completion_id: u32) -> Seq<u8> {
        match self {
            DriveCommandView::Create {
                device_id,
                path,
                desired_access,
                create_disposition,
                create_options,
                ..
            } => irp::create_wire(
                device_id,
                completion_id,
                path,
                desired_access,
                create_disposition,
                create_options,
            ),
            DriveCommandView::Close { device_id, file_id, .. } => irp::close_wire(
                device_id,
                file_id,
                completion_id,
            ),
            DriveCommandView::Read { device_id, file_id, length, offset, .. } => irp::read_wire(
                device_id,
                file_id,
                completion_id,
                length,
                offset,
            ),
            DriveCommandView::Write { device_id, file_id, offset, data, .. } => irp::write_wire(
                device_id,
                file_id,
                completion_id,
                offset,
                data,
            ),
            DriveCommandView::QueryDirectory { device_id, file_id, path, .. } =>
                irp::query_directory_wire(device_id, file_id, completion_id, path),
            DriveCommandView::SetInformation {
                device_id,
                file_id,
                fs_information_class,
                set_buffer,
                ..
            } => irp::set_information_wire(
                device_id,
                file_id,
                completion_id,
                fs_information_class,
                set_buffer,
            ),
        }
    }
}

/// Uses the devices of a client. A tag is the one that the consumer gave the
/// request; each call may give requests to issue next.
pub trait DriveConsumer: Send {
    /// A device was announced and accepted. The type is one of
    /// `pdu::RDPDR_DTYP_*`.
    fn on_device_ready(
        &mut self,
        device_id: u32,
        device_type: u32,
        dos_name: &str,
    ) -> Vec<DriveCommand>;

    fn on_create_reply(
        &mut self,
        request_tag: u64,
        result: Result<irp::CreateReply, u32>,
    ) -> Vec<DriveCommand>;

    fn on_close_reply(&mut self, request_tag: u64, status: u32) -> Vec<DriveCommand>;

    fn on_read_reply(&mut self, request_tag: u64, result: Result<Vec<u8>, u32>) -> Vec<
        DriveCommand,
    >;

    fn on_write_reply(&mut self, request_tag: u64, result: Result<u32, u32>) -> Vec<DriveCommand>;

    /// `Ok(None)` is the end of the listing.
    fn on_query_directory_reply(
        &mut self,
        request_tag: u64,
        result: Result<Option<irp::DirectoryEntry>, u32>,
    ) -> Vec<DriveCommand>;

    fn on_set_information_reply(&mut self, request_tag: u64, result: Result<(), u32>) -> Vec<
        DriveCommand,
    >;

    /// The requests that did not come of a reply, since the last call: none, unless
    /// a consumer says otherwise.
    fn poll_commands(&mut self) -> (commands: Vec<DriveCommand>)
        default_ensures
            commands@.len() == 0,
            &*final(self) == &*old(self),
    {
        Vec::new()
    }
}

/// A request that waits for its end.
#[derive(Debug, Clone, Copy, PartialEq, Eq, Structural)]
pub struct PendingOp {
    pub device_id: u32,
    pub major_function: u32,
    pub request_tag: u64,
}

/// How a request ended, for the consumer that wanted it.
pub enum ConsumerCall {
    Create { request_tag: u64, result: Result<irp::CreateReply, u32> },
    Close { request_tag: u64, status: u32 },
    Read { request_tag: u64, result: Result<Vec<u8>, u32> },
    Write { request_tag: u64, result: Result<u32, u32> },
    QueryDirectory { request_tag: u64, result: Result<Option<irp::DirectoryEntry>, u32> },
    SetInformation { request_tag: u64, result: Result<(), u32> },
}

pub enum ConsumerCallView {
    Create { request_tag: u64, result: Result<irp::CreateReply, u32> },
    Close { request_tag: u64, status: u32 },
    Read { request_tag: u64, result: Result<Seq<u8>, u32> },
    Write { request_tag: u64, result: Result<u32, u32> },
    QueryDirectory { request_tag: u64, result: Result<Option<irp::DirectoryEntryView>, u32> },
    SetInformation { request_tag: u64, result: Result<(), u32> },
}

impl View for ConsumerCall {
    type V = ConsumerCallView;

    open spec fn view(&self) -> ConsumerCallView {
        match *self {
            ConsumerCall::Create { request_tag, result } => ConsumerCallView::Create {
                request_tag,
                result,
            },
            ConsumerCall::Close { request_tag, status } => ConsumerCallView::Close {
                request_tag,
                status,
            },
            ConsumerCall::Read { request_tag, result } => ConsumerCallView::Read {
                request_tag,
                result: match result {
                    Ok(data) => Ok(data@),
                    Err(status) => Err(status),
                },
            },
            ConsumerCall::Write { request_tag, result } => ConsumerCallView::Write {
                request_tag,
                result,
            },
            ConsumerCall::QueryDirectory { request_tag, result } =>
                ConsumerCallView::QueryDirectory {
                request_tag,
                result: match result {
                    Ok(entry) => Ok(model::opt_view(entry)),
                    Err(status) => Err(status),
                },
            },
            ConsumerCall::SetInformation { request_tag, result } =>
                ConsumerCallView::SetInformation { request_tag, result },
        }
    }
}

/// What a body that cannot be read stands for: a status that is no success.
pub open spec fn unreadable(io_status: u32) -> u32 {
    if io_status < 1 {
        1
    } else {
        io_status
    }
}

/// What a body says, where the request succeeded, and else the status.
pub open spec fn outcome<T>(io_status: u32, parsed: Result<T, DecodeError>) -> Result<T, u32> {
    if io_status == pdu::STATUS_SUCCESS {
        match parsed {
            Ok(v) => Ok(v),
            Err(_) => Err(unreadable(io_status)),
        }
    } else {
        Err(io_status)
    }
}

/// How a request ended, by its status and the body that came with it.
pub open spec fn call_for(op: PendingOp, io_status: u32, body: Seq<u8>) -> Option<
    ConsumerCallView,
> {
    let request_tag = op.request_tag;
    if op.major_function == irp::IRP_MJ_CREATE {
        Some(
            ConsumerCallView::Create {
                request_tag,
                result: outcome(io_status, irp::parse_create_reply(body)),
            },
        )
    } else if op.major_function == irp::IRP_MJ_CLOSE {
        Some(ConsumerCallView::Close { request_tag, status: io_status })
    } else if op.major_function == irp::IRP_MJ_READ {
        Some(
            ConsumerCallView::Read {
                request_tag,
                result: outcome(io_status, irp::parse_read_reply(body)),
            },
        )
    } else if op.major_function == irp::IRP_MJ_WRITE {
        Some(
            ConsumerCallView::Write {
                request_tag,
                result: outcome(io_status, irp::parse_write_reply(body)),
            },
        )
    } else if op.major_function == irp::IRP_MJ_DIRECTORY_CONTROL {
        Some(
            ConsumerCallView::QueryDirectory {
                request_tag,
                result: if io_status == irp::STATUS_NO_MORE_FILES {
                    Ok(None)
                } else {
                    outcome(io_status, irp::parse_query_directory_reply(body))
                },
            },
        )
    } else if op.major_function == irp::IRP_MJ_SET_INFORMATION {
        Some(
            ConsumerCallView::SetInformation {
                request_tag,
                result: if io_status == pdu::STATUS_SUCCESS {
                    Ok(())
                } else {
                    Err(io_status)
                },
            },
        )
    } else {
        None
    }
}

/// What the end of a request is for the consumer. A body that cannot be read
/// makes a failure of a success.
pub fn completion_call(op: PendingOp, io_status: u32, body: &[u8]) -> (r: Option<ConsumerCall>)
    ensures
        model::opt_view(r) == call_for(op, io_status, body@),
{
    let ok: bool = io_status == pdu::STATUS_SUCCESS;
    let request_tag: u64 = op.request_tag;
    let failure: u32 = if io_status < 1 {
        1
    } else {
        io_status
    };
    if op.major_function == irp::IRP_MJ_CREATE {
        let result: Result<irp::CreateReply, u32> = if ok {
            match irp::decode_create_reply(body) {
                Ok(reply) => Ok(reply),
                Err(_) => Err(failure),
            }
        } else {
            Err(io_status)
        };
        Some(ConsumerCall::Create { request_tag, result })
    } else if op.major_function == irp::IRP_MJ_CLOSE {
        Some(ConsumerCall::Close { request_tag, status: io_status })
    } else if op.major_function == irp::IRP_MJ_READ {
        let result: Result<Vec<u8>, u32> = if ok {
            match irp::decode_read_reply(body) {
                Ok(data) => Ok(data),
                Err(_) => Err(failure),
            }
        } else {
            Err(io_status)
        };
        Some(ConsumerCall::Read { request_tag, result })
    } else if op.major_function == irp::IRP_MJ_WRITE {
        let result: Result<u32, u32> = if ok {
            match irp::decode_write_reply(body) {
                Ok(n) => Ok(n),
                Err(_) => Err(failure),
            }
        } else {
            Err(io_status)
        };
        Some(ConsumerCall::Write { request_tag, result })
    } else if op.major_function == irp::IRP_MJ_DIRECTORY_CONTROL {
        let result: Result<Option<irp::DirectoryEntry>, u32> = if ok {
            match irp::decode_query_directory_reply(body) {
                Ok(entry) => Ok(entry),
                Err(_) => Err(failure),
            }
        } else if io_status == irp::STATUS_NO_MORE_FILES {
            Ok(None)
        } else {
            Err(io_status)
        };
        Some(ConsumerCall::QueryDirectory { request_tag, result })
    } else if op.major_function == irp::IRP_MJ_SET_INFORMATION {
        let result: Result<(), u32> = if ok {
            Ok(())
        } else {
            Err(io_status)
        };
        Some(ConsumerCall::SetInformation { request_tag, result })
    } else {
        None
    }
}

/// What the consumer is told of a request that was not issued.
pub open spec fn failure_of(command: DriveCommandView, status: u32) -> ConsumerCallView {
    match command {
        DriveCommandView::Create { request_tag, .. } => ConsumerCallView::Create {
            request_tag,
            result: Err(status),
        },
        DriveCommandView::Close { request_tag, .. } => ConsumerCallView::Close {
            request_tag,
            status,
        },
        DriveCommandView::Read { request_tag, .. } => ConsumerCallView::Read {
            request_tag,
            result: Err(status),
        },
        DriveCommandView::Write { request_tag, .. } => ConsumerCallView::Write {
            request_tag,
            result: Err(status),
        },
        DriveCommandView::QueryDirectory { request_tag, .. } => ConsumerCallView::QueryDirectory {
            request_tag,
            result: Err(status),
        },
        DriveCommandView::SetInformation { request_tag, .. } => ConsumerCallView::SetInformation {
            request_tag,
            result: Err(status),
        },
    }
}

/// What the consumer is told of a request that was not issued.
pub fn failure_call(command: &DriveCommand, status: u32) -> (r: ConsumerCall)
    ensures
        r@ == failure_of(command@, status),
{
    match command {
        DriveCommand::Create { request_tag, .. } => ConsumerCall::Create {
            request_tag: *request_tag,
            result: Err(status),
        },
        DriveCommand::Close { request_tag, .. } => ConsumerCall::Close {
            request_tag: *request_tag,
            status,
        },
        DriveCommand::Read { request_tag, .. } => ConsumerCall::Read {
            request_tag: *request_tag,
            result: Err(status),
        },
        DriveCommand::Write { request_tag, .. } => ConsumerCall::Write {
            request_tag: *request_tag,
            result: Err(status),
        },
        DriveCommand::QueryDirectory { request_tag, .. } => ConsumerCall::QueryDirectory {
            request_tag: *request_tag,
            result: Err(status),
        },
        DriveCommand::SetInformation { request_tag, .. } => ConsumerCall::SetInformation {
            request_tag: *request_tag,
            result: Err(status),
        },
    }
}

fn drive_command_device_id(command: &DriveCommand) -> (id: u32)
    ensures
        id == command@.device_id(),
{
    match command {
        DriveCommand::Create { device_id, .. } => *device_id,
        DriveCommand::Close { device_id, .. } => *device_id,
        DriveCommand::Read { device_id, .. } => *device_id,
        DriveCommand::Write { device_id, .. } => *device_id,
        DriveCommand::QueryDirectory { device_id, .. } => *device_id,
        DriveCommand::SetInformation { device_id, .. } => *device_id,
    }
}

/// The request, under the number that its end will name, and what is kept of it.
pub fn encode_command(command: &DriveCommand, completion_id: u32) -> (r: (PendingOp, Vec<u8>))
    ensures
        r.0 == command@.op(),
        r.1@ == command@.wire(completion_id),
{
    let device_id: u32 = drive_command_device_id(command);
    let (major_function, request_tag, bytes): (u32, u64, Vec<u8>) = match command {
        DriveCommand::Create {
            device_id,
            path,
            desired_access,
            create_disposition,
            create_options,
            request_tag,
        } => (
            irp::IRP_MJ_CREATE,
            *request_tag,
            irp::encode_create_request(
                *device_id,
                completion_id,
                path.as_str(),
                *desired_access,
                *create_disposition,
                *create_options,
            ),
        ),
        DriveCommand::Close { device_id, file_id, request_tag } => (
            irp::IRP_MJ_CLOSE,
            *request_tag,
            irp::encode_close_request(*device_id, *file_id, completion_id),
        ),
        DriveCommand::Read { device_id, file_id, length, offset, request_tag } => (
            irp::IRP_MJ_READ,
            *request_tag,
            irp::encode_read_request(*device_id, *file_id, completion_id, *length, *offset),
        ),
        DriveCommand::Write { device_id, file_id, offset, data, request_tag } => (
            irp::IRP_MJ_WRITE,
            *request_tag,
            irp::encode_write_request(
                *device_id,
                *file_id,
                completion_id,
                *offset,
                data.as_slice(),
            ),
        ),
        DriveCommand::QueryDirectory { device_id, file_id, path, request_tag } => {
            let pattern: Option<&str> = match path {
                Some(p) => Some(p.as_str()),
                None => None,
            };
            (
                irp::IRP_MJ_DIRECTORY_CONTROL,
                *request_tag,
                irp::encode_query_directory_request(*device_id, *file_id, completion_id, pattern),
            )
        },
        DriveCommand::SetInformation {
            device_id,
            file_id,
            fs_information_class,
            set_buffer,
            request_tag,
        } => (
            irp::IRP_MJ_SET_INFORMATION,
            *request_tag,
            irp::encode_set_information_request(
                *device_id,
                *file_id,
                completion_id,
                *fs_information_class,
                set_buffer.as_slice(),
            ),
        ),
    };
    (PendingOp { device_id, major_function, request_tag }, bytes)
}

/// What the channel knows: what it was made with, the devices by their numbers,
/// the number of the next request, the requests that wait, and the bytes held
/// of a message that is not complete.
#[verifier::ext_equal]
pub struct ChannelView {
    pub channel_id: u16,
    pub user_channel_id: u16,
    pub supported: u32,
    pub devices: Map<u32, (u32, Seq<char>)>,
    pub next: u32,
    pub pending: Map<u32, PendingOp>,
    pub held: Seq<u8>,
}

impl ChannelView {
    /// There are no more devices and requests than there may be.
    pub open spec fn wf(self) -> bool {
        &&& self.devices.dom().finite()
        &&& self.devices.len() <= MAX_DEVICES
        &&& self.pending.dom().finite()
        &&& self.pending.len() <= MAX_PENDING_OPS
    }

    /// The packets that carry a message.
    pub open spec fn frames(self, data: Seq<u8>) -> Seq<Seq<u8>> {
        svc::frames(self.user_channel_id, self.channel_id, data)
    }
}

/// One request goes out under the next number, and waits for its end.
pub open spec fn issued_one(s: ChannelView, command: DriveCommandView) -> (
    ChannelView,
    Seq<Seq<u8>>,
) {
    (
        ChannelView {
            next: bytes::low32(s.next + 1),
            pending: s.pending.insert(s.next, command.op()),
            ..s
        },
        s.frames(command.wire(s.next)),
    )
}

/// Requests go out in order for as long as there is room for them.
pub open spec fn issued(s: ChannelView, commands: Seq<DriveCommandView>) -> (
    ChannelView,
    Seq<Seq<u8>>,
)
    decreases commands.len(),
{
    if commands.len() == 0 || s.pending.len() >= MAX_PENDING_OPS {
        (s, seq![])
    } else {
        let (first, frames) = issued_one(s, commands[0]);
        let (after, more) = issued(first, commands.skip(1));
        (after, frames + more)
    }
}

/// The requests for which there is no room: all from the first such one on.
pub open spec fn refused(s: ChannelView, commands: Seq<DriveCommandView>) -> Seq<DriveCommandView>
    decreases commands.len(),
{
    if commands.len() == 0 || s.pending.len() >= MAX_PENDING_OPS {
        commands
    } else {
        refused(issued_one(s, commands[0]).0, commands.skip(1))
    }
}

/// A device is accepted where its type is one of those supported and there is
/// room for it, or it is there already.
pub open spec fn accepts(s: ChannelView, device: pdu::DeviceAnnounceView) -> bool {
    &&& s.supported & device.device_type != 0
    &&& s.devices.contains_key(device.device_id) || s.devices.len() < MAX_DEVICES
}

/// What one announced device does, before the consumer hears of it.
pub open spec fn accepted_one(s: ChannelView, device: pdu::DeviceAnnounceView) -> (
    ChannelView,
    Seq<Seq<u8>>,
) {
    if accepts(s, device) {
        (
            ChannelView {
                devices: s.devices.insert(
                    device.device_id,
                    (device.device_type, device.preferred_dos_name),
                ),
                ..s
            },
            s.frames(pdu::device_reply_wire(device.device_id, pdu::STATUS_SUCCESS)),
        )
    } else {
        (s, s.frames(pdu::device_reply_wire(device.device_id, pdu::STATUS_UNSUCCESSFUL)))
    }
}

/// What one announced device does, where the consumer answers with `answer`.
pub open spec fn announced_one(
    s: ChannelView,
    device: pdu::DeviceAnnounceView,
    answer: Seq<DriveCommandView>,
) -> (ChannelView, Seq<Seq<u8>>) {
    let (known, reply) = accepted_one(s, device);
    if accepts(s, device) {
        let (after, frames) = issued(known, answer);
        (after, reply + frames)
    } else {
        (known, reply)
    }
}

/// What a list of devices does: each in turn, answered by the consumer before
/// the next is looked at.
pub open spec fn announced(
    s: ChannelView,
    devices: Seq<pdu::DeviceAnnounceView>,
    answers: Seq<Seq<DriveCommandView>>,
) -> (ChannelView, Seq<Seq<u8>>)
    decreases devices.len(),
{
    if devices.len() == 0 {
        (s, seq![])
    } else {
        let (before, frames) = announced(s, devices.drop_last(), answers.drop_last());
        let (after, more) = announced_one(before, devices.last(), answers.last());
        (after, frames + more)
    }
}

/// The devices are gone.
pub open spec fn withdrawn(s: ChannelView, ids: Seq<u32>) -> ChannelView {
    ChannelView { devices: s.devices.remove_keys(ids.to_set()), ..s }
}

/// The requests that wait for one of the devices.
pub open spec fn stale(s: ChannelView, ids: Seq<u32>) -> Set<u32> {
    s.pending.dom().filter(|id: u32| ids.contains(s.pending[id].device_id))
}

/// A request waits no longer, where it did, and the consumer answers its end
/// with `answer`.
pub open spec fn ended_one(s: ChannelView, id: u32, answer: Seq<DriveCommandView>) -> (
    ChannelView,
    Seq<Seq<u8>>,
) {
    if s.pending.contains_key(id) {
        issued(ChannelView { pending: s.pending.remove(id), ..s }, answer)
    } else {
        (s, seq![])
    }
}

/// Requests end one after the other.
pub open spec fn ended(s: ChannelView, order: Seq<u32>, answers: Seq<Seq<DriveCommandView>>) -> (
    ChannelView,
    Seq<Seq<u8>>,
)
    decreases order.len(),
{
    if order.len() == 0 {
        (s, seq![])
    } else {
        let (before, frames) = ended(s, order.drop_last(), answers.drop_last());
        let (after, more) = ended_one(before, order.last(), answers.last());
        (after, frames + more)
    }
}

/// Whether requests that end in `order`, and what a consumer answered, can
/// belong to a message: the requests that wait for devices that go away end in
/// any order, and there is an answer for each call.
pub open spec fn belongs(
    s: ChannelView,
    message: pdu::ClientMessageView,
    order: Seq<u32>,
    answers: Seq<Seq<DriveCommandView>>,
) -> bool {
    match message {
        pdu::ClientMessageView::DeviceListAnnounce(devices) => answers.len() == devices.len(),
        pdu::ClientMessageView::DeviceListRemove(ids) => {
            &&& order.no_duplicates()
            &&& order.to_set() == stale(s, ids)
            &&& answers.len() == order.len()
        },
        pdu::ClientMessageView::DeviceIoCompletion { .. } => answers.len() == 1,
        _ => true,
    }
}

/// What a message does, where requests end in `order` and the consumer answers
/// with `answers`.
pub open spec fn handled(
    s: ChannelView,
    message: pdu::ClientMessageView,
    order: Seq<u32>,
    answers: Seq<Seq<DriveCommandView>>,
) -> (ChannelView, Seq<Seq<u8>>) {
    match message {
        pdu::ClientMessageView::ClientName => (
            s,
            s.frames(pdu::server_capability_wire(s.supported)) + s.frames(
                pdu::client_id_confirm_wire(CLIENT_ID),
            ),
        ),
        pdu::ClientMessageView::ClientCapability => (
            s,
            s.frames(pdu::header(pdu::PAKID_CORE_USER_LOGGEDON)),
        ),
        pdu::ClientMessageView::DeviceListAnnounce(devices) => announced(s, devices, answers),
        pdu::ClientMessageView::DeviceListRemove(ids) => ended(withdrawn(s, ids), order, answers),
        pdu::ClientMessageView::DeviceIoCompletion { device_id, completion_id, .. } => {
            if s.pending.contains_key(completion_id) && s.pending[completion_id].device_id
                != device_id {
                (ChannelView { pending: s.pending.remove(completion_id), ..s }, seq![])
            } else {
                ended_one(s, completion_id, answers[0])
            }
        },
        _ => (s, seq![]),
    }
}

/// What a chunk does to the bytes held of a message: the bytes then held, and
/// the message where the chunk was its last.
pub open spec fn received(held: Seq<u8>, payload: Seq<u8>) -> (
    Seq<u8>,
    Result<Option<pdu::ClientMessageView>, DecodeError>,
) {
    match svc::reassembled(
        held,
        payload,
        MAX_RDPDR_MESSAGE_SIZE as int,
        "rdpdr.incoming_buffer",
    ) {
        (h, Err(e)) => (h, Err(e)),
        (h, Ok(None)) => (h, Ok(None)),
        (h, Ok(Some(message))) => match pdu::parse_client_message(message) {
            Err(e) => (h, Err(e)),
            Ok(m) => (h, Ok(Some(m))),
        },
    }
}

/// The devices of a map, with their names as text.
pub open spec fn named(devices: Map<u32, (u32, String)>) -> Map<u32, (u32, Seq<char>)> {
    devices.map_values(|d: (u32, String)| (d.0, d.1@))
}

/// The device channel of one connection. Whatever it sends comes back as whole
/// packets.
pub struct RdpdrChannel {
    channel_id: u16,
    user_channel_id: u16,
    supported: u32,
    devices: HashMap<u32, (u32, String)>,
    next_completion_id: u32,
    pending: HashMap<u32, PendingOp>,
    consumer: Held<Box<dyn DriveConsumer>>,
    incoming_buffer: Vec<u8>,
}

impl View for RdpdrChannel {
    type V = ChannelView;

    closed spec fn view(&self) -> ChannelView {
        ChannelView {
            channel_id: self.channel_id,
            user_channel_id: self.user_channel_id,
            supported: self.supported,
            devices: named(self.devices@),
            next: self.next_completion_id,
            pending: self.pending@,
            held: self.incoming_buffer@,
        }
    }
}

/// One call of a method of a consumer.
pub enum Told {
    Ready { device_id: u32, device_type: u32, dos_name: Seq<char> },
    End(ConsumerCall),
    Poll,
}

#[verifier::ext_equal]
pub enum ToldView {
    Ready { device_id: u32, device_type: u32, dos_name: Seq<char> },
    End(ConsumerCallView),
    Poll,
}

impl View for Told {
    type V = ToldView;

    open spec fn view(&self) -> ToldView {
        match self {
            Told::Ready { device_id, device_type, dos_name } => ToldView::Ready {
                device_id: *device_id,
                device_type: *device_type,
                dos_name: *dos_name,
            },
            Told::End(call) => ToldView::End(call@),
            Told::Poll => ToldView::Poll,
        }
    }
}

/// The calls of the methods of a consumer, in order, each with what it returned.
pub type Calls = Seq<(Told, Vec<DriveCommand>)>;

/// The calls by which a consumer is told of requests for which there is no room:
/// that each failed, and that whatever it then wants instead failed too. There
/// are `budget` of them at the most.
pub open spec fn turned_away(queue: Seq<DriveCommandView>, calls: Calls, budget: nat) -> bool
    decreases budget,
{
    if queue.len() == 0 || budget == 0 {
        calls.len() == 0
    } else {
        &&& calls.len() > 0
        &&& calls[0].0@ == ToldView::End(failure_of(queue[0], pdu::STATUS_UNSUCCESSFUL))
        &&& turned_away(
            queue.skip(1) + model::views(calls[0].1@),
            calls.skip(1),
            (budget - 1) as nat,
        )
    }
}

/// The calls that come of one thing to tell: the consumer is told it, answers
/// with `answer`, and is told what of that there is no room for.
pub open spec fn heard(
    s: ChannelView,
    told: ToldView,
    answer: Seq<DriveCommandView>,
    calls: Calls,
) -> bool {
    &&& calls.len() > 0
    &&& calls[0].0@ == told
    &&& model::views(calls[0].1@) == answer
    &&& turned_away(refused(s, answer), calls.skip(1), u64::MAX as nat)
}

/// The calls that come of one announced device: none where it is refused.
pub open spec fn heard_device(
    s: ChannelView,
    device: pdu::DeviceAnnounceView,
    answer: Seq<DriveCommandView>,
    calls: Calls,
) -> bool {
    if accepts(s, device) {
        heard(
            accepted_one(s, device).0,
            ToldView::Ready {
                device_id: device.device_id,
                device_type: device.device_type,
                dos_name: device.preferred_dos_name,
            },
            answer,
            calls,
        )
    } else {
        calls.len() == 0
    }
}

/// The calls that come of the end of a request: none where nothing waits for it.
pub open spec fn heard_end(
    s: ChannelView,
    id: u32,
    io_status: u32,
    body: Seq<u8>,
    answer: Seq<DriveCommandView>,
    calls: Calls,
) -> bool {
    if s.pending.contains_key(id) {
        match call_for(s.pending[id], io_status, body) {
            Some(end) => heard(
                ChannelView { pending: s.pending.remove(id), ..s },
                ToldView::End(end),
                answer,
                calls,
            ),
            None => answer.len() == 0 && calls.len() == 0,
        }
    } else {
        calls.len() == 0
    }
}

/// The calls that come of each part of a message: of each announced device, of
/// each request whose device goes away, which failed, or of the end of a request,
/// unless it comes from another device.
pub open spec fn heard_of(
    s: ChannelView,
    message: pdu::ClientMessageView,
    order: Seq<u32>,
    answers: Seq<Seq<DriveCommandView>>,
    calls: Seq<Calls>,
) -> bool {
    match message {
        pdu::ClientMessageView::DeviceListAnnounce(devices) => {
            &&& calls.len() == devices.len()
            &&& forall|i: int|
                0 <= i < devices.len() ==> heard_device(
                    announced(s, devices.take(i), answers.take(i)).0,
                    devices[i],
                    answers[i],
                    #[trigger] calls[i],
                )
        },
        pdu::ClientMessageView::DeviceListRemove(ids) => {
            &&& calls.len() == order.len()
            &&& forall|i: int|
                0 <= i < order.len() ==> heard_end(
                    ended(withdrawn(s, ids), order.take(i), answers.take(i)).0,
                    order[i],
                    pdu::STATUS_UNSUCCESSFUL,
                    seq![],
                    answers[i],
                    #[trigger] calls[i],
                )
        },
        pdu::ClientMessageView::DeviceIoCompletion {
            device_id,
            completion_id,
            io_status,
            body,
        } => {
            &&& calls.len() == 1
            &&& if s.pending.contains_key(completion_id) && s.pending[completion_id].device_id
                != device_id {
                calls[0].len() == 0
            } else {
                heard_end(s, completion_id, io_status, body, answers[0], calls[0])
            }
        },
        _ => calls.len() == 0,
    }
}

/// The method that takes the end of a request of this kind is called, with the
/// tag of the request and with its end, and returns `commands`.
pub open spec fn took_end<C: DriveConsumer + ?Sized>(
    c: &mut C,
    call: ConsumerCall,
    commands: Vec<DriveCommand>,
) -> bool {
    match call {
        ConsumerCall::Create { request_tag, result } => call_ensures(
            C::on_create_reply,
            (c, request_tag, result),
            commands,
        ),
        ConsumerCall::Close { request_tag, status } => call_ensures(
            C::on_close_reply,
            (c, request_tag, status),
            commands,
        ),
        ConsumerCall::Read { request_tag, result } => call_ensures(
            C::on_read_reply,
            (c, request_tag, result),
            commands,
        ),
        ConsumerCall::Write { request_tag, result } => call_ensures(
            C::on_write_reply,
            (c, request_tag, result),
            commands,
        ),
        ConsumerCall::QueryDirectory { request_tag, result } => call_ensures(
            C::on_query_directory_reply,
            (c, request_tag, result),
            commands,
        ),
        ConsumerCall::SetInformation { request_tag, result } => call_ensures(
            C::on_set_information_reply,
            (c, request_tag, result),
            commands,
        ),
    }
}

/// The method that a call is for is called, with what it is told, and returns
/// `commands`.
pub open spec fn took<C: DriveConsumer + ?Sized>(
    c: &mut C,
    told: Told,
    commands: Vec<DriveCommand>,
) -> bool {
    match told {
        Told::Ready { device_id, device_type, dos_name } => exists|name: &str|
            name@ == dos_name && #[trigger] call_ensures(
                C::on_device_ready,
                (c, device_id, device_type, name),
                commands,
            ),
        Told::End(call) => took_end(c, call, commands),
        Told::Poll => call_ensures(C::poll_commands, (c,), commands),
    }
}

impl<C: DriveConsumer + ?Sized> CallOf<C> for (Told, Vec<DriveCommand>) {
    open spec fn made_of(self, c: &mut C) -> bool {
        took(c, self.0, self.1)
    }
}

/// Hands a consumer the end of a request.
fn hand_over<C: DriveConsumer + ?Sized>(consumer: &mut C, call: ConsumerCall) -> (commands: Vec<
    DriveCommand,
>)
    ensures
        exists|c: &mut C|
            &*c == &*old(consumer) && &*final(c) == &*final(consumer) && #[trigger] took_end(
                c,
                call,
                commands,
            ),
{
    match call {
        ConsumerCall::Create { request_tag, result } => {
            let commands: Vec<DriveCommand> = consumer.on_create_reply(request_tag, result);
            assert(forall|c: &mut C| #[trigger]
                call_ensures(C::on_create_reply, (c, request_tag, result), commands) ==> took_end(
                    c,
                    call,
                    commands,
                ));
            commands
        },
        ConsumerCall::Close { request_tag, status } => {
            let commands: Vec<DriveCommand> = consumer.on_close_reply(request_tag, status);
            assert(forall|c: &mut C| #[trigger]
                call_ensures(C::on_close_reply, (c, request_tag, status), commands) ==> took_end(
                    c,
                    call,
                    commands,
                ));
            commands
        },
        ConsumerCall::Read { request_tag, result } => {
            let commands: Vec<DriveCommand> = consumer.on_read_reply(request_tag, result);
            assert(forall|c: &mut C| #[trigger]
                call_ensures(C::on_read_reply, (c, request_tag, result), commands) ==> took_end(
                    c,
                    call,
                    commands,
                ));
            commands
        },
        ConsumerCall::Write { request_tag, result } => {
            let commands: Vec<DriveCommand> = consumer.on_write_reply(request_tag, result);
            assert(forall|c: &mut C| #[trigger]
                call_ensures(C::on_write_reply, (c, request_tag, result), commands) ==> took_end(
                    c,
                    call,
                    commands,
                ));
            commands
        },
        ConsumerCall::QueryDirectory { request_tag, result } => {
            let commands: Vec<DriveCommand> = consumer.on_query_directory_reply(
                request_tag,
                result,
            );
            assert(forall|c: &mut C| #[trigger]
                call_ensures(C::on_query_directory_reply, (c, request_tag, result), commands)
                    ==> took_end(c, call, commands));
            commands
        },
        ConsumerCall::SetInformation { request_tag, result } => {
            let commands: Vec<DriveCommand> = consumer.on_set_information_reply(
                request_tag,
                result,
            );
            assert(forall|c: &mut C| #[trigger]
                call_ensures(C::on_set_information_reply, (c, request_tag, result), commands)
                    ==> took_end(c, call, commands));
            commands
        },
    }
}

/// Tells a consumer of a device.
fn introduce<C: DriveConsumer + ?Sized>(
    consumer: &mut C,
    device_id: u32,
    device_type: u32,
    dos_name: &str,
) -> (commands: Vec<DriveCommand>)
    ensures
        exists|c: &mut C|
            &*c == &*old(consumer) && &*final(c) == &*final(consumer) && #[trigger] call_ensures(
                C::on_device_ready,
                (c, device_id, device_type, dos_name),
                commands,
            ),
{
    consumer.on_device_ready(device_id, device_type, dos_name)
}

/// Asks a consumer what it wants of its own.
fn ask<C: DriveConsumer + ?Sized>(consumer: &mut C) -> (commands: Vec<DriveCommand>)
    ensures
        exists|c: &mut C|
            &*c == &*old(consumer) && &*final(c) == &*final(consumer) && #[trigger] call_ensures(
                C::poll_commands,
                (c,),
                commands,
            ),
{
    consumer.poll_commands()
}

proof fn lemma_took_end<C: DriveConsumer + ?Sized>(
    before: &Box<C>,
    call: ConsumerCall,
    commands: Vec<DriveCommand>,
    after: &Box<C>,
)
    requires
        exists|c: &mut C|
            &*c == &**before && &*final(c) == &**after && #[trigger] took_end(c, call, commands),
    ensures
        exists|cs: Seq<&mut C>| #[trigger]
            trace::ran(before, cs, seq![(Told::End(call), commands)], after) && forall|i: int|
                0 <= i < cs.len() ==> &*final(#[trigger] cs[i]) == trace::at(cs, i + 1, after),
{
    let one = (Told::End(call), commands);
    assert(forall|c: &mut C| #[trigger] took_end(c, call, commands) ==> one.made_of(c));
    trace::lemma_ran_one(before, one, after);
}

proof fn lemma_polled<C: DriveConsumer + ?Sized>(
    before: &Box<C>,
    commands: Vec<DriveCommand>,
    after: &Box<C>,
)
    requires
        exists|c: &mut C|
            &*c == &**before && &*final(c) == &**after && #[trigger] call_ensures(
                C::poll_commands,
                (c,),
                commands,
            ),
    ensures
        exists|cs: Seq<&mut C>| #[trigger]
            trace::ran(before, cs, seq![(Told::Poll, commands)], after) && forall|i: int|
                0 <= i < cs.len() ==> &*final(#[trigger] cs[i]) == trace::at(cs, i + 1, after),
{
    let one = (Told::Poll, commands);
    assert(forall|c: &mut C| #[trigger]
        call_ensures(C::poll_commands, (c,), commands) ==> one.made_of(c));
    trace::lemma_ran_one(before, one, after);
}

proof fn lemma_heard(s: ChannelView, told: Told, answer: Vec<DriveCommand>, more: Calls)
    requires
        turned_away(refused(s, model::views(answer@)), more, u64::MAX as nat),
    ensures
        heard(s, told@, model::views(answer@), seq![(told, answer)] + more),
{
    let calls = seq![(told, answer)] + more;
    assert(calls[0] == (told, answer));
    assert(calls.skip(1) =~= more);
}

proof fn lemma_introduced<C: DriveConsumer + ?Sized>(
    before: &Box<C>,
    device_id: u32,
    device_type: u32,
    dos_name: &str,
    commands: Vec<DriveCommand>,
    after: &Box<C>,
)
    requires
        exists|c: &mut C|
            &*c == &**before && &*final(c) == &**after && #[trigger] call_ensures(
                C::on_device_ready,
                (c, device_id, device_type, dos_name),
                commands,
            ),
    ensures
        ({
            let told = Told::Ready { device_id, device_type, dos_name: dos_name@ };
            exists|cs: Seq<&mut C>| #[trigger]
                trace::ran(before, cs, seq![(told, commands)], after) && forall|i: int|
                    0 <= i < cs.len() ==> &*final(#[trigger] cs[i]) == trace::at(cs, i + 1, after)
        }),
{
    let told = Told::Ready { device_id, device_type, dos_name: dos_name@ };
    let one = (told, commands);
    assert forall|c: &mut C| #[trigger]
        call_ensures(
            C::on_device_ready,
            (c, device_id, device_type, dos_name),
            commands,
        ) implies one.made_of(c) by {
        assert(took(c, told, commands));
    }
    trace::lemma_ran_one(before, one, after);
}

fn queued(commands: Vec<DriveCommand>) -> (queue: VecDeque<DriveCommand>)
    ensures
        queue@ == commands@,
{
    let mut queue: VecDeque<DriveCommand> = VecDeque::new();
    for command in iter: commands
        invariant
            iter.seq() == commands@,
            queue@ == commands@.take(iter.index()),
    {
        queue.push_back(command);
    }
    queue
}

fn lists(ids: &[u32], id: u32) -> (r: bool)
    ensures
        r == ids@.contains(id),
{
    let n: usize = ids.len();
    let mut i: usize = 0;
    while i < n
        invariant
            i <= n,
            n == ids@.len(),
            forall|j: int| 0 <= j < i ==> ids@[j] != id,
        decreases n - i,
    {
        if ids[i] == id {
            return true;
        }
        i = i + 1;
    }
    false
}

impl RdpdrChannel {
    /// The channel, and the packets that open it: the server speaks first.
    /// `supported` holds the types of device that are accepted.
    pub fn new(
        channel_id: u16,
        user_channel_id: u16,
        supported: u32,
        consumer: Box<dyn DriveConsumer>,
    ) -> (r: (Self, Vec<Vec<u8>>))
        ensures
            r.0@ == (ChannelView {
                channel_id,
                user_channel_id,
                supported,
                devices: Map::empty(),
                next: 0,
                pending: Map::empty(),
                held: seq![],
            }),
            r.0@.wf(),
            r.0.served() == &consumer,
            model::views(r.1@) == r.0@.frames(pdu::server_announce_wire(CLIENT_ID)),
    {
        let initial: Vec<Vec<u8>> = svc::wrap_indication(
            user_channel_id,
            channel_id,
            pdu::encode_server_announce_request(CLIENT_ID),
        );
        let held = Held { value: consumer };
        let channel = Self {
            channel_id,
            user_channel_id,
            supported,
            devices: HashMap::new(),
            next_completion_id: 0,
            pending: HashMap::new(),
            consumer: held,
            incoming_buffer: Vec::new(),
        };
        assert(named(channel.devices@) =~= Map::empty());
        (channel, initial)
    }

    pub fn channel_id(&self) -> (id: u16)
        ensures
            id == self@.channel_id,
    {
        self.channel_id
    }

    /// The devices that were announced and accepted: type and name, by number.
    pub fn devices(&self) -> (r: &HashMap<u32, (u32, String)>)
        ensures
            named(r@) == self@.devices,
    {
        &self.devices
    }

    fn wrap(&self, data: Vec<u8>) -> (frames: Vec<Vec<u8>>)
        requires
            self@.wf(),
        ensures
            model::views(frames@) == self@.frames(data@),
    {
        svc::wrap_indication(self.user_channel_id, self.channel_id, data)
    }

    /// The consumer that the channel has, as it is.
    pub closed spec fn served(&self) -> &Box<dyn DriveConsumer> {
        &self.consumer.value
    }

    /// Hands the consumer the end of a request, and gives what it wants next.
    fn tell(&mut self, call: ConsumerCall) -> (commands: Vec<DriveCommand>)
        ensures
            final(self)@ == old(self)@,
            exists|cs: Seq<&mut dyn DriveConsumer>| #[trigger]
                trace::ran(
                    old(self).served(),
                    cs,
                    seq![(Told::End(call), commands)],
                    final(self).served(),
                ) && forall|i: int|
                    0 <= i < cs.len() ==> &*final(#[trigger] cs[i]) == trace::at(
                        cs,
                        i + 1,
                        final(self).served(),
                    ),
    {
        let commands: Vec<DriveCommand> = hand_over(&mut *self.consumer.value, call);
        proof {
            lemma_took_end(old(self).served(), call, commands, self.served());
        }
        commands
    }

    /// Issues one request.
    fn issue(&mut self, command: &DriveCommand) -> (frames: Vec<Vec<u8>>)
        requires
            old(self)@.wf(),
            old(self)@.pending.len() < MAX_PENDING_OPS,
        ensures
            final(self)@.wf(),
            final(self).served() == old(self).served(),
            (final(self)@, model::views(frames@)) == issued_one(old(self)@, command@),
    {
        let completion_id: u32 = self.next_completion_id;
        self.next_completion_id = self.next_completion_id.wrapping_add(1);
        let (op, bytes) = encode_command(command, completion_id);
        self.pending.insert(completion_id, op);
        self.wrap(bytes)
    }

    /// Issues requests in order, for as long as there is room for them, and adds
    /// their packets to `out`. Gives those for which there is none.
    pub fn issue_commands(&mut self, commands: Vec<DriveCommand>, out: &mut Vec<Vec<u8>>) -> (left:
        VecDeque<DriveCommand>)
        requires
            old(self)@.wf(),
        ensures
            final(self)@.wf(),
            final(self)@ == issued(old(self)@, model::views(commands@)).0,
            model::views(final(out)@) == model::views(old(out)@) + issued(
                old(self)@,
                model::views(commands@),
            ).1,
            model::views(left@) == refused(old(self)@, model::views(commands@)),
            final(self).served() == old(self).served(),
    {
        let ghost start = self@;
        let ghost all = model::views(commands@);
        let ghost before = model::views(out@);
        let mut queue: VecDeque<DriveCommand> = queued(commands);
        assert(before + issued(start, all).1 =~= model::views(out@) + issued(self@, all).1);
        while queue.len() > 0 && self.pending.len() < MAX_PENDING_OPS
            invariant
                self@.wf(),
                self.served() == old(self).served(),
                issued(start, all).0 == issued(self@, model::views(queue@)).0,
                before + issued(start, all).1 == model::views(out@) + issued(
                    self@,
                    model::views(queue@),
                ).1,
                refused(start, all) == refused(self@, model::views(queue@)),
            decreases queue@.len(),
        {
            let ghost s = self@;
            let ghost had = model::views(out@);
            let ghost waiting = model::views(queue@);
            if let Some(command) = queue.pop_front() {
                let mut frames: Vec<Vec<u8>> = self.issue(&command);
                proof {
                    assert(model::views(queue@) =~= waiting.skip(1));
                    model::lemma_views_add(out@, frames@);
                    assert(had + issued(s, waiting).1 =~= (had + model::views(frames@)) + issued(
                        self@,
                        waiting.skip(1),
                    ).1);
                }
                out.append(&mut frames);
            }
        }
        proof {
            assert(issued(self@, model::views(queue@)).0 == self@);
            assert(model::views(out@) + issued(self@, model::views(queue@)).1 =~= model::views(
                out@,
            ));
        }
        queue
    }

    /// Issues requests as [`RdpdrChannel::issue_commands`] does. The consumer is
    /// told that the others failed, and that whatever it then wants instead failed
    /// too. Gives the calls by which it is told.
    fn run_commands(&mut self, commands: Vec<DriveCommand>, out: &mut Vec<Vec<u8>>) -> (calls:
        Ghost<Calls>)
        requires
            old(self)@.wf(),
        ensures
            final(self)@.wf(),
            final(self)@ == issued(old(self)@, model::views(commands@)).0,
            model::views(final(out)@) == model::views(old(out)@) + issued(
                old(self)@,
                model::views(commands@),
            ).1,
            turned_away(refused(old(self)@, model::views(commands@)), calls@, u64::MAX as nat),
            exists|cs: Seq<&mut dyn DriveConsumer>| #[trigger]
                trace::ran(old(self).served(), cs, calls@, final(self).served()) && forall|i: int|
                    0 <= i < cs.len() ==> &*final(#[trigger] cs[i]) == trace::at(
                        cs,
                        i + 1,
                        final(self).served(),
                    ),
    {
        let mut queue: VecDeque<DriveCommand> = self.issue_commands(commands, out);
        // A consumer that never stops asking for more is not served for ever.
        let mut budget: u64 = u64::MAX;
        let ghost end = self@;
        let ghost all = model::views(queue@);
        let ghost mut calls: Calls = seq![];
        proof {
            trace::lemma_ran_none::<dyn DriveConsumer, (Told, Vec<DriveCommand>)>(
                self.served(),
            );
            assert forall|rest: Calls|
                turned_away(all, #[trigger] (calls + rest), u64::MAX as nat) == turned_away(
                    model::views(queue@),
                    rest,
                    budget as nat,
                ) by {
                assert(calls + rest =~= rest);
            }
        }
        while queue.len() > 0 && budget > 0
            invariant
                self@ == end,
                forall|rest: Calls|
                    turned_away(all, #[trigger] (calls + rest), u64::MAX as nat) == turned_away(
                        model::views(queue@),
                        rest,
                        budget as nat,
                    ),
                exists|cs: Seq<&mut dyn DriveConsumer>| #[trigger]
                    trace::ran(old(self).served(), cs, calls, self.served()) && forall|i: int|
                        0 <= i < cs.len() ==> &*final(#[trigger] cs[i]) == trace::at(
                            cs,
                            i + 1,
                            self.served(),
                        ),
            decreases budget,
        {
            let ghost had = model::views(queue@);
            let ghost before = self.served();
            let ghost so_far = calls;
            budget = budget - 1;
            if let Some(command) = queue.pop_front() {
                let call: ConsumerCall = failure_call(&command, pdu::STATUS_UNSUCCESSFUL);
                let ghost told = Told::End(call);
                let follow_up: Vec<DriveCommand> = self.tell(call);
                let ghost answer = follow_up;
                let ghost kept = queue@;
                let mut more: VecDeque<DriveCommand> = queued(follow_up);
                proof {
                    model::lemma_views_add(queue@, more@);
                }
                queue.append(&mut more);
                proof {
                    let one = seq![(told, answer)];
                    trace::lemma_ran_add(old(self).served(), so_far, before, one, self.served());
                    calls = so_far + one;
                    assert(had.skip(1) =~= model::views(kept));
                    assert forall|rest: Calls|
                        turned_away(all, #[trigger] (calls + rest), u64::MAX as nat)
                            == turned_away(model::views(queue@), rest, budget as nat) by {
                        assert(calls + rest =~= so_far + (one + rest));
                        assert((one + rest).skip(1) =~= rest);
                        assert((one + rest)[0] == (told, answer));
                    }
                }
            }
        }
        proof {
            assert(calls + Seq::<(Told, Vec<DriveCommand>)>::empty() =~= calls);
        }
        Ghost(calls)
    }

    /// Issues requests as [`RdpdrChannel::issue_commands`] does. The consumer is
    /// told that the others failed, and that whatever it then wants instead failed
    /// too.
    pub fn encode_commands(&mut self, commands: Vec<DriveCommand>, out: &mut Vec<Vec<u8>>)
        requires
            old(self)@.wf(),
        ensures
            final(self)@.wf(),
            final(self)@ == issued(old(self)@, model::views(commands@)).0,
            model::views(final(out)@) == model::views(old(out)@) + issued(
                old(self)@,
                model::views(commands@),
            ).1,
            exists|calls: Calls, cs: Seq<&mut dyn DriveConsumer>| #[trigger]
                trace::ran(old(self).served(), cs, calls, final(self).served()) && (forall|i: int|
                    0 <= i < cs.len() ==> &*final(#[trigger] cs[i]) == trace::at(
                        cs,
                        i + 1,
                        final(self).served(),
                    )) && turned_away(
                    refused(old(self)@, model::views(commands@)),
                    calls,
                    u64::MAX as nat,
                ),
    {
        self.run_commands(commands, out);
    }

    /// Issues what the consumer wants of its own.
    pub fn flush_pending_commands(&mut self) -> (frames: Vec<Vec<u8>>)
        requires
            old(self)@.wf(),
        ensures
            final(self)@.wf(),
            exists|calls: Calls, cs: Seq<&mut dyn DriveConsumer>, answer: Seq<DriveCommandView>|
                #[trigger]
                trace::ran(old(self).served(), cs, calls, final(self).served()) && (forall|i: int|
                    0 <= i < cs.len() ==> &*final(#[trigger] cs[i]) == trace::at(
                        cs,
                        i + 1,
                        final(self).served(),
                    )) && heard(old(self)@, ToldView::Poll, answer, calls) && (
                    final(self)@,
                    model::views(frames@),
                ) == #[trigger] issued(old(self)@, answer),
    {
        let mut out: Vec<Vec<u8>> = Vec::new();
        let commands: Vec<DriveCommand> = ask(&mut *self.consumer.value);
        let ghost answered = commands;
        let ghost wanted = model::views(commands@);
        let ghost s = self@;
        let ghost asked = self.served();
        proof {
            lemma_polled(old(self).served(), answered, asked);
        }
        let Ghost(more) = self.run_commands(commands, &mut out);
        proof {
            let one = seq![(Told::Poll, answered)];
            trace::lemma_ran_add(old(self).served(), one, asked, more, self.served());
            lemma_heard(s, Told::Poll, answered, more);
            assert(model::views(out@) =~= issued(s, wanted).1);
        }
        out
    }

    /// Takes an announced device in, or not, and gives the packets that say
    /// which.
    pub fn accept_device(&mut self, device: &pdu::DeviceAnnounce) -> (r: (bool, Vec<Vec<u8>>))
        requires
            old(self)@.wf(),
        ensures
            final(self)@.wf(),
            r.0 == accepts(old(self)@, device@),
            (final(self)@, model::views(r.1@)) == accepted_one(old(self)@, device@),
            final(self).served() == old(self).served(),
    {
        let at_capacity: bool = !self.devices.contains_key(&device.device_id) && self.devices.len()
            >= MAX_DEVICES;
        proof {
            lemma_named_len(self.devices@);
        }
        if self.supported & device.device_type != 0 && !at_capacity {
            let ghost had = self.devices@;
            self.devices.insert(
                device.device_id,
                (device.device_type, device.preferred_dos_name.clone()),
            );
            assert(named(self.devices@) =~= named(had).insert(
                device.device_id,
                (device.device_type, device.preferred_dos_name@),
            ));
            (true, self.wrap(pdu::encode_device_reply(device.device_id, pdu::STATUS_SUCCESS)))
        } else {
            (false, self.wrap(pdu::encode_device_reply(device.device_id, pdu::STATUS_UNSUCCESSFUL)))
        }
    }

    /// Takes the devices out, and gives the requests that waited for one of
    /// them: their ends will never come.
    pub fn withdraw_devices(&mut self, device_ids: &[u32]) -> (order: Vec<u32>)
        requires
            old(self)@.wf(),
        ensures
            final(self)@.wf(),
            final(self)@ == withdrawn(old(self)@, device_ids@),
            order@.no_duplicates(),
            order@.to_set() == stale(old(self)@, device_ids@),
            final(self).served() == old(self).served(),
    {
        let ghost had = self.devices@;
        let n: usize = device_ids.len();
        let mut i: usize = 0;
        assert(named(had).remove_keys(device_ids@.take(0).to_set()) =~= named(had));
        while i < n
            invariant
                i <= n,
                n == device_ids@.len(),
                self@.wf(),
                self@ == withdrawn(old(self)@, device_ids@.take(i as int)),
                self.served() == old(self).served(),
                named(had) == old(self)@.devices,
                self.pending@ == old(self)@.pending,
            decreases n - i,
        {
            let ghost now = self.devices@;
            self.devices.remove(&device_ids[i]);
            proof {
                let some = device_ids@.take(i as int);
                let more = device_ids@.take(i + 1);
                let id = device_ids@[i as int];
                assert(named(self.devices@) =~= named(now).remove(id));
                assert forall|k: u32| more.contains(k) == (some.contains(k) || k == id) by {
                    if some.contains(k) {
                        let j = some.index_of(k);
                        assert(more[j] == k);
                    }
                    if more.contains(k) {
                        let j = more.index_of(k);
                        if j < i {
                            assert(some[j] == k);
                        }
                    }
                    assert(more[i as int] == id);
                }
                assert(named(self.devices@) =~= named(had).remove_keys(more.to_set()));
            }
            i = i + 1;
        }
        assert(device_ids@.take(n as int) =~= device_ids@);
        let ghost ids = device_ids@;
        let ghost waiting = self.pending@;
        let mut order: Vec<u32> = Vec::new();
        for id in iter: self.pending.keys()
            invariant
                waiting == self.pending@,
                ids == device_ids@,
                iter.seq().no_duplicates(),
                iter.seq().unref().to_set() == waiting.dom(),
                order@.no_duplicates(),
                forall|k: u32|
                    #![trigger order@.contains(k)]
                    order@.contains(k) <==> waiting.contains_key(k) && ids.contains(
                        waiting[k].device_id,
                    ) && exists|j: int| 0 <= j < iter.index() && *#[trigger] iter.seq()[j] == k,
        {
            let ghost at = iter.index();
            let ghost had = order@;
            proof {
                assert(iter.seq().unref()[at] == *id);
                assert(iter.seq().unref().to_set().contains(*id));
            }
            let op: PendingOp = match self.pending.get(id) {
                Some(op) => *op,
                None => {
                    assert(false);
                    PendingOp { device_id: 0, major_function: 0, request_tag: 0 }
                },
            };
            if lists(device_ids, op.device_id) {
                order.push(*id);
                proof {
                    if had.contains(*id) {
                        let j = choose|j: int| 0 <= j < at && *#[trigger] iter.seq()[j] == *id;
                        assert(iter.seq()[j] == iter.seq()[at]);
                    }
                    assert(order@[had.len() as int] == *id);
                    assert forall|k: u32| had.contains(k) implies #[trigger] order@.contains(k) by {
                        let j = had.index_of(k);
                        assert(order@[j] == k);
                    }
                }
            }
            proof {
                assert forall|k: u32|
                    #![trigger order@.contains(k)]
                    order@.contains(k) <==> waiting.contains_key(k) && ids.contains(
                        waiting[k].device_id,
                    ) && exists|j: int| 0 <= j < at + 1 && *#[trigger] iter.seq()[j] == k by {
                    if order@.contains(k) {
                        let j = order@.index_of(k);
                        if j < had.len() {
                            assert(had[j] == k);
                            assert(had.contains(k));
                        } else {
                            assert(*iter.seq()[at] == k);
                        }
                    }
                    if waiting.contains_key(k) && ids.contains(waiting[k].device_id) && exists|
                        j: int,
                    |
                        0 <= j < at + 1 && *#[trigger] iter.seq()[j] == k {
                        let j = choose|j: int| 0 <= j < at + 1 && *#[trigger] iter.seq()[j] == k;
                        if j < at {
                            assert(had.contains(k));
                        }
                    }
                }
            }
        }
        order
    }

    /// Takes the end of a request, and gives what it is for the consumer.
    /// Nothing waits for it, or it comes from another device: then it is dropped.
    pub fn take_completion(
        &mut self,
        device_id: u32,
        completion_id: u32,
        io_status: u32,
        body: &[u8],
    ) -> (r: Option<ConsumerCall>)
        requires
            old(self)@.wf(),
        ensures
            final(self)@.wf(),
            final(self)@ == (ChannelView {
                pending: old(self)@.pending.remove(completion_id),
                ..old(self)@
            }),
            model::opt_view(r) == (if old(self)@.pending.contains_key(completion_id)
                && old(self)@.pending[completion_id].device_id == device_id {
                call_for(old(self)@.pending[completion_id], io_status, body@)
            } else {
                None
            }),
            final(self).served() == old(self).served(),
    {
        match self.pending.remove(&completion_id) {
            Some(pending) => {
                if pending.device_id != device_id {
                    None
                } else {
                    completion_call(pending, io_status, body)
                }
            },
            None => {
                assert(self.pending@ =~= old(self).pending@);
                None
            },
        }
    }

    /// Hands the consumer the end of a request, where there is anything to say.
    fn dispatch_completion(&mut self, pending: PendingOp, io_status: u32, body: &[u8]) -> (r: (
        Vec<DriveCommand>,
        Ghost<Calls>,
    ))
        ensures
            final(self)@ == old(self)@,
            match call_for(pending, io_status, body@) {
                Some(end) => r.1@.len() == 1 && r.1@[0].0@ == ToldView::End(end) && r.1@[0].1
                    == r.0,
                None => r.1@.len() == 0 && r.0@.len() == 0,
            },
            exists|cs: Seq<&mut dyn DriveConsumer>| #[trigger]
                trace::ran(old(self).served(), cs, r.1@, final(self).served()) && forall|i: int|
                    0 <= i < cs.len() ==> &*final(#[trigger] cs[i]) == trace::at(
                        cs,
                        i + 1,
                        final(self).served(),
                    ),
    {
        let mut commands: Vec<DriveCommand> = Vec::new();
        let ghost mut calls: Calls = seq![];
        match completion_call(pending, io_status, body) {
            Some(call) => {
                let ghost told = Told::End(call);
                commands = self.tell(call);
                proof {
                    calls = seq![(told, commands)];
                }
            },
            None => {
                proof {
                    trace::lemma_ran_none::<dyn DriveConsumer, (Told, Vec<DriveCommand>)>(
                        self.served(),
                    );
                }
            },
        }
        let r: (Vec<DriveCommand>, Ghost<Calls>) = (commands, Ghost(calls));
        assert(r.1@ == calls);
        r
    }

    /// Tells the consumer of a device that was accepted, and issues what it wants
    /// next. Gives the answer, and the calls.
    fn welcome(&mut self, device: &pdu::DeviceAnnounce, out: &mut Vec<Vec<u8>>) -> (r: Ghost<
        (Seq<DriveCommandView>, Calls),
    >)
        requires
            old(self)@.wf(),
        ensures
            final(self)@.wf(),
            final(self)@ == issued(old(self)@, r@.0).0,
            model::views(final(out)@) == model::views(old(out)@) + issued(old(self)@, r@.0).1,
            heard(
                old(self)@,
                ToldView::Ready {
                    device_id: device@.device_id,
                    device_type: device@.device_type,
                    dos_name: device@.preferred_dos_name,
                },
                r@.0,
                r@.1,
            ),
            exists|cs: Seq<&mut dyn DriveConsumer>| #[trigger]
                trace::ran(old(self).served(), cs, r@.1, final(self).served()) && forall|i: int|
                    0 <= i < cs.len() ==> &*final(#[trigger] cs[i]) == trace::at(
                        cs,
                        i + 1,
                        final(self).served(),
                    ),
    {
        let dos_name: &str = device.preferred_dos_name.as_str();
        let ghost told = Told::Ready {
            device_id: device.device_id,
            device_type: device.device_type,
            dos_name: dos_name@,
        };
        let commands: Vec<DriveCommand> = introduce(
            &mut *self.consumer.value,
            device.device_id,
            device.device_type,
            dos_name,
        );
        let ghost answered = commands;
        let ghost s = self@;
        let ghost asked = self.served();
        proof {
            lemma_introduced(
                old(self).served(),
                device.device_id,
                device.device_type,
                dos_name,
                answered,
                asked,
            );
        }
        let Ghost(more) = self.run_commands(commands, out);
        let ghost calls = seq![(told, answered)] + more;
        proof {
            trace::lemma_ran_add(
                old(self).served(),
                seq![(told, answered)],
                asked,
                more,
                self.served(),
            );
            lemma_heard(s, told, answered, more);
        }
        Ghost((model::views(answered@), calls))
    }

    fn on_device_list_announce(&mut self, devices: Vec<pdu::DeviceAnnounce>) -> (r: (
        Vec<Vec<u8>>,
        Ghost<(Seq<Seq<DriveCommandView>>, Seq<Calls>)>,
    ))
        requires
            old(self)@.wf(),
        ensures
            final(self)@.wf(),
            ({
                let (answers, calls) = r.1@;
                &&& answers.len() == devices@.len()
                &&& (final(self)@, model::views(r.0@)) == announced(
                    old(self)@,
                    model::views(devices@),
                    answers,
                )
                &&& heard_of(
                    old(self)@,
                    pdu::ClientMessageView::DeviceListAnnounce(model::views(devices@)),
                    seq![],
                    answers,
                    calls,
                )
            }),
            exists|cs: Seq<&mut dyn DriveConsumer>| #[trigger]
                trace::ran(
                    old(self).served(),
                    cs,
                    r.1@.1.flatten(),
                    final(self).served(),
                ) && forall|
                    i: int,
                |
                    0 <= i < cs.len() ==> &*final(#[trigger] cs[i]) == trace::at(
                        cs,
                        i + 1,
                        final(self).served(),
                    ),
    {
        let mut out: Vec<Vec<u8>> = Vec::new();
        let ghost start = self@;
        let ghost all = model::views(devices@);
        let ghost mut answers: Seq<Seq<DriveCommandView>> = seq![];
        let ghost mut calls: Seq<Calls> = seq![];
        let n: usize = devices.len();
        let mut i: usize = 0;
        proof {
            assert(model::views(out@) =~= seq![]);
            assert(calls.flatten() =~= seq![]);
            trace::lemma_ran_none::<dyn DriveConsumer, (Told, Vec<DriveCommand>)>(
                self.served(),
            );
        }
        while i < n
            invariant
                i <= n,
                n == devices@.len(),
                all == model::views(devices@),
                self@.wf(),
                answers.len() == i,
                calls.len() == i,
                (self@, model::views(out@)) == announced(start, all.take(i as int), answers),
                forall|k: int|
                    0 <= k < i ==> heard_device(
                        announced(start, all.take(k), answers.take(k)).0,
                        all[k],
                        answers[k],
                        #[trigger] calls[k],
                    ),
                exists|cs: Seq<&mut dyn DriveConsumer>| #[trigger]
                    trace::ran(
                        old(self).served(),
                        cs,
                        calls.flatten(),
                        self.served(),
                    ) && forall|i: int|
                        0 <= i < cs.len() ==> &*final(#[trigger] cs[i]) == trace::at(
                            cs,
                            i + 1,
                            self.served(),
                        ),
            decreases n - i,
        {
            let ghost had = model::views(out@);
            let ghost given = answers;
            let ghost made = calls;
            let ghost before = self.served();
            let device: &pdu::DeviceAnnounce = &devices[i];
            let (accepted, mut reply) = self.accept_device(device);
            let ghost said = model::views(reply@);
            proof {
                model::lemma_views_add(out@, reply@);
            }
            out.append(&mut reply);
            let ghost mut answer: Seq<DriveCommandView> = seq![];
            let ghost mut heard_now: Calls = seq![];
            let ghost known = self@;
            if accepted {
                let Ghost(welcomed) = self.welcome(device, &mut out);
                proof {
                    answer = welcomed.0;
                    heard_now = welcomed.1;
                    assert(model::views(out@) =~= had + (said + issued(known, answer).1));
                }
            } else {
                proof {
                    trace::lemma_ran_none::<dyn DriveConsumer, (Told, Vec<DriveCommand>)>(
                        self.served(),
                    );
                }
            }
            proof {
                answers = given.push(answer);
                calls = made.push(heard_now);
                assert(answers.drop_last() =~= given);
                assert(all.take(i + 1).drop_last() =~= all.take(i as int));
                assert(all.take(i + 1).last() == device@);
                assert((self@, model::views(out@)) == announced(start, all.take(i + 1), answers));
                made.lemma_flatten_push(heard_now);
                trace::lemma_ran_add(
                    old(self).served(),
                    made.flatten(),
                    before,
                    heard_now,
                    self.served(),
                );
                assert forall|k: int| 0 <= k < i + 1 implies heard_device(
                    announced(start, all.take(k), answers.take(k)).0,
                    all[k],
                    answers[k],
                    #[trigger] calls[k],
                ) by {
                    if k < i {
                        assert(calls[k] == made[k]);
                        assert(answers.take(k) =~= given.take(k));
                    } else {
                        assert(answers.take(k) =~= given);
                    }
                }
            }
            i = i + 1;
        }
        assert(all.take(n as int) =~= all);
        let r: (Vec<Vec<u8>>, Ghost<(Seq<Seq<DriveCommandView>>, Seq<Calls>)>) = (
            out,
            Ghost((answers, calls)),
        );
        assert(r.1@.1 == calls);
        r
    }

    fn on_device_list_remove(&mut self, device_ids: &[u32]) -> (r: (
        Vec<Vec<u8>>,
        Ghost<(Seq<u32>, Seq<Seq<DriveCommandView>>, Seq<Calls>)>,
    ))
        requires
            old(self)@.wf(),
        ensures
            final(self)@.wf(),
            ({
                let (order, answers, calls) = r.1@;
                &&& order.no_duplicates()
                &&& order.to_set() == stale(old(self)@, device_ids@)
                &&& answers.len() == order.len()
                &&& (final(self)@, model::views(r.0@)) == ended(
                    withdrawn(old(self)@, device_ids@),
                    order,
                    answers,
                )
                &&& heard_of(
                    old(self)@,
                    pdu::ClientMessageView::DeviceListRemove(device_ids@),
                    order,
                    answers,
                    calls,
                )
            }),
            exists|cs: Seq<&mut dyn DriveConsumer>| #[trigger]
                trace::ran(
                    old(self).served(),
                    cs,
                    r.1@.2.flatten(),
                    final(self).served(),
                ) && forall|
                    i: int,
                |
                    0 <= i < cs.len() ==> &*final(#[trigger] cs[i]) == trace::at(
                        cs,
                        i + 1,
                        final(self).served(),
                    ),
    {
        let mut out: Vec<Vec<u8>> = Vec::new();
        let order: Vec<u32> = self.withdraw_devices(device_ids);
        let ghost start = self@;
        let ghost mut answers: Seq<Seq<DriveCommandView>> = seq![];
        let ghost mut calls: Seq<Calls> = seq![];
        let n: usize = order.len();
        let mut i: usize = 0;
        proof {
            assert(model::views(out@) =~= seq![]);
            assert(calls.flatten() =~= seq![]);
            trace::lemma_ran_none::<dyn DriveConsumer, (Told, Vec<DriveCommand>)>(
                self.served(),
            );
        }
        while i < n
            invariant
                i <= n,
                n == order@.len(),
                self@.wf(),
                answers.len() == i,
                calls.len() == i,
                (self@, model::views(out@)) == ended(start, order@.take(i as int), answers),
                forall|k: int|
                    0 <= k < i ==> heard_end(
                        ended(start, order@.take(k), answers.take(k)).0,
                        order@[k],
                        pdu::STATUS_UNSUCCESSFUL,
                        seq![],
                        answers[k],
                        #[trigger] calls[k],
                    ),
                exists|cs: Seq<&mut dyn DriveConsumer>| #[trigger]
                    trace::ran(
                        old(self).served(),
                        cs,
                        calls.flatten(),
                        self.served(),
                    ) && forall|i: int|
                        0 <= i < cs.len() ==> &*final(#[trigger] cs[i]) == trace::at(
                            cs,
                            i + 1,
                            self.served(),
                        ),
            decreases n - i,
        {
            let ghost s = self@;
            let ghost had = model::views(out@);
            let ghost given = answers;
            let ghost made = calls;
            let ghost before = self.served();
            let ghost mut answer: Seq<DriveCommandView> = seq![];
            let ghost mut heard_now: Calls = seq![];
            let completion_id: u32 = order[i];
            if let Some(pending) = self.pending.remove(&completion_id) {
                let empty: Vec<u8> = Vec::new();
                let ghost left = self@;
                assert(empty@ =~= seq![]);
                let Ghost(ended_now) = self.end(
                    pending,
                    pdu::STATUS_UNSUCCESSFUL,
                    empty.as_slice(),
                    &mut out,
                );
                proof {
                    answer = ended_now.0;
                    heard_now = ended_now.1;
                    assert((self@, model::views(out@)) == (
                        issued(left, answer).0,
                        had + issued(left, answer).1,
                    ));
                }
            } else {
                proof {
                    assert(self.pending@ =~= s.pending);
                    assert(had + Seq::<Seq<u8>>::empty() =~= had);
                    trace::lemma_ran_none::<dyn DriveConsumer, (Told, Vec<DriveCommand>)>(
                        self.served(),
                    );
                }
            }
            proof {
                answers = given.push(answer);
                calls = made.push(heard_now);
                assert(answers.drop_last() =~= given);
                assert(order@.take(i + 1).drop_last() =~= order@.take(i as int));
                assert(order@.take(i + 1).last() == completion_id);
                assert((self@, model::views(out@)) == ended(start, order@.take(i + 1), answers));
                made.lemma_flatten_push(heard_now);
                trace::lemma_ran_add(
                    old(self).served(),
                    made.flatten(),
                    before,
                    heard_now,
                    self.served(),
                );
                assert forall|k: int| 0 <= k < i + 1 implies heard_end(
                    ended(start, order@.take(k), answers.take(k)).0,
                    order@[k],
                    pdu::STATUS_UNSUCCESSFUL,
                    seq![],
                    answers[k],
                    #[trigger] calls[k],
                ) by {
                    if k < i {
                        assert(calls[k] == made[k]);
                        assert(answers.take(k) =~= given.take(k));
                    } else {
                        assert(answers.take(k) =~= given);
                    }
                }
            }
            i = i + 1;
        }
        assert(order@.take(n as int) =~= order@);
        let r: (Vec<Vec<u8>>, Ghost<(Seq<u32>, Seq<Seq<DriveCommandView>>, Seq<Calls>)>) = (
            out,
            Ghost((order@, answers, calls)),
        );
        assert(r.1@.2 == calls);
        r
    }

    /// Hands the consumer the end of a request, where there is anything to say, and
    /// issues what it wants next. Gives the answer, and the calls.
    fn end(
        &mut self,
        pending: PendingOp,
        io_status: u32,
        body: &[u8],
        out: &mut Vec<Vec<u8>>,
    ) -> (r: Ghost<(Seq<DriveCommandView>, Calls)>)
        requires
            old(self)@.wf(),
        ensures
            final(self)@.wf(),
            final(self)@ == issued(old(self)@, r@.0).0,
            model::views(final(out)@) == model::views(old(out)@) + issued(old(self)@, r@.0).1,
            match call_for(pending, io_status, body@) {
                Some(end) => heard(old(self)@, ToldView::End(end), r@.0, r@.1),
                None => r@.0.len() == 0 && r@.1.len() == 0,
            },
            exists|cs: Seq<&mut dyn DriveConsumer>| #[trigger]
                trace::ran(old(self).served(), cs, r@.1, final(self).served()) && forall|i: int|
                    0 <= i < cs.len() ==> &*final(#[trigger] cs[i]) == trace::at(
                        cs,
                        i + 1,
                        final(self).served(),
                    ),
    {
        let (commands, Ghost(first)) = self.dispatch_completion(pending, io_status, body);
        let ghost answered = commands;
        let ghost s = self@;
        let ghost asked = self.served();
        let Ghost(more) = self.run_commands(commands, out);
        let ghost calls = first + more;
        proof {
            trace::lemma_ran_add(old(self).served(), first, asked, more, self.served());
            if call_for(pending, io_status, body@) is Some {
                lemma_heard(s, first[0].0, answered, more);
                assert(first =~= seq![(first[0].0, answered)]);
            } else {
                assert(calls =~= seq![]);
            }
        }
        Ghost((model::views(answered@), calls))
    }

    fn on_device_io_completion(
        &mut self,
        device_id: u32,
        completion_id: u32,
        io_status: u32,
        body: &[u8],
    ) -> (r: (Vec<Vec<u8>>, Ghost<(Seq<DriveCommandView>, Calls)>))
        requires
            old(self)@.wf(),
        ensures
            final(self)@.wf(),
            ({
                let m = pdu::ClientMessageView::DeviceIoCompletion {
                    device_id,
                    completion_id,
                    io_status,
                    body: body@,
                };
                let (answer, calls) = r.1@;
                &&& (final(self)@, model::views(r.0@)) == handled(
                    old(self)@,
                    m,
                    seq![],
                    seq![answer],
                )
                &&& heard_of(old(self)@, m, seq![], seq![answer], seq![calls])
            }),
            exists|cs: Seq<&mut dyn DriveConsumer>| #[trigger]
                trace::ran(old(self).served(), cs, r.1@.1, final(self).served()) && forall|i: int|
                    0 <= i < cs.len() ==> &*final(#[trigger] cs[i]) == trace::at(
                        cs,
                        i + 1,
                        final(self).served(),
                    ),
    {
        let ghost s = self@;
        let mut out: Vec<Vec<u8>> = Vec::new();
        assert(model::views(out@) =~= seq![]);
        let taken: Option<ConsumerCall> = self.take_completion(
            device_id,
            completion_id,
            io_status,
            body,
        );
        let call: ConsumerCall = match taken {
            Some(call) => call,
            None => {
                let ghost told: (Seq<DriveCommandView>, Calls) = (seq![], seq![]);
                proof {
                    assert(!s.pending.contains_key(completion_id) ==> s.pending.remove(
                        completion_id,
                    ) =~= s.pending);
                    trace::lemma_ran_none::<dyn DriveConsumer, (Told, Vec<DriveCommand>)>(
                        self.served(),
                    );
                }
                let r: (Vec<Vec<u8>>, Ghost<(Seq<DriveCommandView>, Calls)>) = (out, Ghost(told));
                assert(r.1@ == told);
                return r;
            },
        };
        let ghost first = Told::End(call);
        let ghost left = self@;
        let commands: Vec<DriveCommand> = self.tell(call);
        let ghost answered = commands;
        let ghost asked = self.served();
        let Ghost(more) = self.run_commands(commands, &mut out);
        let ghost told: (Seq<DriveCommandView>, Calls) = (
            model::views(answered@),
            seq![(first, answered)] + more,
        );
        proof {
            trace::lemma_ran_add(
                old(self).served(),
                seq![(first, answered)],
                asked,
                more,
                self.served(),
            );
            lemma_heard(left, first, answered, more);
            assert(model::views(out@) =~= issued(left, told.0).1);
        }
        let r: (Vec<Vec<u8>>, Ghost<(Seq<DriveCommandView>, Calls)>) = (out, Ghost(told));
        assert(r.1@ == told);
        r
    }

    /// Does what a message asks for. Gives the message, the order in which requests
    /// ended, the answers of the consumer, and the calls.
    fn on_message(&mut self, decoded: pdu::ClientMessage) -> (r: (
        Vec<Vec<u8>>,
        Ghost<(pdu::ClientMessageView, Seq<u32>, Seq<Seq<DriveCommandView>>, Seq<Calls>)>,
    ))
        requires
            old(self)@.wf(),
        ensures
            final(self)@.wf(),
            ({
                let (m, order, answers, calls) = r.1@;
                &&& m == decoded@
                &&& belongs(old(self)@, m, order, answers)
                &&& (final(self)@, model::views(r.0@)) == handled(old(self)@, m, order, answers)
                &&& heard_of(old(self)@, m, order, answers, calls)
            }),
            exists|cs: Seq<&mut dyn DriveConsumer>| #[trigger]
                trace::ran(
                    old(self).served(),
                    cs,
                    r.1@.3.flatten(),
                    final(self).served(),
                ) && forall|
                    i: int,
                |
                    0 <= i < cs.len() ==> &*final(#[trigger] cs[i]) == trace::at(
                        cs,
                        i + 1,
                        final(self).served(),
                    ),
    {
        let ghost s = self@;
        let ghost m = decoded@;
        let mut out: Vec<Vec<u8>> = Vec::new();
        let ghost mut order: Seq<u32> = seq![];
        let ghost mut answers: Seq<Seq<DriveCommandView>> = seq![];
        let ghost mut calls: Seq<Calls> = seq![];
        proof {
            assert(model::views(out@) =~= seq![]);
            assert(calls.flatten() =~= seq![]);
            trace::lemma_ran_none::<dyn DriveConsumer, (Told, Vec<DriveCommand>)>(
                self.served(),
            );
        }
        match decoded {
            pdu::ClientMessage::AnnounceReply => {},
            pdu::ClientMessage::UserLoggedOn => {},
            pdu::ClientMessage::Other => {},
            pdu::ClientMessage::ClientName => {
                out = self.wrap(pdu::encode_server_capability_request(self.supported));
                let mut confirm: Vec<Vec<u8>> = self.wrap(pdu::encode_client_id_confirm(CLIENT_ID));
                proof {
                    model::lemma_views_add(out@, confirm@);
                }
                out.append(&mut confirm);
            },
            pdu::ClientMessage::ClientCapability => {
                out = self.wrap(pdu::encode_user_logged_on());
            },
            pdu::ClientMessage::DeviceListAnnounce(devices) => {
                let (frames, Ghost(told)) = self.on_device_list_announce(devices);
                out = frames;
                proof {
                    answers = told.0;
                    calls = told.1;
                }
            },
            pdu::ClientMessage::DeviceListRemove(device_ids) => {
                let (frames, Ghost(told)) = self.on_device_list_remove(device_ids.as_slice());
                out = frames;
                proof {
                    order = told.0;
                    answers = told.1;
                    calls = told.2;
                }
            },
            pdu::ClientMessage::DeviceIoCompletion { device_id, completion_id, io_status, body } =>
            {
                let (frames, Ghost(told)) = self.on_device_io_completion(
                    device_id,
                    completion_id,
                    io_status,
                    body.as_slice(),
                );
                out = frames;
                proof {
                    answers = seq![told.0];
                    calls = seq![told.1];
                    calls.lemma_flatten_one_element();
                }
            },
        }
        proof {
            assert(belongs(s, m, order, answers));
            assert(heard_of(s, m, order, answers, calls));
            assert((self@, model::views(out@)) == handled(s, m, order, answers));
        }
        let ghost told = (m, order, answers, calls);
        let r: (
            Vec<Vec<u8>>,
            Ghost<
                (pdu::ClientMessageView, Seq<u32>, Seq<Seq<DriveCommandView>>, Seq<Calls>),
            >,
        ) = (out, Ghost(told));
        assert(r.1@ == told);
        assert(r.1@.3 == calls);
        r
    }

    /// Takes one chunk of the channel, its header included. The consumer is told
    /// of what it brings, and of nothing else; the packets that come back answer it
    /// and carry what the consumer wants next.
    pub fn on_channel_data(&mut self, payload: &[u8]) -> (r: Result<Vec<Vec<u8>>, DecodeError>)
        requires
            old(self)@.wf(),
        ensures
            final(self)@.wf(),
            ({
                let s = ChannelView {
                    held: received(old(self)@.held, payload@).0,
                    ..old(self)@
                };
                match received(old(self)@.held, payload@).1 {
                    Err(e) => {
                        &&& r == Err::<Vec<Vec<u8>>, DecodeError>(e)
                        &&& final(self)@ == s
                        &&& final(self).served() == old(self).served()
                    },
                    Ok(None) => {
                        &&& r is Ok
                        &&& r->Ok_0@.len() == 0
                        &&& final(self)@ == s
                        &&& final(self).served() == old(self).served()
                    },
                    Ok(Some(m)) => {
                        &&& r is Ok
                        &&& exists|
                            order: Seq<u32>,
                            answers: Seq<Seq<DriveCommandView>>,
                            calls: Seq<Calls>,
                        |
                            belongs(s, m, order, answers) && (final(self)@, model::views(r->Ok_0@))
                                == handled(s, m, order, answers) && #[trigger] heard_of(
                                s,
                                m,
                                order,
                                answers,
                                calls,
                            ) && exists|cs: Seq<&mut dyn DriveConsumer>| #[trigger]
                                trace::ran(
                                    old(self).served(),
                                    cs,
                                    calls.flatten(),
                                    final(self).served(),
                                ) && forall|i: int|
                                    0 <= i < cs.len() ==> &*final(#[trigger] cs[i]) == trace::at(
                                        cs,
                                        i + 1,
                                        final(self).served(),
                                    )
                    },
                }
            }),
    {
        let message: Vec<u8> = match svc::reassemble(
            &mut self.incoming_buffer,
            payload,
            MAX_RDPDR_MESSAGE_SIZE,
            "rdpdr.incoming_buffer",
        )? {
            Some(message) => message,
            None => {
                return Ok(Vec::new());
            },
        };
        let ghost s = self@;
        let decoded: pdu::ClientMessage = pdu::decode_client_message(message.as_slice())?;
        assert(self.served() == old(self).served());
        let (out, Ghost(told)) = self.on_message(decoded);
        assert(heard_of(s, told.0, told.1, told.2, told.3));
        Ok(out)
    }
}

proof fn lemma_named_len(devices: Map<u32, (u32, String)>)
    requires
        devices.dom().finite(),
    ensures
        named(devices).dom() == devices.dom(),
        named(devices).len() == devices.len(),
{
    assert(named(devices).dom() =~= devices.dom());
}

/// Issuing requests never leaves more of them waiting than there may be, and
/// changes nothing else but the number of the next one.
pub proof fn law_issued(s: ChannelView, commands: Seq<DriveCommandView>)
    requires
        s.wf(),
    ensures
        issued(s, commands).0.wf(),
        issued(s, commands).0 == (ChannelView {
            next: issued(s, commands).0.next,
            pending: issued(s, commands).0.pending,
            ..s
        }),
    decreases commands.len(),
{
    if commands.len() > 0 && s.pending.len() < MAX_PENDING_OPS {
        law_issued(issued_one(s, commands[0]).0, commands.skip(1));
    }
}

/// Where there is no room, nothing is issued.
pub proof fn law_no_room(s: ChannelView, commands: Seq<DriveCommandView>)
    requires
        s.pending.len() >= MAX_PENDING_OPS,
    ensures
        issued(s, commands) == (s, Seq::<Seq<u8>>::empty()),
        refused(s, commands) == commands,
{
}

/// Where there is room for all of them, every request is issued: one number
/// goes to each.
pub proof fn law_room(s: ChannelView, commands: Seq<DriveCommandView>)
    requires
        s.wf(),
        s.pending.len() + commands.len() <= MAX_PENDING_OPS,
    ensures
        issued(s, commands).0.next == bytes::low32(s.next + commands.len()),
        refused(s, commands).len() == 0,
    decreases commands.len(),
{
    if commands.len() > 0 {
        law_room(issued_one(s, commands[0]).0, commands.skip(1));
    }
}

proof fn lemma_announced_wf(
    s: ChannelView,
    devices: Seq<pdu::DeviceAnnounceView>,
    answers: Seq<Seq<DriveCommandView>>,
)
    requires
        s.wf(),
        answers.len() == devices.len(),
    ensures
        announced(s, devices, answers).0.wf(),
    decreases devices.len(),
{
    if devices.len() > 0 {
        lemma_announced_wf(s, devices.drop_last(), answers.drop_last());
        let before = announced(s, devices.drop_last(), answers.drop_last()).0;
        let known = accepted_one(before, devices.last()).0;
        assert(known.wf());
        law_issued(known, answers.last());
    }
}

proof fn lemma_ended_wf(s: ChannelView, order: Seq<u32>, answers: Seq<Seq<DriveCommandView>>)
    requires
        s.wf(),
        answers.len() == order.len(),
    ensures
        ended(s, order, answers).0.wf(),
    decreases order.len(),
{
    if order.len() > 0 {
        lemma_ended_wf(s, order.drop_last(), answers.drop_last());
        let before = ended(s, order.drop_last(), answers.drop_last()).0;
        lemma_ended_one_wf(before, order.last(), answers.last());
    }
}

proof fn lemma_ended_one_wf(s: ChannelView, id: u32, answer: Seq<DriveCommandView>)
    requires
        s.wf(),
    ensures
        ended_one(s, id, answer).0.wf(),
{
    let left = ChannelView { pending: s.pending.remove(id), ..s };
    assert(left.wf());
    law_issued(left, answer);
}

/// Whatever a client sends and whatever the consumer answers, there are never
/// more devices, nor more requests waiting, than there may be.
pub proof fn law_handled_wf(
    s: ChannelView,
    message: pdu::ClientMessageView,
    order: Seq<u32>,
    answers: Seq<Seq<DriveCommandView>>,
)
    requires
        s.wf(),
        belongs(s, message, order, answers),
    ensures
        handled(s, message, order, answers).0.wf(),
{
    match message {
        pdu::ClientMessageView::DeviceListAnnounce(devices) => {
            lemma_announced_wf(s, devices, answers);
        },
        pdu::ClientMessageView::DeviceListRemove(ids) => {
            let kept = s.devices.remove_keys(ids.to_set());
            vstd::set_lib::lemma_len_subset(kept.dom(), s.devices.dom());
            lemma_ended_wf(withdrawn(s, ids), order, answers);
        },
        pdu::ClientMessageView::DeviceIoCompletion { completion_id, .. } => {
            let left = ChannelView { pending: s.pending.remove(completion_id), ..s };
            assert(left.wf());
            lemma_ended_one_wf(s, completion_id, answers[0]);
        },
        _ => {},
    }
}

/// The tag of the request that a call is about.
pub open spec fn tag_of(call: ConsumerCallView) -> u64 {
    match call {
        ConsumerCallView::Create { request_tag, .. } => request_tag,
        ConsumerCallView::Close { request_tag, .. } => request_tag,
        ConsumerCallView::Read { request_tag, .. } => request_tag,
        ConsumerCallView::Write { request_tag, .. } => request_tag,
        ConsumerCallView::QueryDirectory { request_tag, .. } => request_tag,
        ConsumerCallView::SetInformation { request_tag, .. } => request_tag,
    }
}

/// A request that was issued waits under its number, for its device, and when
/// its end comes the consumer is told, with the tag of the request.
pub proof fn law_completion(
    s: ChannelView,
    command: DriveCommandView,
    io_status: u32,
    body: Seq<u8>,
)
    ensures
        issued_one(s, command).0.pending.contains_key(s.next),
        issued_one(s, command).0.pending[s.next].device_id == command.device_id(),
        call_for(issued_one(s, command).0.pending[s.next], io_status, body) is Some,
        tag_of(call_for(issued_one(s, command).0.pending[s.next], io_status, body)->Some_0)
            == command.request_tag(),
{
}

/// A request that failed is reported as one that was never issued, with its
/// status; the end of a listing is the one status that is no failure.
pub proof fn law_failure(command: DriveCommandView, io_status: u32, body: Seq<u8>)
    requires
        io_status != pdu::STATUS_SUCCESS,
        command is QueryDirectory ==> io_status != irp::STATUS_NO_MORE_FILES,
    ensures
        call_for(command.op(), io_status, body) == Some(failure_of(command, io_status)),
{
}

proof fn lemma_ended_quiet(s: ChannelView, order: Seq<u32>, answers: Seq<Seq<DriveCommandView>>)
    requires
        answers.len() == order.len(),
        forall|i: int| 0 <= i < answers.len() ==> (#[trigger] answers[i]).len() == 0,
    ensures
        ended(s, order, answers) == (
            ChannelView { pending: s.pending.remove_keys(order.to_set()), ..s },
            Seq::<Seq<u8>>::empty(),
        ),
    decreases order.len(),
{
    if order.len() > 0 {
        let head = order.drop_last();
        lemma_ended_quiet(s, head, answers.drop_last());
        let before = ended(s, head, answers.drop_last()).0;
        let id = order.last();
        assert(answers[answers.len() - 1].len() == 0);
        assert forall|k: u32| order.to_set().contains(k) == (head.to_set().contains(k) || k
            == id) by {
            if head.contains(k) {
                assert(order[head.index_of(k)] == k);
            }
            if order.contains(k) && k != id {
                assert(head[order.index_of(k)] == k);
            }
            assert(order[order.len() - 1] == id);
        }
        assert(before.pending.remove(id) =~= s.pending.remove_keys(order.to_set()));
        assert(Seq::<Seq<u8>>::empty() + Seq::<Seq<u8>>::empty() =~= Seq::<Seq<u8>>::empty());
    } else {
        assert(s.pending.remove_keys(order.to_set()) =~= s.pending);
    }
}

/// Devices that go away are no longer known, and no request is left waiting for
/// them, unless the consumer issues new ones.
pub proof fn law_withdrawn(
    s: ChannelView,
    ids: Seq<u32>,
    order: Seq<u32>,
    answers: Seq<Seq<DriveCommandView>>,
)
    requires
        belongs(s, pdu::ClientMessageView::DeviceListRemove(ids), order, answers),
        forall|i: int| 0 <= i < answers.len() ==> (#[trigger] answers[i]).len() == 0,
    ensures
        ({
            let (after, frames) = handled(
                s,
                pdu::ClientMessageView::DeviceListRemove(ids),
                order,
                answers,
            );
            &&& frames.len() == 0
            &&& forall|id: u32| #[trigger] after.devices.contains_key(id) ==> !ids.contains(id)
            &&& forall|k: u32| #[trigger]
                after.pending.contains_key(k) <==> s.pending.contains_key(k) && !ids.contains(
                    s.pending[k].device_id,
                )
        }),
{
    lemma_ended_quiet(withdrawn(s, ids), order, answers);
}

/// No request is dropped in silence: where the consumer wants nothing instead, it
/// hears of each request for which there is no room, in order, that it failed.
pub proof fn law_turned_away(queue: Seq<DriveCommandView>, calls: Calls, budget: nat)
    requires
        turned_away(queue, calls, budget),
        queue.len() <= budget,
        forall|i: int| 0 <= i < calls.len() ==> (#[trigger] calls[i]).1@.len() == 0,
    ensures
        calls.len() == queue.len(),
        forall|i: int|
            0 <= i < calls.len() ==> (#[trigger] calls[i]).0@ == ToldView::End(
                failure_of(queue[i], pdu::STATUS_UNSUCCESSFUL),
            ),
    decreases budget,
{
    if queue.len() > 0 {
        assert(calls[0].1@.len() == 0);
        let rest = calls.skip(1);
        assert(queue.skip(1) + model::views(calls[0].1@) =~= queue.skip(1));
        assert forall|i: int| 0 <= i < rest.len() implies (#[trigger] rest[i]).1@.len() == 0 by {
            assert(rest[i] == calls[i + 1]);
        }
        law_turned_away(queue.skip(1), rest, (budget - 1) as nat);
        assert forall|i: int| 0 <= i < calls.len() implies (#[trigger] calls[i]).0@
            == ToldView::End(failure_of(queue[i], pdu::STATUS_UNSUCCESSFUL)) by {
            if i > 0 {
                assert(rest[i - 1] == calls[i]);
                assert(queue.skip(1)[i - 1] == queue[i]);
            }
        }
    }
}

/// Nobody waits for ever on a device that goes away: the consumer hears once of
/// each request that waited for it, that it failed, and of nothing else.
pub proof fn law_withdrawn_heard(
    s: ChannelView,
    ids: Seq<u32>,
    order: Seq<u32>,
    answers: Seq<Seq<DriveCommandView>>,
    calls: Seq<Calls>,
    i: int,
)
    requires
        belongs(s, pdu::ClientMessageView::DeviceListRemove(ids), order, answers),
        heard_of(s, pdu::ClientMessageView::DeviceListRemove(ids), order, answers, calls),
        forall|k: int| 0 <= k < answers.len() ==> (#[trigger] answers[k]).len() == 0,
        0 <= i < order.len(),
    ensures
        s.pending.contains_key(order[i]),
        ids.contains(s.pending[order[i]].device_id),
        match call_for(s.pending[order[i]], pdu::STATUS_UNSUCCESSFUL, seq![]) {
            Some(end) => calls[i].len() == 1 && calls[i][0].0@ == ToldView::End(end),
            None => calls[i].len() == 0,
        },
{
    let some = order.take(i);
    let id = order[i];
    assert forall|k: int| 0 <= k < answers.take(i).len() implies (#[trigger] answers.take(
        i,
    )[k]).len() == 0 by {
        assert(answers[k].len() == 0);
    }
    lemma_ended_quiet(withdrawn(s, ids), some, answers.take(i));
    assert(order.to_set().contains(id));
    assert(!some.contains(id)) by {
        if some.contains(id) {
            assert(order[some.index_of(id)] == order[i]);
        }
    }
    let now = ended(withdrawn(s, ids), some, answers.take(i)).0;
    assert(now.pending.contains_key(id) && now.pending[id] == s.pending[id]);
    assert(heard_end(now, id, pdu::STATUS_UNSUCCESSFUL, seq![], answers[i], calls[i]));
    assert(answers[i].len() == 0);
}

/// A device that was refused leaves the channel as it was; one that was
/// accepted is known by its number, type and name.
pub proof fn law_announced(
    s: ChannelView,
    device: pdu::DeviceAnnounceView,
    answer: Seq<DriveCommandView>,
)
    requires
        s.wf(),
    ensures
        accepts(s, device) ==> announced_one(s, device, answer).0.devices.contains_key(
            device.device_id,
        ) && announced_one(s, device, answer).0.devices[device.device_id] == (
            device.device_type,
            device.preferred_dos_name,
        ),
        !accepts(s, device) ==> announced_one(s, device, answer).0 == s,
{
    if accepts(s, device) {
        let known = accepted_one(s, device).0;
        assert(known.wf());
        law_issued(known, answer);
    }
}

/// Taking in the chunks of a message one after the other gives the message with
/// the last of them, leaves nothing behind, and gives nothing before.
pub proof fn law_received(data: Seq<u8>, i: int, held: Seq<u8>)
    requires
        0 <= i < svc::chunk_count(data.len() as int),
        data.len() <= MAX_RDPDR_MESSAGE_SIZE,
        i > 0 ==> held == data.subrange(0, 1600 * i),
    ensures
        received(held, svc::chunk(data, i)) == (if i < svc::chunk_count(data.len() as int) - 1 {
            (
                data.subrange(0, 1600 * (i + 1)),
                Ok::<Option<pdu::ClientMessageView>, DecodeError>(None),
            )
        } else {
            (
                Seq::<u8>::empty(),
                match pdu::parse_client_message(data) {
                    Err(e) => Err(e),
                    Ok(m) => Ok(Some(m)),
                },
            )
        }),
{
    svc::law_reassemble(
        data,
        i,
        held,
        MAX_RDPDR_MESSAGE_SIZE as int,
        "rdpdr.incoming_buffer",
    );
}

/// A request goes out with all that it was given, each at its place, and under the number
/// that its end will name. What is kept of it is its device, its tag and its kind: 0 to
/// open, 2 to close, 3 to read, 4 to write, 12 to list, and 6 to change what is known of
/// a file.
pub proof fn law_request(command: &DriveCommand, completion_id: u32, r: (PendingOp, Vec<u8>))
    requires
        call_ensures(encode_command, (command, completion_id), r),
    ensures
        match *command {
            DriveCommand::Create {
                device_id,
                path,
                desired_access,
                create_disposition,
                create_options,
                request_tag,
            } => {
                &&& r.0 == (PendingOp { device_id, major_function: 0, request_tag })
                &&& r.1@ == irp::create_wire(
                    device_id,
                    completion_id,
                    path@,
                    desired_access,
                    create_disposition,
                    create_options,
                )
            },
            DriveCommand::Close { device_id, file_id, request_tag } => {
                &&& r.0 == (PendingOp { device_id, major_function: 2, request_tag })
                &&& r.1@ == irp::close_wire(device_id, file_id, completion_id)
            },
            DriveCommand::Read { device_id, file_id, length, offset, request_tag } => {
                &&& r.0 == (PendingOp { device_id, major_function: 3, request_tag })
                &&& r.1@ == irp::read_wire(device_id, file_id, completion_id, length, offset)
            },
            DriveCommand::Write { device_id, file_id, offset, data, request_tag } => {
                &&& r.0 == (PendingOp { device_id, major_function: 4, request_tag })
                &&& r.1@ == irp::write_wire(device_id, file_id, completion_id, offset, data@)
            },
            DriveCommand::QueryDirectory { device_id, file_id, path, request_tag } => {
                &&& r.0 == (PendingOp { device_id, major_function: 12, request_tag })
                &&& path matches Some(p) ==> r.1@ == irp::query_directory_wire(
                    device_id,
                    file_id,
                    completion_id,
                    Some(p@),
                )
                &&& path is None ==> r.1@ == irp::query_directory_wire(
                    device_id,
                    file_id,
                    completion_id,
                    None,
                )
            },
            DriveCommand::SetInformation {
                device_id,
                file_id,
                fs_information_class,
                set_buffer,
                request_tag,
            } => {
                &&& r.0 == (PendingOp { device_id, major_function: 6, request_tag })
                &&& r.1@ == irp::set_information_wire(
                    device_id,
                    file_id,
                    completion_id,
                    fs_information_class,
                    set_buffer@,
                )
            },
        },
{
}

/// The end of a request is told under its tag and by its kind. Its status is 0 where it
/// succeeded: then the body counts, and one that cannot be read is the failure 1. Else it
/// failed with that status, but that 0x80000006 is the end of a listing.
pub proof fn law_end(op: PendingOp, io_status: u32, body: &[u8], r: Option<ConsumerCall>)
    requires
        call_ensures(completion_call, (op, io_status, body), r),
    ensures
        r is Some <==> op.major_function == 0 || op.major_function == 2 || op.major_function == 3
            || op.major_function == 4 || op.major_function == 6 || op.major_function == 12,
        r matches Some(call) ==> ({
            let tag = op.request_tag;
            &&& op.major_function == 0 ==> {
                &&& call@ is Create
                &&& call@->Create_request_tag == tag
                &&& call@->Create_result == (if io_status != 0 {
                    Err(io_status)
                } else {
                    match irp::parse_create_reply(body@) {
                        Ok(v) => Ok(v),
                        Err(_) => Err(1u32),
                    }
                })
            }
            &&& op.major_function == 2 ==> {
                &&& call@ is Close
                &&& call@->Close_request_tag == tag
                &&& call@->status == io_status
            }
            &&& op.major_function == 3 ==> {
                &&& call@ is Read
                &&& call@->Read_request_tag == tag
                &&& call@->Read_result == (if io_status != 0 {
                    Err(io_status)
                } else {
                    match irp::parse_read_reply(body@) {
                        Ok(v) => Ok(v),
                        Err(_) => Err(1u32),
                    }
                })
            }
            &&& op.major_function == 4 ==> {
                &&& call@ is Write
                &&& call@->Write_request_tag == tag
                &&& call@->Write_result == (if io_status != 0 {
                    Err(io_status)
                } else {
                    match irp::parse_write_reply(body@) {
                        Ok(v) => Ok(v),
                        Err(_) => Err(1u32),
                    }
                })
            }
            &&& op.major_function == 6 ==> {
                &&& call@ is SetInformation
                &&& call@->SetInformation_request_tag == tag
                &&& call@->SetInformation_result == (if io_status != 0 {
                    Err(io_status)
                } else {
                    Ok(())
                })
            }
            &&& op.major_function == 12 ==> {
                &&& call@ is QueryDirectory
                &&& call@->QueryDirectory_request_tag == tag
                &&& call@->QueryDirectory_result == (if io_status == 0x8000_0006 {
                    Ok(None)
                } else if io_status != 0 {
                    Err(io_status)
                } else {
                    match irp::parse_query_directory_reply(body@) {
                        Ok(v) => Ok(v),
                        Err(_) => Err(1u32),
                    }
                })
            }
        }),
{
}

/// A request that is not issued has failed with the status, under its tag.
pub proof fn law_not_issued(command: &DriveCommand, status: u32, r: ConsumerCall)
    requires
        call_ensures(failure_call, (command, status), r),
    ensures
        match *command {
            DriveCommand::Create { request_tag, .. } => r@ == (ConsumerCallView::Create {
                request_tag,
                result: Err(status),
            }),
            DriveCommand::Close { request_tag, .. } => r@ == (ConsumerCallView::Close {
                request_tag,
                status,
            }),
            DriveCommand::Read { request_tag, .. } => r@ == (ConsumerCallView::Read {
                request_tag,
                result: Err(status),
            }),
            DriveCommand::Write { request_tag, .. } => r@ == (ConsumerCallView::Write {
                request_tag,
                result: Err(status),
            }),
            DriveCommand::QueryDirectory { request_tag, .. } => r@ == (
            ConsumerCallView::QueryDirectory { request_tag, result: Err(status) }),
            DriveCommand::SetInformation { request_tag, .. } => r@ == (
            ConsumerCallView::SetInformation { request_tag, result: Err(status) }),
        },
{
}

/// A device is taken in where its type is one of those that are supported and fewer than
/// 256 are there, or it is. The client is told 0 then, and 0xC0000001 otherwise.
pub proof fn law_device_taken_in(
    a: &mut RdpdrChannel,
    device: &pdu::DeviceAnnounce,
    r: (bool, Vec<Vec<u8>>),
)
    requires
        call_ensures(RdpdrChannel::accept_device, (a, device), r),
    ensures
        ({
            let s = old(a)@;
            let id = device@.device_id;
            &&& r.0 <==> s.supported & device@.device_type != 0 && (s.devices.contains_key(id)
                || s.devices.len() < 256)
            &&& r.0 ==> {
                &&& final(a)@.devices == s.devices.insert(
                    id,
                    (device@.device_type, device@.preferred_dos_name),
                )
                &&& model::views(r.1@) == svc::frames(
                    s.user_channel_id,
                    s.channel_id,
                    pdu::device_reply_wire(id, 0),
                )
            }
            &&& !r.0 ==> {
                &&& final(a)@ == s
                &&& model::views(r.1@) == svc::frames(
                    s.user_channel_id,
                    s.channel_id,
                    pdu::device_reply_wire(id, 0xC000_0001),
                )
            }
            &&& final(a)@.pending == s.pending
            &&& final(a)@.next == s.next
        }),
{
}

/// The end of a request is taken once: what waited under its number waits no longer, and
/// nothing else changes. It counts only where it comes from the device of the request.
pub proof fn law_end_taken(
    a: &mut RdpdrChannel,
    device_id: u32,
    completion_id: u32,
    io_status: u32,
    body: &[u8],
    r: Option<ConsumerCall>,
)
    requires
        call_ensures(
            RdpdrChannel::take_completion,
            (a, device_id, completion_id, io_status, body),
            r,
        ),
    ensures
        !final(a)@.pending.contains_key(completion_id),
        forall|id: u32|
            id != completion_id ==> (#[trigger] final(a)@.pending.contains_key(id)
                <==> old(a)@.pending.contains_key(id)) && final(a)@.pending[id]
                == old(a)@.pending[id],
        final(a)@.devices == old(a)@.devices,
        final(a)@.next == old(a)@.next,
        r is Some ==> {
            &&& old(a)@.pending.contains_key(completion_id)
            &&& old(a)@.pending[completion_id].device_id == device_id
            &&& tag_of(r->Some_0@) == old(a)@.pending[completion_id].request_tag
        },
{
}

/// Where there is room, a request goes out under the next number, and waits under it.
/// There is room for 4096 of them.
pub proof fn law_issued_one(s: ChannelView, command: DriveCommandView, more: Seq<DriveCommandView>)
    requires
        s.wf(),
    ensures
        s.pending.len() < 4096 ==> {
            let (after, frames) = issued(s, seq![command]);
            &&& frames == svc::frames(s.user_channel_id, s.channel_id, command.wire(s.next))
            &&& after.pending == s.pending.insert(s.next, command.op())
            &&& after.next == (s.next + 1) % 0x1_0000_0000
            &&& after.devices == s.devices
        },
        s.pending.len() >= 4096 ==> issued(s, more) == (s, Seq::<Seq<u8>>::empty()) && refused(
            s,
            more,
        ) == more,
{
    reveal_with_fuel(issued, 2);
    assert(seq![command].skip(1).len() == 0);
    let (first, frames) = issued_one(s, command);
    assert(frames + Seq::<Seq<u8>>::empty() =~= frames);
    bytes::law_low_bits(s.next + 1);
}

/// The name of a client is answered with what the server can do and with the number 1,
/// and what the client can do with a message of the kind 0x554C.
pub proof fn law_greeting(s: ChannelView, order: Seq<u32>, answers: Seq<Seq<DriveCommandView>>)
    ensures
        handled(s, pdu::ClientMessageView::ClientName, order, answers) == (
            s,
            svc::frames(
                s.user_channel_id,
                s.channel_id,
                pdu::server_capability_wire(s.supported),
            ) + svc::frames(s.user_channel_id, s.channel_id, pdu::client_id_confirm_wire(1)),
        ),
        handled(s, pdu::ClientMessageView::ClientCapability, order, answers) == (
            s,
            svc::frames(s.user_channel_id, s.channel_id, pdu::header(0x554C)),
        ),
{
}

/// An end that comes from another device than the request went to is dropped with the
/// request. The requests of devices that go away are no longer waiting.
pub proof fn law_wrong_device(
    s: ChannelView,
    device_id: u32,
    completion_id: u32,
    io_status: u32,
    body: Seq<u8>,
    answers: Seq<Seq<DriveCommandView>>,
)
    requires
        s.pending.contains_key(completion_id),
        s.pending[completion_id].device_id != device_id,
    ensures
        handled(
            s,
            pdu::ClientMessageView::DeviceIoCompletion {
                device_id,
                completion_id,
                io_status,
                body,
            },
            seq![],
            answers,
        ) == (
            ChannelView { pending: s.pending.remove(completion_id), ..s },
            Seq::<Seq<u8>>::empty(),
        ),
{
}

/// A device is answered before anything that its user then wants, and the devices of a
/// list one after the other.
pub proof fn law_devices_in_order(
    s: ChannelView,
    device: pdu::DeviceAnnounceView,
    answer: Seq<DriveCommandView>,
    devices: Seq<pdu::DeviceAnnounceView>,
    answers: Seq<Seq<DriveCommandView>>,
)
    requires
        devices.len() > 0,
        answers.len() == devices.len(),
    ensures
        ({
            let reply = svc::frames(
                s.user_channel_id,
                s.channel_id,
                pdu::device_reply_wire(
                    device.device_id,
                    if accepts(s, device) {
                        0
                    } else {
                        0xC000_0001
                    },
                ),
            );
            let out = announced_one(s, device, answer).1;
            &&& out.take(reply.len() as int) == reply
            &&& !accepts(s, device) ==> out == reply && announced_one(s, device, answer).0 == s
            &&& accepts(s, device) ==> announced_one(s, device, answer).0.devices[device.device_id]
                == (device.device_type, device.preferred_dos_name)
        }),
        ({
            let before = announced(s, devices.drop_last(), answers.drop_last());
            let out = announced(s, devices, answers);
            let last = announced_one(before.0, devices.last(), answers.last());
            &&& out.1.take(before.1.len() as int) == before.1
            &&& out.1.skip(before.1.len() as int) == last.1
            &&& out.0 == last.0
        }),
{
    let (known, reply) = accepted_one(s, device);
    let out = announced_one(s, device, answer).1;
    assert(out.take(reply.len() as int) =~= reply);
    lemma_issued_keeps_devices(known, answer);
    let before = announced(s, devices.drop_last(), answers.drop_last());
    let last = announced_one(before.0, devices.last(), answers.last());
    assert((before.1 + last.1).take(before.1.len() as int) =~= before.1);
    assert((before.1 + last.1).skip(before.1.len() as int) =~= last.1);
}

proof fn lemma_issued_keeps_devices(s: ChannelView, commands: Seq<DriveCommandView>)
    ensures
        issued(s, commands).0.devices == s.devices,
    decreases commands.len(),
{
    if commands.len() > 0 && s.pending.len() < MAX_PENDING_OPS {
        lemma_issued_keeps_devices(issued_one(s, commands[0]).0, commands.skip(1));
    }
}

/// Requests go out in the order in which they are wanted, and requests end one after the
/// other.
pub proof fn law_requests_in_order(
    s: ChannelView,
    commands: Seq<DriveCommandView>,
    order: Seq<u32>,
    answers: Seq<Seq<DriveCommandView>>,
)
    requires
        commands.len() > 0,
        s.pending.len() < 4096,
        order.len() > 0,
        answers.len() == order.len(),
    ensures
        ({
            let first = svc::frames(
                s.user_channel_id,
                s.channel_id,
                commands[0].wire(s.next),
            );
            issued(s, commands).1.take(first.len() as int) == first
        }),
        ({
            let before = ended(s, order.drop_last(), answers.drop_last());
            let out = ended(s, order, answers);
            &&& out.1.take(before.1.len() as int) == before.1
            &&& out.1.skip(before.1.len() as int) == ended_one(
                before.0,
                order.last(),
                answers.last(),
            ).1
        }),
{
    let (one, frames) = issued_one(s, commands[0]);
    let more = issued(one, commands.skip(1)).1;
    assert((frames + more).take(frames.len() as int) =~= frames);
    let before = ended(s, order.drop_last(), answers.drop_last());
    let last = ended_one(before.0, order.last(), answers.last());
    assert((before.1 + last.1).take(before.1.len() as int) =~= before.1);
    assert((before.1 + last.1).skip(before.1.len() as int) =~= last.1);
}

/// The devices that go away are no longer known and every other is; the requests that are
/// given up are those that wait for one of them, each once.
pub proof fn law_gone(a: &mut RdpdrChannel, device_ids: &[u32], order: Vec<u32>, id: u32)
    requires
        call_ensures(RdpdrChannel::withdraw_devices, (a, device_ids), order),
        old(a)@.wf(),
    ensures
        final(a)@.devices.contains_key(id) <==> old(a)@.devices.contains_key(id)
            && !device_ids@.contains(id),
        final(a)@.devices.contains_key(id) ==> final(a)@.devices[id] == old(a)@.devices[id],
        final(a)@.pending == old(a)@.pending,
        order@.no_duplicates(),
        order@.contains(id) <==> old(a)@.pending.contains_key(id) && device_ids@.contains(
            old(a)@.pending[id].device_id,
        ),
{
    assert(order@.to_set().contains(id) == order@.contains(id));
    assert(device_ids@.to_set().contains(id) == device_ids@.contains(id));
}

} // verus!
