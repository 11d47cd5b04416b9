//! Requests on a device that a client announced, and what the client completes
//! them with: open, close, read, write, list a directory, and set what is known
//! of a file. To delete is to open for it, mark the file, and close it.

use vstd::prelude::*;
use vstd::slice::slice_to_vec;

use crate::bytes;
use crate::cursor;
use crate::cursor::{ReadCursor, WriteBuf};
use crate::model;
use crate::rdpdr::pdu;
use crate::utf16;
use crate::DecodeError;

verus! {

broadcast use bytes::group_bytes;

pub const IRP_MJ_CREATE: u32 = 0x0000_0000;

pub const IRP_MJ_CLOSE: u32 = 0x0000_0002;

pub const IRP_MJ_READ: u32 = 0x0000_0003;

pub const IRP_MJ_WRITE: u32 = 0x0000_0004;

pub const IRP_MJ_SET_INFORMATION: u32 = 0x0000_0006;

pub const IRP_MJ_DIRECTORY_CONTROL: u32 = 0x0000_000C;

pub const IRP_MN_QUERY_DIRECTORY: u32 = 0x0000_0001;

pub const FILE_SUPERSEDE: u32 = 0x0000_0000;

pub const FILE_OPEN: u32 = 0x0000_0001;

pub const FILE_CREATE: u32 = 0x0000_0002;

pub const FILE_OPEN_IF: u32 = 0x0000_0003;

pub const FILE_OVERWRITE: u32 = 0x0000_0004;

pub const FILE_OVERWRITE_IF: u32 = 0x0000_0005;

pub const FILE_DIRECTORY_FILE: u32 = 0x0000_0001;

pub const FILE_NON_DIRECTORY_FILE: u32 = 0x0000_0040;

pub const FILE_SYNCHRONOUS_IO_NONALERT: u32 = 0x0000_0020;

pub const FILE_DELETE_ON_CLOSE: u32 = 0x0000_1000;

pub const GENERIC_READ: u32 = 0x8000_0000;

pub const GENERIC_WRITE: u32 = 0x4000_0000;

pub const FILE_LIST_DIRECTORY: u32 = 0x0000_0001;

pub const FILE_READ_DATA: u32 = 0x0000_0001;

pub const FILE_WRITE_DATA: u32 = 0x0000_0002;

pub const FILE_WRITE_ATTRIBUTES: u32 = 0x0000_0100;

pub const DELETE: u32 = 0x0001_0000;

pub const SYNCHRONIZE: u32 = 0x0010_0000;

pub const FILE_SHARE_READ: u32 = 0x0000_0001;

pub const FILE_SHARE_WRITE: u32 = 0x0000_0002;

pub const FILE_SHARE_DELETE: u32 = 0x0000_0004;

/// Others may read and write.
pub const FILE_SHARE_READ_WRITE: u32 = FILE_SHARE_READ | FILE_SHARE_WRITE;

/// Others may read, write and delete: what is open for reading does not keep a
/// file from being deleted.
pub const FILE_SHARE_ALL: u32 = FILE_SHARE_READ | FILE_SHARE_WRITE | FILE_SHARE_DELETE;

pub const FILE_ATTRIBUTE_DIRECTORY: u32 = 0x0000_0010;

pub const FILE_ATTRIBUTE_NORMAL: u32 = 0x0000_0080;

pub const FILE_SUPERSEDED: u8 = 0;

pub const FILE_OPENED: u8 = 1;

pub const FILE_CREATED: u8 = 2;

pub const FILE_OVERWRITTEN: u8 = 3;

pub const FILE_EXISTS: u8 = 4;

pub const FILE_DOES_NOT_EXIST: u8 = 5;

pub const FILE_BASIC_INFORMATION: u32 = 0x0000_0004;

pub const FILE_RENAME_INFORMATION: u32 = 0x0000_000A;

pub const FILE_DISPOSITION_INFORMATION: u32 = 0x0000_000D;

pub const FILE_ALLOCATION_INFORMATION: u32 = 0x0000_0013;

pub const FILE_END_OF_FILE_INFORMATION: u32 = 0x0000_0014;

/// The one form in which directory entries are asked for.
pub const FILE_DIRECTORY_INFORMATION_CLASS: u32 = 1;

/// A directory has no more entries: how a listing ends.
pub const STATUS_NO_MORE_FILES: u32 = 0x8000_0006;

/// What every request starts with.
pub open spec fn request_header(
    device_id: u32,
    file_id: u32,
    completion_id: u32,
    major_function: u32,
    minor_function: u32,
) -> Seq<u8> {
    pdu::header(pdu::PAKID_CORE_DEVICE_IOREQUEST) + bytes::le32(device_id) + bytes::le32(file_id)
        + bytes::le32(completion_id) + bytes::le32(major_function) + bytes::le32(minor_function)
}

fn write_io_request_header(
    out: &mut Vec<u8>,
    device_id: u32,
    file_id: u32,
    completion_id: u32,
    major_function: u32,
    minor_function: u32,
)
    ensures
        final(out)@ == old(out)@ + request_header(
            device_id,
            file_id,
            completion_id,
            major_function,
            minor_function,
        ),
{
    let ghost before = out@;
    out.write_u16_le(pdu::RDPDR_CTYP_CORE);
    out.write_u16_le(pdu::PAKID_CORE_DEVICE_IOREQUEST);
    out.write_u32_le(device_id);
    out.write_u32_le(file_id);
    out.write_u32_le(completion_id);
    out.write_u32_le(major_function);
    out.write_u32_le(minor_function);
    assert(out@ =~= before + request_header(
        device_id,
        file_id,
        completion_id,
        major_function,
        minor_function,
    ));
}

fn zero_padding(out: &mut Vec<u8>, n: usize)
    ensures
        final(out)@ == old(out)@ + bytes::zeros(n as nat),
{
    let ghost before = out@;
    let mut i: usize = 0;
    while i < n
        invariant
            i <= n,
            out@ =~= before + bytes::zeros(i as nat),
        decreases n - i,
    {
        out.push(0u8);
        i = i + 1;
    }
}

/// A path as it goes out: units, and a NUL at the end.
pub open spec fn path_wire(path: Seq<char>) -> Seq<u8> {
    utf16::unit_bytes(utf16::units(path)) + bytes::le16(0)
}

fn encode_path(path: &str) -> (out: Vec<u8>)
    ensures
        out@ == path_wire(path@),
{
    let mut out: Vec<u8> = utf16::encode_units(path);
    out.write_u16_le(0);
    out
}

pub open spec fn create_wire(
    device_id: u32,
    completion_id: u32,
    path: Seq<char>,
    desired_access: u32,
    create_disposition: u32,
    create_options: u32,
) -> Seq<u8> {
    request_header(device_id, 0, completion_id, IRP_MJ_CREATE, 0) + bytes::le32(desired_access)
        + bytes::le32(0) + bytes::le32(0) + bytes::le32(0) + bytes::le32(FILE_SHARE_ALL)
        + bytes::le32(create_disposition) + bytes::le32(create_options) + bytes::le32(
        bytes::low32(path_wire(path).len() as int),
    ) + path_wire(path)
}

/// Opens or creates a file.
pub fn encode_create_request(
    device_id: u32,
    completion_id: u32,
    path: &str,
    desired_access: u32,
    create_disposition: u32,
    create_options: u32,
) -> (out: Vec<u8>)
    ensures
        out@ == create_wire(
            device_id,
            completion_id,
            path@,
            desired_access,
            create_disposition,
            create_options,
        ),
{
    let path_bytes: Vec<u8> = encode_path(path);
    let mut out: Vec<u8> = Vec::new();
    write_io_request_header(&mut out, device_id, 0, completion_id, IRP_MJ_CREATE, 0);
    out.write_u32_le(desired_access);
    out.write_u32_le(0);  // allocation size, low
    out.write_u32_le(0);  // allocation size, high
    out.write_u32_le(0);  // attributes
    out.write_u32_le(FILE_SHARE_ALL);
    out.write_u32_le(create_disposition);
    out.write_u32_le(create_options);
    out.write_u32_le(bytes::len32(path_bytes.len()));
    out.write_slice(path_bytes.as_slice());
    assert(out@ =~= create_wire(
        device_id,
        completion_id,
        path@,
        desired_access,
        create_disposition,
        create_options,
    ));
    out
}

/// The file that was opened, and what was done to open it.
#[derive(Debug, Clone, Copy, PartialEq, Eq, Structural)]
pub struct CreateReply {
    pub file_id: u32,
    pub information: u8,
}

pub open spec fn parse_create_reply(b: Seq<u8>) -> Result<CreateReply, DecodeError> {
    if b.len() < 4 {
        Err(cursor::short(b, 0, 4))
    } else if b.len() < 5 {
        Err(cursor::short(b, 4, 1))
    } else {
        Ok(CreateReply { file_id: bytes::u32_le_at(b, 0), information: b[4] })
    }
}

pub fn decode_create_reply(body: &[u8]) -> (r: Result<CreateReply, DecodeError>)
    ensures
        r == parse_create_reply(body@),
{
    let mut cursor = ReadCursor::new(body);
    let file_id: u32 = cursor.take_u32_le()?;
    let information: u8 = cursor.take_u8()?;
    Ok(CreateReply { file_id, information })
}

pub open spec fn close_wire(device_id: u32, file_id: u32, completion_id: u32) -> Seq<u8> {
    request_header(device_id, file_id, completion_id, IRP_MJ_CLOSE, 0) + bytes::zeros(32)
}

/// Closes a file.
pub fn encode_close_request(device_id: u32, file_id: u32, completion_id: u32) -> (out: Vec<u8>)
    ensures
        out@ == close_wire(device_id, file_id, completion_id),
{
    let mut out: Vec<u8> = Vec::with_capacity(56);
    write_io_request_header(&mut out, device_id, file_id, completion_id, IRP_MJ_CLOSE, 0);
    zero_padding(&mut out, 32);
    assert(out@ =~= close_wire(device_id, file_id, completion_id));
    out
}

/// Of the offset only the low half is sent: the high one is always zero.
pub open spec fn read_wire(
    device_id: u32,
    file_id: u32,
    completion_id: u32,
    length: u32,
    offset: u64,
) -> Seq<u8> {
    request_header(device_id, file_id, completion_id, IRP_MJ_READ, 0) + bytes::le32(length)
        + bytes::le32(bytes::low32(offset as int)) + bytes::le32(0) + bytes::zeros(20)
}

/// Reads from a file. Of the offset only the low half is sent.
pub fn encode_read_request(
    device_id: u32,
    file_id: u32,
    completion_id: u32,
    length: u32,
    offset: u64,
) -> (out: Vec<u8>)
    ensures
        out@ == read_wire(device_id, file_id, completion_id, length, offset),
{
    let mut out: Vec<u8> = Vec::with_capacity(56);
    write_io_request_header(&mut out, device_id, file_id, completion_id, IRP_MJ_READ, 0);
    out.write_u32_le(length);
    out.write_u32_le((offset % 0x1_0000_0000) as u32);
    out.write_u32_le(0);
    zero_padding(&mut out, 20);
    assert(out@ =~= read_wire(device_id, file_id, completion_id, length, offset));
    out
}

/// A length, and as many bytes.
pub open spec fn parse_read_reply(b: Seq<u8>) -> Result<Seq<u8>, DecodeError> {
    if b.len() < 4 {
        Err(cursor::short(b, 0, 4))
    } else {
        let n = bytes::u32_le_at(b, 0) as int;
        if 4 + n > b.len() {
            Err(cursor::short(b, 4, n))
        } else {
            Ok(b.subrange(4, 4 + n))
        }
    }
}

pub fn decode_read_reply(body: &[u8]) -> (r: Result<Vec<u8>, DecodeError>)
    ensures
        cursor::decodes_view(r, parse_read_reply(body@)),
{
    let mut cursor = ReadCursor::new(body);
    let length: u32 = cursor.take_u32_le()?;
    let data: &[u8] = cursor.take_slice(length as usize)?;
    Ok(slice_to_vec(data))
}

pub open spec fn write_wire(
    device_id: u32,
    file_id: u32,
    completion_id: u32,
    offset: u64,
    data: Seq<u8>,
) -> Seq<u8> {
    request_header(device_id, file_id, completion_id, IRP_MJ_WRITE, 0) + bytes::le32(
        bytes::low32(data.len() as int),
    ) + bytes::le64(offset) + bytes::zeros(20) + data
}

/// Writes to a file.
pub fn encode_write_request(
    device_id: u32,
    file_id: u32,
    completion_id: u32,
    offset: u64,
    data: &[u8],
) -> (out: Vec<u8>)
    ensures
        out@ == write_wire(device_id, file_id, completion_id, offset, data@),
{
    let mut out: Vec<u8> = Vec::new();
    write_io_request_header(&mut out, device_id, file_id, completion_id, IRP_MJ_WRITE, 0);
    out.write_u32_le(bytes::len32(data.len()));
    out.write_u64_le(offset);
    zero_padding(&mut out, 20);
    out.write_slice(data);
    assert(out@ =~= write_wire(device_id, file_id, completion_id, offset, data@));
    out
}

pub open spec fn parse_write_reply(b: Seq<u8>) -> Result<u32, DecodeError> {
    if b.len() < 4 {
        Err(cursor::short(b, 0, 4))
    } else {
        Ok(bytes::u32_le_at(b, 0))
    }
}

/// How many bytes were written.
pub fn decode_write_reply(body: &[u8]) -> (r: Result<u32, DecodeError>)
    ensures
        r == parse_write_reply(body@),
{
    let mut cursor = ReadCursor::new(body);
    cursor.take_u32_le()
}

/// The pattern of a listing that starts, and nothing for one that goes on.
pub open spec fn pattern_wire(path: Option<Seq<char>>) -> Seq<u8> {
    match path {
        Some(p) => path_wire(p),
        None => seq![],
    }
}

pub open spec fn query_directory_wire(
    device_id: u32,
    file_id: u32,
    completion_id: u32,
    path: Option<Seq<char>>,
) -> Seq<u8> {
    request_header(
        device_id,
        file_id,
        completion_id,
        IRP_MJ_DIRECTORY_CONTROL,
        IRP_MN_QUERY_DIRECTORY,
    ) + bytes::le32(FILE_DIRECTORY_INFORMATION_CLASS) + seq![
        if path is Some {
            1u8
        } else {
            0u8
        },
    ] + bytes::le32(bytes::low32(pattern_wire(path).len() as int)) + bytes::zeros(23)
        + pattern_wire(path)
}

/// Asks for one entry of a directory: the first that matches a pattern, or the
/// next of a listing under way.
pub fn encode_query_directory_request(
    device_id: u32,
    file_id: u32,
    completion_id: u32,
    path: Option<&str>,
) -> (out: Vec<u8>)
    ensures
        out@ == query_directory_wire(device_id, file_id, completion_id, model::opt_view(path)),
{
    let path_bytes: Vec<u8> = match path {
        Some(p) => encode_path(p),
        None => Vec::new(),
    };
    let initial: u8 = if path.is_some() {
        1
    } else {
        0
    };
    let mut out: Vec<u8> = Vec::new();
    write_io_request_header(
        &mut out,
        device_id,
        file_id,
        completion_id,
        IRP_MJ_DIRECTORY_CONTROL,
        IRP_MN_QUERY_DIRECTORY,
    );
    out.write_u32_le(FILE_DIRECTORY_INFORMATION_CLASS);
    out.write_u8(initial);
    out.write_u32_le(bytes::len32(path_bytes.len()));
    zero_padding(&mut out, 23);
    out.write_slice(path_bytes.as_slice());
    assert(path_bytes@ =~= pattern_wire(model::opt_view(path)));
    assert(out@ =~= query_directory_wire(
        device_id,
        file_id,
        completion_id,
        model::opt_view(path),
    ));
    out
}

/// One entry of a directory.
#[derive(Debug, Clone, PartialEq, Eq)]
pub struct DirectoryEntry {
    pub file_index: u32,
    pub creation_time: i64,
    pub last_access_time: i64,
    pub last_write_time: i64,
    pub change_time: i64,
    pub end_of_file: i64,
    pub allocation_size: i64,
    pub file_attributes: u32,
    pub file_name: String,
}

#[verifier::ext_equal]
pub struct DirectoryEntryView {
    pub file_index: u32,
    pub creation_time: i64,
    pub last_access_time: i64,
    pub last_write_time: i64,
    pub change_time: i64,
    pub end_of_file: i64,
    pub allocation_size: i64,
    pub file_attributes: u32,
    pub file_name: Seq<char>,
}

impl View for DirectoryEntry {
    type V = DirectoryEntryView;

    open spec fn view(&self) -> DirectoryEntryView {
        DirectoryEntryView {
            file_index: self.file_index,
            creation_time: self.creation_time,
            last_access_time: self.last_access_time,
            last_write_time: self.last_write_time,
            change_time: self.change_time,
            end_of_file: self.end_of_file,
            allocation_size: self.allocation_size,
            file_attributes: self.file_attributes,
            file_name: self.file_name@,
        }
    }
}

/// The entry in its own bytes.
pub open spec fn parse_entry(e: Seq<u8>) -> Result<DirectoryEntryView, DecodeError> {
    if e.len() < 4 {
        Err(cursor::short(e, 0, 4))
    } else if e.len() < 8 {
        Err(cursor::short(e, 4, 4))
    } else if e.len() < 56 {
        Err(cursor::short(e, e.len() as int / 8 * 8, 8))
    } else if e.len() < 64 {
        Err(cursor::short(e, e.len() as int / 4 * 4, 4))
    } else {
        let n = bytes::u32_le_at(e, 60) as int;
        if 64 + n > e.len() {
            Err(cursor::short(e, 64, n))
        } else {
            Ok(
                DirectoryEntryView {
                    file_index: bytes::u32_le_at(e, 4),
                    creation_time: bytes::u64_le_at(e, 8) as i64,
                    last_access_time: bytes::u64_le_at(e, 16) as i64,
                    last_write_time: bytes::u64_le_at(e, 24) as i64,
                    change_time: bytes::u64_le_at(e, 32) as i64,
                    end_of_file: bytes::u64_le_at(e, 40) as i64,
                    allocation_size: bytes::u64_le_at(e, 48) as i64,
                    file_attributes: bytes::u32_le_at(e, 56),
                    file_name: utf16::text(utf16::byte_units(e.subrange(64, 64 + n))),
                },
            )
        }
    }
}

/// A length and an entry of that length; a length of zero, or no length at
/// all, is the end of the listing.
pub open spec fn parse_query_directory_reply(b: Seq<u8>) -> Result<
    Option<DirectoryEntryView>,
    DecodeError,
> {
    if b.len() == 0 {
        Ok(None)
    } else if b.len() < 4 {
        Err(cursor::short(b, 0, 4))
    } else {
        let n = bytes::u32_le_at(b, 0) as int;
        if n == 0 {
            Ok(None)
        } else if 4 + n > b.len() {
            Err(cursor::short(b, 4, n))
        } else {
            match parse_entry(b.subrange(4, 4 + n)) {
                Err(e) => Err(e),
                Ok(entry) => Ok(Some(entry)),
            }
        }
    }
}

fn decode_entry(entry_bytes: &[u8]) -> (r: Result<DirectoryEntry, DecodeError>)
    ensures
        cursor::decodes_view(r, parse_entry(entry_bytes@)),
{
    let mut entry = ReadCursor::new(entry_bytes);
    let _next_entry_offset: u32 = entry.take_u32_le()?;
    let file_index: u32 = entry.take_u32_le()?;
    let creation_time: u64 = entry.take_u64_le()?;
    let last_access_time: u64 = entry.take_u64_le()?;
    let last_write_time: u64 = entry.take_u64_le()?;
    let change_time: u64 = entry.take_u64_le()?;
    let end_of_file: u64 = entry.take_u64_le()?;
    let allocation_size: u64 = entry.take_u64_le()?;
    let file_attributes: u32 = entry.take_u32_le()?;
    let file_name_length: u32 = entry.take_u32_le()?;
    let name: &[u8] = entry.take_slice(file_name_length as usize)?;
    Ok(
        DirectoryEntry {
            file_index,
            creation_time: creation_time as i64,
            last_access_time: last_access_time as i64,
            last_write_time: last_write_time as i64,
            change_time: change_time as i64,
            end_of_file: end_of_file as i64,
            allocation_size: allocation_size as i64,
            file_attributes,
            file_name: utf16::decode_units(name),
        },
    )
}

/// The entry in a reply, or `None` at the end of a listing.
pub fn decode_query_directory_reply(body: &[u8]) -> (r: Result<Option<DirectoryEntry>, DecodeError>)
    ensures
        match parse_query_directory_reply(body@) {
            Ok(entry) => r is Ok && model::opt_view(r->Ok_0) == entry,
            Err(e) => r == Err::<Option<DirectoryEntry>, DecodeError>(e),
        },
{
    if body.len() == 0 {
        return Ok(None);
    }
    let mut cursor = ReadCursor::new(body);
    let length: u32 = cursor.take_u32_le()?;
    if length == 0 {
        return Ok(None);
    }
    let entry_bytes: &[u8] = cursor.take_slice(length as usize)?;
    let entry: DirectoryEntry = decode_entry(entry_bytes)?;
    Ok(Some(entry))
}

pub open spec fn set_information_wire(
    device_id: u32,
    file_id: u32,
    completion_id: u32,
    fs_information_class: u32,
    set_buffer: Seq<u8>,
) -> Seq<u8> {
    request_header(device_id, file_id, completion_id, IRP_MJ_SET_INFORMATION, 0) + bytes::le32(
        fs_information_class,
    ) + bytes::le32(bytes::low32(set_buffer.len() as int)) + bytes::zeros(24) + set_buffer
}

/// Sets what is known of a file: which part of it, and the new value.
pub fn encode_set_information_request(
    device_id: u32,
    file_id: u32,
    completion_id: u32,
    fs_information_class: u32,
    set_buffer: &[u8],
) -> (out: Vec<u8>)
    ensures
        out@ == set_information_wire(
            device_id,
            file_id,
            completion_id,
            fs_information_class,
            set_buffer@,
        ),
{
    let mut out: Vec<u8> = Vec::new();
    write_io_request_header(&mut out, device_id, file_id, completion_id, IRP_MJ_SET_INFORMATION, 0);
    out.write_u32_le(fs_information_class);
    out.write_u32_le(bytes::len32(set_buffer.len()));
    zero_padding(&mut out, 24);
    out.write_slice(set_buffer);
    assert(out@ =~= set_information_wire(
        device_id,
        file_id,
        completion_id,
        fs_information_class,
        set_buffer@,
    ));
    out
}

fn flag(set: bool) -> (v: u8)
    ensures
        v == flag_byte(set),
{
    if set {
        1
    } else {
        0
    }
}

/// A byte that says yes or no.
pub open spec fn flag_byte(set: bool) -> u8 {
    if set {
        1
    } else {
        0
    }
}

/// The value that marks a file for deletion, or takes the mark off.
pub fn disposition_information_buffer(delete_file: bool) -> (out: Vec<u8>)
    ensures
        out@ == seq![flag_byte(delete_file)],
{
    let mut out: Vec<u8> = Vec::new();
    out.push(flag(delete_file));
    assert(out@ =~= seq![flag_byte(delete_file)]);
    out
}

/// Marks a file for deletion, or takes the mark off.
pub fn encode_set_disposition_request(
    device_id: u32,
    file_id: u32,
    completion_id: u32,
    delete_file: bool,
) -> (out: Vec<u8>)
    ensures
        out@ == set_information_wire(
            device_id,
            file_id,
            completion_id,
            FILE_DISPOSITION_INFORMATION,
            seq![flag_byte(delete_file)],
        ),
{
    encode_set_information_request(
        device_id,
        file_id,
        completion_id,
        FILE_DISPOSITION_INFORMATION,
        disposition_information_buffer(delete_file).as_slice(),
    )
}

pub open spec fn rename_information(new_path: Seq<char>, replace_if_exists: bool) -> Seq<u8> {
    seq![flag_byte(replace_if_exists)] + seq![0u8] + bytes::le32(
        bytes::low32(path_wire(new_path).len() as int),
    ) + path_wire(new_path)
}

/// The value that gives a file a new path.
pub fn rename_information_buffer(new_path: &str, replace_if_exists: bool) -> (out: Vec<u8>)
    ensures
        out@ == rename_information(new_path@, replace_if_exists),
{
    let name_bytes: Vec<u8> = encode_path(new_path);
    let mut set_buffer: Vec<u8> = Vec::new();
    set_buffer.write_u8(flag(replace_if_exists));
    set_buffer.write_u8(0);  // the path is a full one
    set_buffer.write_u32_le(bytes::len32(name_bytes.len()));
    set_buffer.write_slice(name_bytes.as_slice());
    assert(set_buffer@ =~= rename_information(new_path@, replace_if_exists));
    set_buffer
}

/// Gives a file a new path.
pub fn encode_set_rename_request(
    device_id: u32,
    file_id: u32,
    completion_id: u32,
    new_path: &str,
    replace_if_exists: bool,
) -> (out: Vec<u8>)
    ensures
        out@ == set_information_wire(
            device_id,
            file_id,
            completion_id,
            FILE_RENAME_INFORMATION,
            rename_information(new_path@, replace_if_exists),
        ),
{
    encode_set_information_request(
        device_id,
        file_id,
        completion_id,
        FILE_RENAME_INFORMATION,
        rename_information_buffer(new_path, replace_if_exists).as_slice(),
    )
}

/// The value that gives a file a new length.
pub fn end_of_file_information_buffer(end_of_file: i64) -> (out: Vec<u8>)
    ensures
        out@ == bytes::le64(end_of_file as u64),
{
    let mut set_buffer: Vec<u8> = Vec::with_capacity(8);
    set_buffer.write_u64_le(end_of_file as u64);
    assert(set_buffer@ =~= bytes::le64(end_of_file as u64));
    set_buffer
}

/// Cuts a file short, or makes it longer.
pub fn encode_set_end_of_file_request(
    device_id: u32,
    file_id: u32,
    completion_id: u32,
    end_of_file: i64,
) -> (out: Vec<u8>)
    ensures
        out@ == set_information_wire(
            device_id,
            file_id,
            completion_id,
            FILE_END_OF_FILE_INFORMATION,
            bytes::le64(end_of_file as u64),
        ),
{
    encode_set_information_request(
        device_id,
        file_id,
        completion_id,
        FILE_END_OF_FILE_INFORMATION,
        end_of_file_information_buffer(end_of_file).as_slice(),
    )
}

pub open spec fn basic_information(
    creation_time: i64,
    last_access_time: i64,
    last_write_time: i64,
    change_time: i64,
    file_attributes: u32,
) -> Seq<u8> {
    bytes::le64(creation_time as u64) + bytes::le64(last_access_time as u64) + bytes::le64(
        last_write_time as u64,
    ) + bytes::le64(change_time as u64) + bytes::le32(file_attributes)
}

/// The value that sets times and attributes. Zero leaves one as it is.
pub fn basic_information_buffer(
    creation_time: i64,
    last_access_time: i64,
    last_write_time: i64,
    change_time: i64,
    file_attributes: u32,
) -> (out: Vec<u8>)
    ensures
        out@ == basic_information(
            creation_time,
            last_access_time,
            last_write_time,
            change_time,
            file_attributes,
        ),
{
    let mut set_buffer: Vec<u8> = Vec::with_capacity(36);
    set_buffer.write_u64_le(creation_time as u64);
    set_buffer.write_u64_le(last_access_time as u64);
    set_buffer.write_u64_le(last_write_time as u64);
    set_buffer.write_u64_le(change_time as u64);
    set_buffer.write_u32_le(file_attributes);
    assert(set_buffer@ =~= basic_information(
        creation_time,
        last_access_time,
        last_write_time,
        change_time,
        file_attributes,
    ));
    set_buffer
}

/// Sets times and attributes of a file.
pub fn encode_set_basic_information_request(
    device_id: u32,
    file_id: u32,
    completion_id: u32,
    creation_time: i64,
    last_access_time: i64,
    last_write_time: i64,
    change_time: i64,
    file_attributes: u32,
) -> (out: Vec<u8>)
    ensures
        out@ == set_information_wire(
            device_id,
            file_id,
            completion_id,
            FILE_BASIC_INFORMATION,
            basic_information(
                creation_time,
                last_access_time,
                last_write_time,
                change_time,
                file_attributes,
            ),
        ),
{
    encode_set_information_request(
        device_id,
        file_id,
        completion_id,
        FILE_BASIC_INFORMATION,
        basic_information_buffer(
            creation_time,
            last_access_time,
            last_write_time,
            change_time,
            file_attributes,
        ).as_slice(),
    )
}

/// Every request says at fixed offsets which device it is for, which request it
/// is, and what is asked.
pub proof fn law_request_header(
    device_id: u32,
    file_id: u32,
    completion_id: u32,
    major_function: u32,
    minor_function: u32,
    rest: Seq<u8>,
)
    ensures
        ({
            let b = request_header(
                device_id,
                file_id,
                completion_id,
                major_function,
                minor_function,
            ) + rest;
            &&& bytes::u16_le_at(b, 2) == pdu::PAKID_CORE_DEVICE_IOREQUEST
            &&& bytes::u32_le_at(b, 4) == device_id
            &&& bytes::u32_le_at(b, 8) == file_id
            &&& bytes::u32_le_at(b, 12) == completion_id
            &&& bytes::u32_le_at(b, 16) == major_function
            &&& bytes::u32_le_at(b, 20) == minor_function
        }),
{
}

/// The name in an entry is the one that was put into it.
pub proof fn law_entry_name(entry: Seq<u8>, name: Seq<char>)
    requires
        entry.len() == 64 + 2 * utf16::units(name).len(),
        entry.len() - 64 == bytes::u32_le_at(entry, 60),
        entry.skip(64) == utf16::unit_bytes(utf16::units(name)),
    ensures
        parse_entry(entry) is Ok,
        parse_entry(entry)->Ok_0.file_name == name,
{
    assert(entry.subrange(64, entry.len() as int) =~= entry.skip(64));
    utf16::law_unit_bytes(utf16::units(name));
    utf16::law_text_units(name);
}

/// A request to write gives the length of the data and the offset at which it
/// goes into the file, and the data ends it.
pub proof fn law_write_request(
    device_id: u32,
    file_id: u32,
    completion_id: u32,
    offset: u64,
    data: &[u8],
    out: Vec<u8>,
)
    requires
        call_ensures(
            encode_write_request,
            (device_id, file_id, completion_id, offset, data),
            out,
        ),
    ensures
        out@.len() == 56 + data@.len(),
        bytes::u16_le_at(out@, 0) == 0x4472,
        bytes::u16_le_at(out@, 2) == 0x4952,
        bytes::u32_le_at(out@, 4) == device_id,
        bytes::u32_le_at(out@, 8) == file_id,
        bytes::u32_le_at(out@, 12) == completion_id,
        bytes::u32_le_at(out@, 16) == 4,
        bytes::u32_le_at(out@, 20) == 0,
        bytes::u32_le_at(out@, 24) == data@.len() % 4294967296,
        bytes::u64_le_at(out@, 28) == offset,
        forall|i: int| 36 <= i < 56 ==> #[trigger] out@[i] == 0,
        out@.skip(56) == data@,
{
    assert(out@.skip(56) =~= data@);
}

/// A request to open a file says how it is to be accessed, shared, opened and
/// with what options, and the path with the NUL at its end comes last, after
/// its length. Everyone else may read, write and delete the file meanwhile.
pub proof fn law_create_request(
    device_id: u32,
    completion_id: u32,
    path: &str,
    desired_access: u32,
    create_disposition: u32,
    create_options: u32,
    out: Vec<u8>,
)
    requires
        call_ensures(encode_create_request, (device_id, completion_id, path, desired_access, create_disposition, create_options), out),
    ensures
        bytes::u16_le_at(out@, 0) == 0x4472,
        bytes::u16_le_at(out@, 2) == 0x4952,
        bytes::u32_le_at(out@, 4) == device_id,
        bytes::u32_le_at(out@, 8) == 0,
        bytes::u32_le_at(out@, 12) == completion_id,
        bytes::u32_le_at(out@, 16) == 0,
        bytes::u32_le_at(out@, 20) == 0,
        bytes::u32_le_at(out@, 24) == desired_access,
        forall|i: int| 28 <= i < 40 ==> #[trigger] out@[i] == 0,
        bytes::u32_le_at(out@, 40) == 7,
        bytes::u32_le_at(out@, 44) == create_disposition,
        bytes::u32_le_at(out@, 48) == create_options,
        bytes::u32_le_at(out@, 52) == (2 * utf16::units(path@).len() + 2) % 4294967296,
        out@.len() == 56 + 2 * utf16::units(path@).len() + 2,
        out@.subrange(56, out@.len() - 2) == utf16::unit_bytes(utf16::units(path@)),
        out@[out@.len() - 1] == 0,
        out@[out@.len() - 2] == 0,
{
    bytes::law_number_bytes(0, 0, 0);
    assert(1u32 | 2 | 4 == 7) by (bit_vector);
    assert(out@.subrange(56, out@.len() - 2) =~= utf16::unit_bytes(utf16::units(path@)));
}

/// A request to close a file names the file, and says nothing else.
pub proof fn law_close_request(
    device_id: u32,
    file_id: u32,
    completion_id: u32,
    out: Vec<u8>,
)
    requires
        call_ensures(encode_close_request, (device_id, file_id, completion_id), out),
    ensures
        out@.len() == 56,
        bytes::u16_le_at(out@, 0) == 0x4472,
        bytes::u16_le_at(out@, 2) == 0x4952,
        bytes::u32_le_at(out@, 4) == device_id,
        bytes::u32_le_at(out@, 8) == file_id,
        bytes::u32_le_at(out@, 12) == completion_id,
        bytes::u32_le_at(out@, 16) == 2,
        bytes::u32_le_at(out@, 20) == 0,
        forall|i: int| 24 <= i < 56 ==> #[trigger] out@[i] == 0,
{
}

/// A request to read gives how much is wanted and from where in the file, of
/// which only the low 32 bits go out.
pub proof fn law_read_request(
    device_id: u32,
    file_id: u32,
    completion_id: u32,
    length: u32,
    offset: u64,
    out: Vec<u8>,
)
    requires
        call_ensures(encode_read_request, (device_id, file_id, completion_id, length, offset), out),
    ensures
        out@.len() == 56,
        bytes::u16_le_at(out@, 0) == 0x4472,
        bytes::u16_le_at(out@, 2) == 0x4952,
        bytes::u32_le_at(out@, 4) == device_id,
        bytes::u32_le_at(out@, 8) == file_id,
        bytes::u32_le_at(out@, 12) == completion_id,
        bytes::u32_le_at(out@, 16) == 3,
        bytes::u32_le_at(out@, 20) == 0,
        bytes::u32_le_at(out@, 24) == length,
        bytes::u32_le_at(out@, 28) == offset % 4294967296,
        forall|i: int| 32 <= i < 56 ==> #[trigger] out@[i] == 0,
{
    bytes::law_number_bytes(0, 0, 0);
}

/// A request for an entry of a directory says whether it starts a listing,
/// which it does where there is a pattern. The pattern comes last, after its
/// length.
pub proof fn law_query_directory_request(
    device_id: u32,
    file_id: u32,
    completion_id: u32,
    path: Option<&str>,
    out: Vec<u8>,
)
    requires
        call_ensures(encode_query_directory_request, (device_id, file_id, completion_id, path), out),
    ensures
        bytes::u16_le_at(out@, 0) == 0x4472,
        bytes::u16_le_at(out@, 2) == 0x4952,
        bytes::u32_le_at(out@, 4) == device_id,
        bytes::u32_le_at(out@, 8) == file_id,
        bytes::u32_le_at(out@, 12) == completion_id,
        bytes::u32_le_at(out@, 16) == 12,
        bytes::u32_le_at(out@, 20) == 1,
        bytes::u32_le_at(out@, 24) == 1,
        out@[28] == 1 <==> path is Some,
        out@[28] == 0 <==> path is None,
        forall|i: int| 33 <= i < 56 ==> #[trigger] out@[i] == 0,
        path is None ==> bytes::u32_le_at(out@, 29) == 0 && out@.len() == 56,
        path matches Some(p) ==> {
            &&& bytes::u32_le_at(out@, 29) == (2 * utf16::units(p@).len() + 2) % 4294967296
            &&& out@.len() == 56 + 2 * utf16::units(p@).len() + 2
            &&& out@.subrange(56, out@.len() - 2) == utf16::unit_bytes(utf16::units(p@))
            &&& out@[out@.len() - 1] == 0
            &&& out@[out@.len() - 2] == 0
        },
{
    bytes::law_number_bytes(0, 0, 0);
    if let Some(p) = path {
        assert(out@.subrange(56, out@.len() - 2) =~= utf16::unit_bytes(utf16::units(p@)));
    }
}

/// A request to set what is known of a file says which part of it, and the new
/// value comes last, after its length.
pub proof fn law_set_information_request(
    device_id: u32,
    file_id: u32,
    completion_id: u32,
    fs_information_class: u32,
    set_buffer: &[u8],
    out: Vec<u8>,
)
    requires
        call_ensures(encode_set_information_request, (device_id, file_id, completion_id, fs_information_class, set_buffer), out),
    ensures
        bytes::u16_le_at(out@, 0) == 0x4472,
        bytes::u16_le_at(out@, 2) == 0x4952,
        bytes::u32_le_at(out@, 4) == device_id,
        bytes::u32_le_at(out@, 8) == file_id,
        bytes::u32_le_at(out@, 12) == completion_id,
        bytes::u32_le_at(out@, 16) == 6,
        bytes::u32_le_at(out@, 20) == 0,
        bytes::u32_le_at(out@, 24) == fs_information_class,
        forall|i: int| 32 <= i < 56 ==> #[trigger] out@[i] == 0,
        bytes::u32_le_at(out@, 28) == set_buffer@.len() % 4294967296,
        out@.skip(56) == set_buffer@,
{
    assert(out@.skip(56) =~= set_buffer@);
}

/// A mark for deletion is one byte: 1 to delete the file, 0 to keep it.
pub proof fn law_set_disposition_request(
    device_id: u32,
    file_id: u32,
    completion_id: u32,
    delete_file: bool,
    out: Vec<u8>,
)
    requires
        call_ensures(encode_set_disposition_request, (device_id, file_id, completion_id, delete_file), out),
    ensures
        bytes::u16_le_at(out@, 0) == 0x4472,
        bytes::u16_le_at(out@, 2) == 0x4952,
        bytes::u32_le_at(out@, 4) == device_id,
        bytes::u32_le_at(out@, 8) == file_id,
        bytes::u32_le_at(out@, 12) == completion_id,
        bytes::u32_le_at(out@, 16) == 6,
        bytes::u32_le_at(out@, 20) == 0,
        bytes::u32_le_at(out@, 24) == 13,
        forall|i: int| 32 <= i < 56 ==> #[trigger] out@[i] == 0,
        bytes::u32_le_at(out@, 28) == 1,
        out@.len() == 57,
        out@[56] == 1 <==> delete_file,
        out@[56] == 0 <==> !delete_file,
{
}

/// A new path comes with whether it may replace what has it, and with its
/// length.
#[verifier::rlimit(60)]
pub proof fn law_set_rename_request(
    device_id: u32,
    file_id: u32,
    completion_id: u32,
    new_path: &str,
    replace_if_exists: bool,
    out: Vec<u8>,
)
    requires
        call_ensures(encode_set_rename_request, (device_id, file_id, completion_id, new_path, replace_if_exists), out),
    ensures
        bytes::u16_le_at(out@, 0) == 0x4472,
        bytes::u16_le_at(out@, 2) == 0x4952,
        bytes::u32_le_at(out@, 4) == device_id,
        bytes::u32_le_at(out@, 8) == file_id,
        bytes::u32_le_at(out@, 12) == completion_id,
        bytes::u32_le_at(out@, 16) == 6,
        bytes::u32_le_at(out@, 20) == 0,
        bytes::u32_le_at(out@, 24) == 10,
        forall|i: int| 32 <= i < 56 ==> #[trigger] out@[i] == 0,
        bytes::u32_le_at(out@, 28) == (8 + 2 * utf16::units(new_path@).len()) % 4294967296,
        out@.len() == 64 + 2 * utf16::units(new_path@).len(),
        out@[56] == 1 <==> replace_if_exists,
        out@[56] == 0 <==> !replace_if_exists,
        out@[57] == 0,
        bytes::u32_le_at(out@, 58) == (2 * utf16::units(new_path@).len() + 2) % 4294967296,
        out@.subrange(62, out@.len() - 2) == utf16::unit_bytes(utf16::units(new_path@)),
        out@[out@.len() - 1] == 0,
        out@[out@.len() - 2] == 0,
{
    bytes::law_number_bytes(0, 0, 0);
    let value = rename_information(new_path@, replace_if_exists);
    assert(value.len() == 8 + 2 * utf16::units(new_path@).len());
    assert(forall|i: int| 0 <= i < value.len() ==> out@[56 + i] == #[trigger] value[i]);
    assert(bytes::u32_le_at(value, 2) == (2 * utf16::units(new_path@).len() + 2) % 4294967296);
    assert(value[2] == out@[58] && value[3] == out@[59] && value[4] == out@[60] && value[5] == out@[61]);
    assert forall|i: int| 0 <= i < 2 * utf16::units(new_path@).len() implies #[trigger] out@.subrange(62, out@.len() - 2)[i] == utf16::unit_bytes(utf16::units(new_path@))[i] by {
        assert(out@[62 + i] == value[6 + i]);
    }
    assert(out@.subrange(62, out@.len() - 2) =~= utf16::unit_bytes(utf16::units(new_path@)));
    assert(out@[out@.len() - 1] == value[value.len() - 1]);
    assert(out@[out@.len() - 2] == value[value.len() - 2]);
}

/// A new length is one number of eight bytes.
pub proof fn law_set_end_of_file_request(
    device_id: u32,
    file_id: u32,
    completion_id: u32,
    end_of_file: i64,
    out: Vec<u8>,
)
    requires
        call_ensures(encode_set_end_of_file_request, (device_id, file_id, completion_id, end_of_file), out),
    ensures
        bytes::u16_le_at(out@, 0) == 0x4472,
        bytes::u16_le_at(out@, 2) == 0x4952,
        bytes::u32_le_at(out@, 4) == device_id,
        bytes::u32_le_at(out@, 8) == file_id,
        bytes::u32_le_at(out@, 12) == completion_id,
        bytes::u32_le_at(out@, 16) == 6,
        bytes::u32_le_at(out@, 20) == 0,
        bytes::u32_le_at(out@, 24) == 20,
        forall|i: int| 32 <= i < 56 ==> #[trigger] out@[i] == 0,
        bytes::u32_le_at(out@, 28) == 8,
        out@.len() == 64,
        end_of_file >= 0 ==> bytes::u64_le_at(out@, 56) == end_of_file,
        end_of_file < 0 ==> bytes::u64_le_at(out@, 56) == end_of_file + 18446744073709551616,
{
    assert(end_of_file < 0 ==> end_of_file as u64 == end_of_file + 18446744073709551616) by (bit_vector);
    let value = bytes::le64(end_of_file as u64);
    assert(bytes::u64_le_at(value, 0) == end_of_file as u64);
    assert(forall|i: int| 0 <= i < value.len() ==> out@[56 + i] == #[trigger] value[i]);
}

/// The times of a file go out in the order creation, last access, last write,
/// change, and its attributes after them.
pub proof fn law_set_basic_information_request(
    device_id: u32,
    file_id: u32,
    completion_id: u32,
    creation_time: i64,
    last_access_time: i64,
    last_write_time: i64,
    change_time: i64,
    file_attributes: u32,
    out: Vec<u8>,
)
    requires
        call_ensures(encode_set_basic_information_request, (device_id, file_id, completion_id, creation_time, last_access_time, last_write_time, change_time, file_attributes), out),
    ensures
        bytes::u16_le_at(out@, 0) == 0x4472,
        bytes::u16_le_at(out@, 2) == 0x4952,
        bytes::u32_le_at(out@, 4) == device_id,
        bytes::u32_le_at(out@, 8) == file_id,
        bytes::u32_le_at(out@, 12) == completion_id,
        bytes::u32_le_at(out@, 16) == 6,
        bytes::u32_le_at(out@, 20) == 0,
        bytes::u32_le_at(out@, 24) == 4,
        forall|i: int| 32 <= i < 56 ==> #[trigger] out@[i] == 0,
        bytes::u32_le_at(out@, 28) == 36,
        out@.len() == 92,
        bytes::u64_le_at(out@, 56) == creation_time as u64,
        bytes::u64_le_at(out@, 64) == last_access_time as u64,
        bytes::u64_le_at(out@, 72) == last_write_time as u64,
        bytes::u64_le_at(out@, 80) == change_time as u64,
        bytes::u32_le_at(out@, 88) == file_attributes,
{
    let value = basic_information(creation_time, last_access_time, last_write_time, change_time, file_attributes);
    assert(value.len() == 36);
    assert(bytes::u64_le_at(value, 0) == creation_time as u64);
    assert(bytes::u64_le_at(value, 8) == last_access_time as u64);
    assert(bytes::u64_le_at(value, 16) == last_write_time as u64);
    assert(bytes::u64_le_at(value, 24) == change_time as u64);
    assert(bytes::u32_le_at(value, 32) == file_attributes);
    assert(forall|i: int| 0 <= i < value.len() ==> out@[56 + i] == #[trigger] value[i]);
}

/// The values alone are what follows the first 56 bytes of the requests that
/// set them.
pub proof fn law_information_buffers(
    device_id: u32,
    file_id: u32,
    completion_id: u32,
    delete_file: bool,
    disposition: Vec<u8>,
    new_path: &str,
    replace_if_exists: bool,
    rename: Vec<u8>,
    end_of_file: i64,
    length: Vec<u8>,
    set_disposition: Vec<u8>,
    set_rename: Vec<u8>,
    set_length: Vec<u8>,
)
    requires
        call_ensures(disposition_information_buffer, (delete_file,), disposition),
        call_ensures(rename_information_buffer, (new_path, replace_if_exists), rename),
        call_ensures(end_of_file_information_buffer, (end_of_file,), length),
        call_ensures(encode_set_disposition_request, (device_id, file_id, completion_id, delete_file), set_disposition),
        call_ensures(encode_set_rename_request, (device_id, file_id, completion_id, new_path, replace_if_exists), set_rename),
        call_ensures(encode_set_end_of_file_request, (device_id, file_id, completion_id, end_of_file), set_length),
    ensures
        set_disposition@.skip(56) == disposition@,
        set_rename@.skip(56) == rename@,
        set_length@.skip(56) == length@,
{
    assert(set_disposition@.skip(56) =~= disposition@);
    assert(set_rename@.skip(56) =~= rename@);
    assert(set_length@.skip(56) =~= length@);
}

/// The value that sets times and attributes is what follows the first 56 bytes
/// of the request that sets them.
pub proof fn law_basic_information_buffer(
    device_id: u32,
    file_id: u32,
    completion_id: u32,
    creation_time: i64,
    last_access_time: i64,
    last_write_time: i64,
    change_time: i64,
    file_attributes: u32,
    value: Vec<u8>,
    out: Vec<u8>,
)
    requires
        call_ensures(basic_information_buffer, (creation_time, last_access_time, last_write_time, change_time, file_attributes), value),
        call_ensures(encode_set_basic_information_request, (device_id, file_id, completion_id, creation_time, last_access_time, last_write_time, change_time, file_attributes), out),
    ensures
        out@.skip(56) == value@,
{
    assert(out@.skip(56) =~= value@);
}

/// The answer to an open gives the file first, in four bytes, and then what was
/// done.
pub proof fn law_create_reply(
    body: &[u8],
    r: Result<CreateReply, DecodeError>,
)
    requires
        call_ensures(decode_create_reply, (body,), r),
    ensures
        r is Ok <==> body@.len() >= 5,
        r is Ok ==> r->Ok_0.file_id == bytes::u32_le_at(body@, 0) && r->Ok_0.information == body@[4],
{
}

/// The answer to a read gives a length, and as many bytes.
pub proof fn law_read_reply(
    body: &[u8],
    r: Result<Vec<u8>, DecodeError>,
)
    requires
        call_ensures(decode_read_reply, (body,), r),
    ensures
        r is Ok <==> body@.len() >= 4 && body@.len() >= 4 + bytes::u32_le_at(body@, 0),
        r is Ok ==> r->Ok_0@ == body@.subrange(4, 4 + bytes::u32_le_at(body@, 0)),
{
}

/// The answer to a write is how many bytes were written.
pub proof fn law_write_reply(
    body: &[u8],
    r: Result<u32, DecodeError>,
)
    requires
        call_ensures(decode_write_reply, (body,), r),
    ensures
        r is Ok <==> body@.len() >= 4,
        r is Ok ==> r->Ok_0 == bytes::u32_le_at(body@, 0),
{
}

/// The answer to a listing ends it where it is empty or gives a length of zero;
/// otherwise the entry begins after the length, and its fields stand at fixed
/// offsets of its own.
pub proof fn law_query_directory_reply(
    body: &[u8],
    r: Result<Option<DirectoryEntry>, DecodeError>,
)
    requires
        call_ensures(decode_query_directory_reply, (body,), r),
    ensures
        r is Ok && r->Ok_0 is None <==> body@.len() == 0 || body@.len() >= 4 && bytes::u32_le_at(body@, 0) == 0,
        r matches Ok(Some(entry)) ==> {
            let n = bytes::u32_le_at(body@, 64) as int;
            &&& body@.len() >= 68 + n
            &&& entry.file_index == bytes::u32_le_at(body@, 8)
            &&& entry.creation_time as u64 == bytes::u64_le_at(body@, 12)
            &&& entry.last_access_time as u64 == bytes::u64_le_at(body@, 20)
            &&& entry.last_write_time as u64 == bytes::u64_le_at(body@, 28)
            &&& entry.change_time as u64 == bytes::u64_le_at(body@, 36)
            &&& entry.end_of_file as u64 == bytes::u64_le_at(body@, 44)
            &&& entry.allocation_size as u64 == bytes::u64_le_at(body@, 52)
            &&& entry.file_attributes == bytes::u32_le_at(body@, 60)
            &&& entry.file_name@ == utf16::text(utf16::byte_units(body@.subrange(68, 68 + n)))
        },
{
    if let Ok(Some(entry)) = r {
        let k = bytes::u32_le_at(body@, 0) as int;
        let e = body@.subrange(4, 4 + k);
        assert(forall|i: int| 0 <= i < k ==> #[trigger] e[i] == body@[4 + i]);
        let n = bytes::u32_le_at(e, 60) as int;
        assert(n == bytes::u32_le_at(body@, 64));
        assert(e.subrange(64, 64 + n) =~= body@.subrange(68, 68 + n));
        lemma_signed(bytes::u64_le_at(e, 8));
        lemma_signed(bytes::u64_le_at(e, 16));
        lemma_signed(bytes::u64_le_at(e, 24));
        lemma_signed(bytes::u64_le_at(e, 32));
        lemma_signed(bytes::u64_le_at(e, 40));
        lemma_signed(bytes::u64_le_at(e, 48));
        assert(entry@.creation_time == bytes::u64_le_at(e, 8) as i64);
    }
}

proof fn lemma_signed(v: u64)
    ensures
        (v as i64) as u64 == v,
{
    assert((v as i64) as u64 == v) by (bit_vector);
}

} // verus!
