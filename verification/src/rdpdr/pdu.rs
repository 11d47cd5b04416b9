//! Messages of the device redirection channel: a header that names a component
//! and a kind of message, and a body up to the end.
//!
//! The server announces itself; the client names itself, and is sent first what
//! the server can do and then the confirmation of its number; the client says
//! what it can do, and is told that the user is logged on; from then on it
//! announces devices.

use vstd::prelude::*;
use vstd::slice::{slice_subrange, slice_to_vec};

use crate::bytes;
use crate::cursor;
use crate::cursor::{ReadCursor, WriteBuf};
use crate::model;
use crate::text;
use crate::utf16;
use crate::DecodeError;

verus! {

broadcast use {bytes::group_bytes, model::lemma_views_push};

pub const CHANNEL_NAME: &'static str = "rdpdr";

pub const RDPDR_CTYP_CORE: u16 = 0x4472;

/// The component of what concerns printers only. Such messages advise of
/// something and ask for nothing.
pub const RDPDR_CTYP_PRN: u16 = 0x5052;

pub const PAKID_CORE_SERVER_ANNOUNCE: u16 = 0x496E;

pub const PAKID_CORE_CLIENTID_CONFIRM: u16 = 0x4343;

pub const PAKID_CORE_CLIENT_NAME: u16 = 0x434E;

pub const PAKID_CORE_DEVICELIST_ANNOUNCE: u16 = 0x4441;

pub const PAKID_CORE_DEVICELIST_REMOVE: u16 = 0x444D;

pub const PAKID_CORE_DEVICE_REPLY: u16 = 0x6472;

pub const PAKID_CORE_DEVICE_IOREQUEST: u16 = 0x4952;

pub const PAKID_CORE_DEVICE_IOCOMPLETION: u16 = 0x4943;

pub const PAKID_CORE_SERVER_CAPABILITY: u16 = 0x5350;

pub const PAKID_CORE_CLIENT_CAPABILITY: u16 = 0x4350;

pub const PAKID_CORE_USER_LOGGEDON: u16 = 0x554C;

pub const PAKID_PRN_CACHE_DATA: u16 = 0x5043;

pub const PAKID_PRN_USING_XPS: u16 = 0x5543;

pub const VERSION_MAJOR: u16 = 0x0001;

pub const VERSION_MINOR: u16 = 0x000C;

pub const CAP_GENERAL_TYPE: u16 = 0x0001;

pub const CAP_PRINTER_TYPE: u16 = 0x0002;

pub const CAP_DRIVE_TYPE: u16 = 0x0004;

pub const GENERAL_CAPABILITY_VERSION_02: u32 = 0x0000_0002;

pub const PRINT_CAPABILITY_VERSION_01: u32 = 0x0000_0001;

pub const DRIVE_CAPABILITY_VERSION_02: u32 = 0x0000_0002;

pub const CAPABILITY_HEADER_LENGTH: u16 = 8;

/// Devices may be withdrawn (1), clients may name themselves (2), and the
/// client is told that the user is logged on (4).
pub const EXTENDED_PDUS: u32 = 0x0000_0007;

pub const ENABLE_ASYNCIO: u32 = 0x0000_0001;

pub const RDPDR_DTYP_SERIAL: u32 = 0x0000_0001;

pub const RDPDR_DTYP_PARALLEL: u32 = 0x0000_0002;

pub const RDPDR_DTYP_PRINT: u32 = 0x0000_0004;

pub const RDPDR_DTYP_FILESYSTEM: u32 = 0x0000_0008;

pub const RDPDR_DTYP_SMARTCARD: u32 = 0x0000_0020;

pub const STATUS_SUCCESS: u32 = 0x0000_0000;

pub const STATUS_UNSUCCESSFUL: u32 = 0xC000_0001;

pub const RDPDR_PRINTER_ANNOUNCE_FLAG_ASCII: u32 = 0x0000_0001;

pub const RDPDR_PRINTER_ANNOUNCE_FLAG_DEFAULTPRINTER: u32 = 0x0000_0002;

pub open spec fn header(packet_id: u16) -> Seq<u8> {
    bytes::le16(RDPDR_CTYP_CORE) + bytes::le16(packet_id)
}

pub fn write_header(out: &mut Vec<u8>, packet_id: u16)
    ensures
        final(out)@ == old(out)@ + header(packet_id),
{
    let ghost before = out@;
    out.write_u16_le(RDPDR_CTYP_CORE);
    out.write_u16_le(packet_id);
    assert(out@ =~= before + header(packet_id));
}

pub open spec fn server_announce_wire(client_id: u32) -> Seq<u8> {
    header(PAKID_CORE_SERVER_ANNOUNCE) + bytes::le16(VERSION_MAJOR) + bytes::le16(VERSION_MINOR)
        + bytes::le32(client_id)
}

/// The first message on the channel, sent before anything comes in.
pub fn encode_server_announce_request(client_id: u32) -> (out: Vec<u8>)
    ensures
        out@ == server_announce_wire(client_id),
{
    let mut out: Vec<u8> = Vec::with_capacity(12);
    write_header(&mut out, PAKID_CORE_SERVER_ANNOUNCE);
    out.write_u16_le(VERSION_MAJOR);
    out.write_u16_le(VERSION_MINOR);
    out.write_u32_le(client_id);
    assert(out@ =~= server_announce_wire(client_id));
    out
}

pub open spec fn client_id_confirm_wire(client_id: u32) -> Seq<u8> {
    header(PAKID_CORE_CLIENTID_CONFIRM) + bytes::le16(VERSION_MAJOR) + bytes::le16(VERSION_MINOR)
        + bytes::le32(client_id)
}

/// Follows what the server can do, once the client has named itself.
pub fn encode_client_id_confirm(client_id: u32) -> (out: Vec<u8>)
    ensures
        out@ == client_id_confirm_wire(client_id),
{
    let mut out: Vec<u8> = Vec::with_capacity(12);
    write_header(&mut out, PAKID_CORE_CLIENTID_CONFIRM);
    out.write_u16_le(VERSION_MAJOR);
    out.write_u16_le(VERSION_MINOR);
    out.write_u32_le(client_id);
    assert(out@ =~= client_id_confirm_wire(client_id));
    out
}

/// Follows what the client can do. There is nothing but the header.
pub fn encode_user_logged_on() -> (out: Vec<u8>)
    ensures
        out@ == header(PAKID_CORE_USER_LOGGEDON),
{
    let mut out: Vec<u8> = Vec::with_capacity(4);
    write_header(&mut out, PAKID_CORE_USER_LOGGEDON);
    assert(out@ =~= header(PAKID_CORE_USER_LOGGEDON));
    out
}

pub open spec fn general_capability_wire() -> Seq<u8> {
    bytes::le16(CAP_GENERAL_TYPE) + bytes::le16((CAPABILITY_HEADER_LENGTH + 36) as u16)
        + bytes::le32(GENERAL_CAPABILITY_VERSION_02) + bytes::le32(0) + bytes::le32(0)
        + bytes::le16(VERSION_MAJOR) + bytes::le16(VERSION_MINOR) + bytes::le32(0xFFFF_FFFF)
        + bytes::le32(0) + bytes::le32(EXTENDED_PDUS) + bytes::le32(ENABLE_ASYNCIO) + bytes::le32(0)
        + bytes::le32(0)
}

/// A capability that is a kind and a version.
pub open spec fn bare_capability_wire(kind: u16, version: u32) -> Seq<u8> {
    bytes::le16(kind) + bytes::le16(CAPABILITY_HEADER_LENGTH) + bytes::le32(version)
}

pub open spec fn drive_capability_wire(supported: u32) -> Seq<u8> {
    if supported & RDPDR_DTYP_FILESYSTEM != 0 {
        bare_capability_wire(CAP_DRIVE_TYPE, DRIVE_CAPABILITY_VERSION_02)
    } else {
        seq![]
    }
}

pub open spec fn printer_capability_wire(supported: u32) -> Seq<u8> {
    if supported & RDPDR_DTYP_PRINT != 0 {
        bare_capability_wire(CAP_PRINTER_TYPE, PRINT_CAPABILITY_VERSION_01)
    } else {
        seq![]
    }
}

/// How many capabilities go with the kinds of device in `supported`.
pub open spec fn capability_count(supported: u32) -> u16 {
    (1 + (if supported & RDPDR_DTYP_FILESYSTEM != 0 {
        1int
    } else {
        0
    }) + (if supported & RDPDR_DTYP_PRINT != 0 {
        1int
    } else {
        0
    })) as u16
}

pub open spec fn server_capability_wire(supported: u32) -> Seq<u8> {
    header(PAKID_CORE_SERVER_CAPABILITY) + bytes::le16(capability_count(supported)) + bytes::le16(0)
        + general_capability_wire() + drive_capability_wire(supported) + printer_capability_wire(
        supported,
    )
}

fn write_bare_capability(out: &mut Vec<u8>, kind: u16, version: u32)
    ensures
        final(out)@ == old(out)@ + bare_capability_wire(kind, version),
{
    let ghost before = out@;
    out.write_u16_le(kind);
    out.write_u16_le(CAPABILITY_HEADER_LENGTH);
    out.write_u32_le(version);
    assert(out@ =~= before + bare_capability_wire(kind, version));
}

fn write_general_capability(out: &mut Vec<u8>)
    ensures
        final(out)@ == old(out)@ + general_capability_wire(),
{
    let ghost before = out@;
    out.write_u16_le(CAP_GENERAL_TYPE);
    out.write_u16_le(CAPABILITY_HEADER_LENGTH + 36);
    out.write_u32_le(GENERAL_CAPABILITY_VERSION_02);
    out.write_u32_le(0);  // kind of system
    out.write_u32_le(0);  // version of the system
    out.write_u16_le(VERSION_MAJOR);
    out.write_u16_le(VERSION_MINOR);
    out.write_u32_le(0xFFFF_FFFF);  // every request may be issued
    out.write_u32_le(0);  // reserved
    out.write_u32_le(EXTENDED_PDUS);
    out.write_u32_le(ENABLE_ASYNCIO);
    out.write_u32_le(0);  // reserved
    out.write_u32_le(0);  // special devices
    assert(out@ =~= before + general_capability_wire());
}

/// What the server can do: the general capability, and one each for drives and
/// for printers, where `supported` holds them.
pub fn encode_server_capability_request(supported: u32) -> (out: Vec<u8>)
    ensures
        out@ == server_capability_wire(supported),
{
    let mut num_capabilities: u16 = 1;
    if supported & RDPDR_DTYP_FILESYSTEM != 0 {
        num_capabilities = num_capabilities + 1;
    }
    if supported & RDPDR_DTYP_PRINT != 0 {
        num_capabilities = num_capabilities + 1;
    }
    let mut out: Vec<u8> = Vec::new();
    write_header(&mut out, PAKID_CORE_SERVER_CAPABILITY);
    out.write_u16_le(num_capabilities);
    out.write_u16_le(0);
    write_general_capability(&mut out);
    if supported & RDPDR_DTYP_FILESYSTEM != 0 {
        write_bare_capability(&mut out, CAP_DRIVE_TYPE, DRIVE_CAPABILITY_VERSION_02);
    }
    if supported & RDPDR_DTYP_PRINT != 0 {
        write_bare_capability(&mut out, CAP_PRINTER_TYPE, PRINT_CAPABILITY_VERSION_01);
    }
    assert(out@ =~= server_capability_wire(supported));
    out
}

pub open spec fn device_reply_wire(device_id: u32, status: u32) -> Seq<u8> {
    header(PAKID_CORE_DEVICE_REPLY) + bytes::le32(device_id) + bytes::le32(status)
}

pub fn encode_device_reply(device_id: u32, status: u32) -> (out: Vec<u8>)
    ensures
        out@ == device_reply_wire(device_id, status),
{
    let mut out: Vec<u8> = Vec::with_capacity(12);
    write_header(&mut out, PAKID_CORE_DEVICE_REPLY);
    out.write_u32_le(device_id);
    out.write_u32_le(status);
    assert(out@ =~= device_reply_wire(device_id, status));
    out
}

/// A device that the client offers.
#[derive(Debug, Clone, PartialEq, Eq)]
pub struct DeviceAnnounce {
    pub device_type: u32,
    pub device_id: u32,
    /// What stands in the eight bytes for the name before the first zero.
    pub preferred_dos_name: String,
    /// Of a printer, what [`decode_printer_device_data`] reads.
    pub device_data: Vec<u8>,
}

#[verifier::ext_equal]
pub struct DeviceAnnounceView {
    pub device_type: u32,
    pub device_id: u32,
    pub preferred_dos_name: Seq<char>,
    pub device_data: Seq<u8>,
}

impl View for DeviceAnnounce {
    type V = DeviceAnnounceView;

    open spec fn view(&self) -> DeviceAnnounceView {
        DeviceAnnounceView {
            device_type: self.device_type,
            device_id: self.device_id,
            preferred_dos_name: self.preferred_dos_name@,
            device_data: self.device_data@,
        }
    }
}

/// The name in a field of fixed size.
pub open spec fn dos_name(field: Seq<u8>) -> Seq<char> {
    text::readable(field.subrange(0, bytes::until_zero(field)))
}

/// The device at offset `p`, and where the next one starts.
pub open spec fn parse_device(b: Seq<u8>, p: int) -> Result<
    (DeviceAnnounceView, int),
    DecodeError,
> {
    if p + 4 > b.len() {
        Err(cursor::short(b, p, 4))
    } else if p + 8 > b.len() {
        Err(cursor::short(b, p + 4, 4))
    } else if p + 16 > b.len() {
        Err(cursor::short(b, p + 8, 8))
    } else if p + 20 > b.len() {
        Err(cursor::short(b, p + 16, 4))
    } else {
        let n = bytes::u32_le_at(b, p + 16) as int;
        if p + 20 + n > b.len() {
            Err(cursor::short(b, p + 20, n))
        } else {
            Ok(
                (
                    DeviceAnnounceView {
                        device_type: bytes::u32_le_at(b, p),
                        device_id: bytes::u32_le_at(b, p + 4),
                        preferred_dos_name: dos_name(b.subrange(p + 8, p + 16)),
                        device_data: b.subrange(p + 20, p + 20 + n),
                    },
                    p + 20 + n,
                ),
            )
        }
    }
}

/// `n` devices from offset `p` on.
pub open spec fn parse_devices(b: Seq<u8>, p: int, n: int) -> Result<
    (Seq<DeviceAnnounceView>, int),
    DecodeError,
>
    decreases n,
{
    if n <= 0 {
        Ok((seq![], p))
    } else {
        match parse_devices(b, p, n - 1) {
            Err(e) => Err(e),
            Ok((devices, q)) => match parse_device(b, q) {
                Err(e) => Err(e),
                Ok((device, next)) => Ok((devices.push(device), next)),
            },
        }
    }
}

proof fn lemma_devices_error_stays(b: Seq<u8>, p: int, m: int, n: int)
    requires
        0 <= m <= n,
        parse_devices(b, p, m) is Err,
    ensures
        parse_devices(b, p, n) == parse_devices(b, p, m),
    decreases n - m,
{
    if m < n {
        lemma_devices_error_stays(b, p, m, n - 1);
    }
}

/// A list of devices: how many, and each of them.
pub open spec fn parse_device_list(b: Seq<u8>) -> Result<Seq<DeviceAnnounceView>, DecodeError> {
    if b.len() < 4 {
        Err(cursor::short(b, 0, 4))
    } else {
        match parse_devices(b, 4, bytes::u32_le_at(b, 0) as int) {
            Err(e) => Err(e),
            Ok((devices, _)) => Ok(devices),
        }
    }
}

fn read_device(cursor: &mut ReadCursor<'_>) -> (r: Result<DeviceAnnounce, DecodeError>)
    requires
        old(cursor).wf(),
    ensures
        final(cursor).wf(),
        final(cursor).data() == old(cursor).data(),
        cursor::reads_view(
            r,
            final(cursor).offset(),
            parse_device(old(cursor).data(), old(cursor).offset()),
        ),
{
    let device_type: u32 = cursor.take_u32_le()?;
    let device_id: u32 = cursor.take_u32_le()?;
    let field: &[u8] = cursor.take_slice(8)?;
    let end: usize = bytes::find_zero(field);
    let preferred_dos_name: String = text::lossy_text(slice_subrange(field, 0, end));
    let device_data_length: u32 = cursor.take_u32_le()?;
    let device_data: &[u8] = cursor.take_slice(device_data_length as usize)?;
    Ok(
        DeviceAnnounce {
            device_type,
            device_id,
            preferred_dos_name,
            device_data: slice_to_vec(device_data),
        },
    )
}

fn decode_device_list_announce(body: &[u8]) -> (r: Result<Vec<DeviceAnnounce>, DecodeError>)
    ensures
        match parse_device_list(body@) {
            Ok(devices) => r is Ok && model::views(r->Ok_0@) == devices,
            Err(e) => r == Err::<Vec<DeviceAnnounce>, DecodeError>(e),
        },
{
    let mut cursor = ReadCursor::new(body);
    let device_count: u32 = cursor.take_u32_le()?;
    let mut devices: Vec<DeviceAnnounce> = Vec::new();
    assert(model::views(devices@) =~= seq![]);
    let mut i: u32 = 0;
    while i < device_count
        invariant
            i <= device_count,
            body@.len() >= 4,
            device_count == bytes::u32_le_at(body@, 0),
            cursor.wf(),
            cursor.data() == body@,
            parse_devices(body@, 4, i as int) == Ok::<(Seq<DeviceAnnounceView>, int), DecodeError>(
                (model::views(devices@), cursor.offset()),
            ),
        decreases device_count - i,
    {
        match read_device(&mut cursor) {
            Ok(device) => {
                devices.push(device);
                i = i + 1;
            },
            Err(e) => {
                proof {
                    lemma_devices_error_stays(body@, 4, i + 1, device_count as int);
                }
                return Err(e);
            },
        }
    }
    Ok(devices)
}

/// `n` device numbers from offset `p` on.
pub open spec fn device_ids_at(b: Seq<u8>, p: int, n: int) -> Seq<u32> {
    Seq::new(n as nat, |i: int| bytes::u32_le_at(b, p + 4 * i))
}

/// A list of the numbers of devices: how many, and each of them.
pub open spec fn parse_device_ids(b: Seq<u8>) -> Result<Seq<u32>, DecodeError> {
    if b.len() < 4 {
        Err(cursor::short(b, 0, 4))
    } else {
        let n = bytes::u32_le_at(b, 0) as int;
        if 4 + 4 * n > b.len() {
            Err(cursor::short(b, b.len() as int / 4 * 4, 4))
        } else {
            Ok(device_ids_at(b, 4, n))
        }
    }
}

fn decode_device_list_remove(body: &[u8]) -> (r: Result<Vec<u32>, DecodeError>)
    ensures
        match parse_device_ids(body@) {
            Ok(ids) => r is Ok && r->Ok_0@ == ids,
            Err(e) => r == Err::<Vec<u32>, DecodeError>(e),
        },
{
    let mut cursor = ReadCursor::new(body);
    let count: u32 = cursor.take_u32_le()?;
    let mut ids: Vec<u32> = Vec::new();
    let mut i: u32 = 0;
    while i < count
        invariant
            i <= count,
            body@.len() >= 4,
            count == bytes::u32_le_at(body@, 0),
            cursor.wf(),
            cursor.data() == body@,
            cursor.offset() == 4 + 4 * i,
            ids@ =~= device_ids_at(body@, 4, i as int),
        decreases count - i,
    {
        let id: u32 = cursor.take_u32_le()?;
        ids.push(id);
        i = i + 1;
    }
    Ok(ids)
}

/// How a printer describes itself.
#[derive(Debug, Clone, PartialEq, Eq)]
pub struct PrinterDeviceData {
    pub driver_name: String,
    pub print_name: String,
    pub is_default: bool,
}

#[verifier::ext_equal]
pub struct PrinterDeviceDataView {
    pub driver_name: Seq<char>,
    pub print_name: Seq<char>,
    pub is_default: bool,
}

impl View for PrinterDeviceData {
    type V = PrinterDeviceDataView;

    open spec fn view(&self) -> PrinterDeviceDataView {
        PrinterDeviceDataView {
            driver_name: self.driver_name@,
            print_name: self.print_name@,
            is_default: self.is_default,
        }
    }
}

/// Text without the NUL characters at its end.
pub open spec fn trimmed(s: Seq<char>) -> Seq<char>
    decreases s.len(),
{
    if s.len() > 0 && s.last() == '\0' {
        trimmed(s.drop_last())
    } else {
        s
    }
}

proof fn lemma_trimmed(s: Seq<char>, keep: int)
    requires
        0 <= keep <= s.len(),
        keep > 0 ==> s[keep - 1] != '\0',
        forall|i: int| keep <= i < s.len() ==> s[i] == '\0',
    ensures
        trimmed(s) == s.subrange(0, keep),
    decreases s.len(),
{
    if keep < s.len() {
        lemma_trimmed(s.drop_last(), keep);
        assert(s.drop_last().subrange(0, keep) =~= s.subrange(0, keep));
    } else {
        assert(s.subrange(0, keep) =~= s);
    }
}

fn trim_nuls(s: &str) -> (r: String)
    ensures
        r@ == trimmed(s@),
{
    let mut seen: usize = 0;
    let mut keep: usize = 0;
    let n: usize = s.unicode_len();
    for c in iter: s.chars()
        invariant
            iter.seq() == s@,
            n == s@.len(),
            seen == iter.index(),
            keep <= seen,
            keep > 0 ==> s@[keep - 1] != '\0',
            forall|i: int| keep <= i < seen ==> s@[i] == '\0',
    {
        seen = seen + 1;
        if c != '\0' {
            keep = seen;
        }
    }
    proof {
        lemma_trimmed(s@, keep as int);
    }
    s.substring_char(0, keep).to_owned()
}

/// A name of `b`, in one byte a character or in two.
pub open spec fn printer_text(b: Seq<u8>, ascii: bool) -> Seq<char> {
    trimmed(
        if ascii {
            text::readable(b)
        } else {
            utf16::text(utf16::byte_units(b))
        },
    )
}

/// How a printer describes itself: flags, a code page, the lengths of three
/// names and of what else there is, and the three names. `None` where that is
/// cut short.
pub open spec fn parse_printer(b: Seq<u8>) -> Option<PrinterDeviceDataView> {
    let flags = bytes::u32_le_at(b, 0);
    let ascii = flags & RDPDR_PRINTER_ANNOUNCE_FLAG_ASCII != 0;
    let pnp_end = 24 + bytes::u32_le_at(b, 8);
    let driver_end = pnp_end + bytes::u32_le_at(b, 12);
    let print_end = driver_end + bytes::u32_le_at(b, 16);
    if b.len() < 24 || print_end > b.len() {
        None
    } else {
        Some(
            PrinterDeviceDataView {
                driver_name: printer_text(b.subrange(pnp_end, driver_end), ascii),
                print_name: printer_text(b.subrange(driver_end, print_end), ascii),
                is_default: flags & RDPDR_PRINTER_ANNOUNCE_FLAG_DEFAULTPRINTER != 0,
            },
        )
    }
}

/// How a printer describes itself. What is cut short is no error: the names
/// are for show, and a device is accepted without them.
pub fn decode_printer_device_data(data: &[u8]) -> (r: Option<PrinterDeviceData>)
    ensures
        model::opt_view(r) == parse_printer(data@),
{
    if data.len() < 24 {
        return None;
    }
    let mut cursor = ReadCursor::new(data);
    let flags: u32 = cursor.read_u32_le().ok()?;
    let _code_page: u32 = cursor.read_u32_le().ok()?;
    let pnp_name_len: u32 = cursor.read_u32_le().ok()?;
    let driver_name_len: u32 = cursor.read_u32_le().ok()?;
    let print_name_len: u32 = cursor.read_u32_le().ok()?;
    let _cached_fields_len: u32 = cursor.read_u32_le().ok()?;
    let ascii: bool = flags & RDPDR_PRINTER_ANNOUNCE_FLAG_ASCII != 0;

    let _pnp_name: String = decode_printer_string(&mut cursor, pnp_name_len as usize, ascii)?;
    let driver_name: String = decode_printer_string(&mut cursor, driver_name_len as usize, ascii)?;
    let print_name: String = decode_printer_string(&mut cursor, print_name_len as usize, ascii)?;
    Some(
        PrinterDeviceData {
            driver_name,
            print_name,
            is_default: flags & RDPDR_PRINTER_ANNOUNCE_FLAG_DEFAULTPRINTER != 0,
        },
    )
}

fn decode_printer_string(cursor: &mut ReadCursor<'_>, len: usize, ascii: bool) -> (r: Option<
    String,
>)
    requires
        old(cursor).wf(),
    ensures
        final(cursor).wf(),
        final(cursor).data() == old(cursor).data(),
        match r {
            Some(s) => {
                &&& old(cursor).offset() + len <= old(cursor).data().len()
                &&& final(cursor).offset() == old(cursor).offset() + len
                &&& s@ == printer_text(
                    old(cursor).data().subrange(
                        old(cursor).offset(),
                        old(cursor).offset() + len,
                    ),
                    ascii,
                )
            },
            None => old(cursor).offset() + len > old(cursor).data().len(),
        },
{
    let bytes: &[u8] = cursor.read_slice(len).ok()?;
    let decoded: String = if ascii {
        text::lossy_text(bytes)
    } else {
        utf16::decode_units(bytes)
    };
    Some(trim_nuls(decoded.as_str()))
}

/// What a client sends.
#[derive(Debug, Clone, PartialEq, Eq)]
pub enum ClientMessage {
    AnnounceReply,
    ClientName,
    ClientCapability,
    DeviceListAnnounce(Vec<DeviceAnnounce>),
    /// The numbers of devices that are no longer there.
    DeviceListRemove(Vec<u32>),
    UserLoggedOn,
    /// The body is for whoever knows what was asked for.
    DeviceIoCompletion { device_id: u32, completion_id: u32, io_status: u32, body: Vec<u8> },
    Other,
}

#[verifier::ext_equal]
pub enum ClientMessageView {
    AnnounceReply,
    ClientName,
    ClientCapability,
    DeviceListAnnounce(Seq<DeviceAnnounceView>),
    DeviceListRemove(Seq<u32>),
    UserLoggedOn,
    DeviceIoCompletion { device_id: u32, completion_id: u32, io_status: u32, body: Seq<u8> },
    Other,
}

impl View for ClientMessage {
    type V = ClientMessageView;

    open spec fn view(&self) -> ClientMessageView {
        match self {
            ClientMessage::AnnounceReply => ClientMessageView::AnnounceReply,
            ClientMessage::ClientName => ClientMessageView::ClientName,
            ClientMessage::ClientCapability => ClientMessageView::ClientCapability,
            ClientMessage::DeviceListAnnounce(devices) => ClientMessageView::DeviceListAnnounce(
                model::views(devices@),
            ),
            ClientMessage::DeviceListRemove(ids) => ClientMessageView::DeviceListRemove(ids@),
            ClientMessage::UserLoggedOn => ClientMessageView::UserLoggedOn,
            ClientMessage::DeviceIoCompletion { device_id, completion_id, io_status, body } =>
                ClientMessageView::DeviceIoCompletion {
                device_id: *device_id,
                completion_id: *completion_id,
                io_status: *io_status,
                body: body@,
            },
            ClientMessage::Other => ClientMessageView::Other,
        }
    }
}

/// The end of a request: who answers, which request, and how it went.
pub open spec fn parse_completion(b: Seq<u8>) -> Result<ClientMessageView, DecodeError> {
    if b.len() < 12 {
        Err(cursor::short(b, b.len() as int / 4 * 4, 4))
    } else {
        Ok(
            ClientMessageView::DeviceIoCompletion {
                device_id: bytes::u32_le_at(b, 0),
                completion_id: bytes::u32_le_at(b, 4),
                io_status: bytes::u32_le_at(b, 8),
                body: b.skip(12),
            },
        )
    }
}

/// A message of a client. Which component it belongs to makes no difference.
pub open spec fn parse_client_message(b: Seq<u8>) -> Result<ClientMessageView, DecodeError> {
    if b.len() < 4 {
        Err(cursor::short(b, b.len() as int / 2 * 2, 2))
    } else {
        let id = bytes::u16_le_at(b, 2);
        if id == PAKID_CORE_CLIENTID_CONFIRM {
            Ok(ClientMessageView::AnnounceReply)
        } else if id == PAKID_CORE_CLIENT_NAME {
            Ok(ClientMessageView::ClientName)
        } else if id == PAKID_CORE_CLIENT_CAPABILITY {
            Ok(ClientMessageView::ClientCapability)
        } else if id == PAKID_CORE_DEVICELIST_ANNOUNCE {
            match parse_device_list(b.skip(4)) {
                Err(e) => Err(e),
                Ok(devices) => Ok(ClientMessageView::DeviceListAnnounce(devices)),
            }
        } else if id == PAKID_CORE_DEVICELIST_REMOVE {
            match parse_device_ids(b.skip(4)) {
                Err(e) => Err(e),
                Ok(ids) => Ok(ClientMessageView::DeviceListRemove(ids)),
            }
        } else if id == PAKID_CORE_USER_LOGGEDON {
            Ok(ClientMessageView::UserLoggedOn)
        } else if id == PAKID_CORE_DEVICE_IOCOMPLETION {
            parse_completion(b.skip(4))
        } else {
            Ok(ClientMessageView::Other)
        }
    }
}

fn decode_completion(body: &[u8]) -> (r: Result<ClientMessage, DecodeError>)
    ensures
        cursor::decodes_view(r, parse_completion(body@)),
{
    let mut cursor = ReadCursor::new(body);
    let device_id: u32 = cursor.take_u32_le()?;
    let completion_id: u32 = cursor.take_u32_le()?;
    let io_status: u32 = cursor.take_u32_le()?;
    let rest: &[u8] = cursor.read_rest();
    assert(rest@ =~= body@.skip(12));
    Ok(
        ClientMessage::DeviceIoCompletion {
            device_id,
            completion_id,
            io_status,
            body: slice_to_vec(rest),
        },
    )
}

pub fn decode_client_message(input: &[u8]) -> (r: Result<ClientMessage, DecodeError>)
    ensures
        cursor::decodes_view(r, parse_client_message(input@)),
{
    let mut cursor = ReadCursor::new(input);
    let _component: u16 = cursor.take_u16_le()?;
    let packet_id: u16 = cursor.take_u16_le()?;
    let body: &[u8] = cursor.read_rest();
    assert(body@ =~= input@.skip(4));
    if packet_id == PAKID_CORE_CLIENTID_CONFIRM {
        Ok(ClientMessage::AnnounceReply)
    } else if packet_id == PAKID_CORE_CLIENT_NAME {
        Ok(ClientMessage::ClientName)
    } else if packet_id == PAKID_CORE_CLIENT_CAPABILITY {
        Ok(ClientMessage::ClientCapability)
    } else if packet_id == PAKID_CORE_DEVICELIST_ANNOUNCE {
        let devices: Vec<DeviceAnnounce> = decode_device_list_announce(body)?;
        Ok(ClientMessage::DeviceListAnnounce(devices))
    } else if packet_id == PAKID_CORE_DEVICELIST_REMOVE {
        let ids: Vec<u32> = decode_device_list_remove(body)?;
        Ok(ClientMessage::DeviceListRemove(ids))
    } else if packet_id == PAKID_CORE_USER_LOGGEDON {
        Ok(ClientMessage::UserLoggedOn)
    } else if packet_id == PAKID_CORE_DEVICE_IOCOMPLETION {
        decode_completion(body)
    } else {
        Ok(ClientMessage::Other)
    }
}

/// The server announces itself with a version, 1.12, and a number, which it
/// confirms later.
pub proof fn law_announce_bytes(
    client_id: u32,
    announce: Vec<u8>,
    confirm: Vec<u8>,
    logged_on: Vec<u8>,
)
    requires
        call_ensures(encode_server_announce_request, (client_id,), announce),
        call_ensures(encode_client_id_confirm, (client_id,), confirm),
        call_ensures(encode_user_logged_on, (), logged_on),
    ensures
        announce@.len() == 12,
        bytes::u16_le_at(announce@, 0) == 0x4472,
        bytes::u16_le_at(announce@, 2) == 0x496E,
        bytes::u16_le_at(announce@, 4) == 1,
        bytes::u16_le_at(announce@, 6) == 12,
        bytes::u32_le_at(announce@, 8) == client_id,
        confirm@.len() == 12,
        bytes::u16_le_at(confirm@, 0) == 0x4472,
        bytes::u16_le_at(confirm@, 2) == 0x4343,
        bytes::u16_le_at(confirm@, 4) == 1,
        bytes::u16_le_at(confirm@, 6) == 12,
        bytes::u32_le_at(confirm@, 8) == client_id,
        logged_on@.len() == 4,
        bytes::u16_le_at(logged_on@, 0) == 0x4472,
        bytes::u16_le_at(logged_on@, 2) == 0x554C,
{
}

/// A device is accepted or not by its number and a status.
pub proof fn law_device_reply_bytes(
    device_id: u32,
    status: u32,
    out: Vec<u8>,
)
    requires
        call_ensures(encode_device_reply, (device_id, status), out),
    ensures
        out@.len() == 12,
        bytes::u16_le_at(out@, 0) == 0x4472,
        bytes::u16_le_at(out@, 2) == 0x6472,
        bytes::u32_le_at(out@, 4) == device_id,
        bytes::u32_le_at(out@, 8) == status,
{
}

/// What the server can do begins with how many capabilities there are: the general
/// one, and one each for drives and for printers where they are wanted, drives first.
pub proof fn law_server_capability_bytes(supported: u32, out: Vec<u8>)
    requires
        call_ensures(encode_server_capability_request, (supported,), out),
    ensures
        ({
            let drives = supported / 8 % 2 == 1;
            let printers = supported / 4 % 2 == 1;
            &&& bytes::u16_le_at(out@, 0) == 0x4472
            &&& bytes::u16_le_at(out@, 2) == 0x5350
            &&& bytes::u16_le_at(out@, 4) == 1 + (if drives {
                1int
            } else {
                0
            }) + (if printers {
                1int
            } else {
                0
            })
            &&& bytes::u16_le_at(out@, 6) == 0
            &&& bytes::u16_le_at(out@, 8) == 1
            &&& bytes::u16_le_at(out@, 10) == 44
            &&& bytes::u32_le_at(out@, 12) == 2
            &&& bytes::u16_le_at(out@, 24) == 1
            &&& bytes::u16_le_at(out@, 26) == 12
            &&& bytes::u32_le_at(out@, 28) == 0xFFFF_FFFF
            &&& bytes::u32_le_at(out@, 36) == 7
            &&& bytes::u32_le_at(out@, 40) == 1
            &&& drives ==> bytes::u16_le_at(out@, 52) == 4 && bytes::u16_le_at(out@, 54) == 8
                && bytes::u32_le_at(out@, 56) == 2
            &&& !drives && printers ==> bytes::u16_le_at(out@, 52) == 2 && bytes::u16_le_at(
                out@,
                54,
            ) == 8 && bytes::u32_le_at(out@, 56) == 1
            &&& drives && printers ==> bytes::u16_le_at(out@, 60) == 2 && bytes::u16_le_at(out@, 62)
                == 8 && bytes::u32_le_at(out@, 64) == 1
            &&& out@.len() == 52 + (if drives {
                8int
            } else {
                0
            }) + (if printers {
                8int
            } else {
                0
            })
        }),
{
    broadcast use bytes::group_holds;

    assert(supported & 8 != 0 <==> supported / 8 % 2 == 1) by (bit_vector);
    assert(supported & 4 != 0 <==> supported / 4 % 2 == 1) by (bit_vector);
    bytes::lemma_holds_self(out@);
}

/// A message of a client is known by its third and fourth byte. A completion names
/// the device, the request and the status, and the rest is for whoever asked.
pub proof fn law_client_message_bytes(input: &[u8], r: Result<ClientMessage, DecodeError>)
    requires
        call_ensures(decode_client_message, (input,), r),
        r is Ok,
    ensures
        input@.len() >= 4,
        r->Ok_0 is AnnounceReply <==> bytes::u16_le_at(input@, 2) == 0x4343,
        r->Ok_0 is ClientName <==> bytes::u16_le_at(input@, 2) == 0x434E,
        r->Ok_0 is ClientCapability <==> bytes::u16_le_at(input@, 2) == 0x4350,
        r->Ok_0 is DeviceListAnnounce <==> bytes::u16_le_at(input@, 2) == 0x4441,
        r->Ok_0 is DeviceListRemove <==> bytes::u16_le_at(input@, 2) == 0x444D,
        r->Ok_0 is UserLoggedOn <==> bytes::u16_le_at(input@, 2) == 0x554C,
        r->Ok_0 is DeviceIoCompletion <==> bytes::u16_le_at(input@, 2) == 0x4943,
        r->Ok_0 matches ClientMessage::DeviceIoCompletion {
            device_id,
            completion_id,
            io_status,
            body,
        } ==> {
            &&& input@.len() >= 16
            &&& device_id == bytes::u32_le_at(input@, 4)
            &&& completion_id == bytes::u32_le_at(input@, 8)
            &&& io_status == bytes::u32_le_at(input@, 12)
            &&& body@ == input@.skip(16)
        },
        r->Ok_0 matches ClientMessage::DeviceListRemove(ids) ==> {
            &&& ids@.len() == bytes::u32_le_at(input@, 4)
            &&& forall|i: int|
                0 <= i < ids@.len() ==> #[trigger] ids@[i] == bytes::u32_le_at(input@, 8 + 4 * i)
        },
        r->Ok_0 matches ClientMessage::DeviceListAnnounce(devices) ==> {
            &&& devices@.len() == bytes::u32_le_at(input@, 4)
            &&& devices@.len() >= 1 ==> {
                let n = bytes::u32_le_at(input@, 24);
                &&& devices@[0].device_type == bytes::u32_le_at(input@, 8)
                &&& devices@[0].device_id == bytes::u32_le_at(input@, 12)
                &&& devices@[0].preferred_dos_name@ == dos_name(input@.subrange(16, 24))
                &&& devices@[0].device_data@ == input@.subrange(28, 28 + n)
            }
        },
{
    let b = input@.skip(4);
    assert(forall|i: int| 0 <= i < b.len() ==> #[trigger] b[i] == input@[4 + i]);
    match r->Ok_0 {
        ClientMessage::DeviceIoCompletion { device_id, completion_id, io_status, body } => {
            assert(b.skip(12) =~= input@.skip(16));
        },
        ClientMessage::DeviceListRemove(ids) => {
            assert forall|i: int| 0 <= i < ids@.len() implies #[trigger] ids@[i]
                == bytes::u32_le_at(input@, 8 + 4 * i) by {
                assert(ids@[i] == bytes::u32_le_at(b, 4 + 4 * i));
            }
        },
        ClientMessage::DeviceListAnnounce(devices) => {
            let n = bytes::u32_le_at(b, 0) as int;
            lemma_devices_from(b, 4, n);
            if n >= 1 {
                assert(model::views(devices@)[0] == devices@[0]@);
                law_device_bytes(b, 4);
                assert(b.subrange(12, 20) =~= input@.subrange(16, 24));
                let k = bytes::u32_le_at(b, 20);
                assert(b.subrange(24, 24 + k) =~= input@.subrange(28, 28 + k));
            }
        },
        _ => {},
    }
}

/// A device is its kind, its number, eight bytes with its name, and its data after
/// its length.
pub proof fn law_device_bytes(b: Seq<u8>, p: int)
    requires
        0 <= p,
        parse_device(b, p) is Ok,
    ensures
        ({
            let (v, q) = parse_device(b, p)->Ok_0;
            &&& v.device_type == bytes::u32_le_at(b, p)
            &&& v.device_id == bytes::u32_le_at(b, p + 4)
            &&& v.preferred_dos_name == dos_name(b.subrange(p + 8, p + 16))
            &&& q == p + 20 + bytes::u32_le_at(b, p + 16) <= b.len()
            &&& v.device_data == b.subrange(p + 20, q)
        }),
{
}

proof fn lemma_devices_from(b: Seq<u8>, p: int, n: int)
    requires
        0 <= n,
        parse_devices(b, p, n) is Ok,
    ensures
        parse_devices(b, p, n)->Ok_0.0.len() == n,
        n >= 1 ==> parse_device(b, p) is Ok && parse_devices(b, p, n)->Ok_0.0[0] == parse_device(
            b,
            p,
        )->Ok_0.0,
    decreases n,
{
    if n > 0 {
        lemma_devices_from(b, p, n - 1);
    }
}

/// The name of a device ends at the first zero of its eight bytes.
pub proof fn law_dos_name(field: Seq<u8>, n: int)
    requires
        0 <= n <= field.len(),
        forall|i: int| 0 <= i < n ==> field[i] != 0,
        n < field.len() ==> field[n] == 0,
    ensures
        dos_name(field) == text::readable(field.take(n)),
{
    bytes::lemma_until_zero(field, n);
    assert(field.subrange(0, n) =~= field.take(n));
}

/// A printer says in its flags whether its names are in single bytes, 1, and whether
/// it is the default, 2. The name of the driver comes before its own, and both after
/// a third that is not used.
pub proof fn law_printer_bytes(data: &[u8], r: Option<PrinterDeviceData>)
    requires
        call_ensures(decode_printer_device_data, (data,), r),
        data@.len() >= 24,
    ensures
        ({
            let b = data@;
            let first = 24 + bytes::u32_le_at(b, 8);
            let second = first + bytes::u32_le_at(b, 12);
            let end = second + bytes::u32_le_at(b, 16);
            let ascii = bytes::u32_le_at(b, 0) % 2 == 1;
            &&& r is Some <==> end <= b.len()
            &&& r matches Some(v) ==> {
                &&& v.is_default == (bytes::u32_le_at(b, 0) / 2 % 2 == 1)
                &&& v.driver_name@ == printer_text(b.subrange(first, second), ascii)
                &&& v.print_name@ == printer_text(b.subrange(second, end), ascii)
            }
        }),
{
    let x = bytes::u32_le_at(data@, 0);
    assert(x & 1 != 0 <==> x % 2 == 1) by (bit_vector);
    assert(x & 2 != 0 <==> x / 2 % 2 == 1) by (bit_vector);
}

/// Names lose the NUL characters at their end, and nothing else.
pub proof fn law_printer_text(b: Seq<u8>, s: Seq<char>)
    ensures
        printer_text(b, true) == trimmed(text::readable(b)),
        printer_text(b, false) == trimmed(utf16::text(utf16::byte_units(b))),
        s.len() > 0 && s.last() != '\0' ==> trimmed(s) == s,
        trimmed(s.push('\0')) == trimmed(s),
{
    assert(s.push('\0').drop_last() =~= s);
}

} // verus!
