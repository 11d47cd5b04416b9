//! The client information message: who logs on, and from where. All text is
//! UTF-16; clients that send another encoding are refused.

use vstd::prelude::*;

use crate::bytes;
use crate::cursor;
use crate::cursor::{ReadCursor, WriteBuf};
use crate::headers;
use crate::headers::{BasicSecurityHeader, BasicSecurityHeaderFlags};
use crate::utf16;
use crate::DecodeError;

verus! {

broadcast use bytes::group_bytes;

#[derive(Debug, Clone, Copy, PartialEq, Eq, Default, Structural)]
pub struct ClientInfoFlags(pub u32);

impl ClientInfoFlags {
    #[verifier::allow_in_spec]
    pub fn mouse() -> Self
        returns
            ClientInfoFlags(0x0001),
    {
        ClientInfoFlags(0x0001)
    }

    #[verifier::allow_in_spec]
    pub fn autologon() -> Self
        returns
            ClientInfoFlags(0x0008),
    {
        ClientInfoFlags(0x0008)
    }

    #[verifier::allow_in_spec]
    pub fn unicode() -> Self
        returns
            ClientInfoFlags(0x0010),
    {
        ClientInfoFlags(0x0010)
    }

    #[verifier::allow_in_spec]
    pub fn enable_windows_key() -> Self
        returns
            ClientInfoFlags(0x0100),
    {
        ClientInfoFlags(0x0100)
    }

    /// Whether every flag of `flag` is set.
    #[verifier::allow_in_spec]
    pub fn contains(self, flag: Self) -> bool
        returns
            self.0 & flag.0 == flag.0,
    {
        self.0 & flag.0 == flag.0
    }
}

impl core::ops::BitOr for ClientInfoFlags {
    type Output = ClientInfoFlags;

    fn bitor(self, rhs: Self) -> (r: ClientInfoFlags) {
        ClientInfoFlags(self.0 | rhs.0)
    }
}

impl vstd::std_specs::ops::BitOrSpecImpl for ClientInfoFlags {
    open spec fn obeys_bitor_spec() -> bool {
        true
    }

    open spec fn bitor_req(self, rhs: Self) -> bool {
        true
    }

    open spec fn bitor_spec(self, rhs: Self) -> ClientInfoFlags {
        ClientInfoFlags(self.0 | rhs.0)
    }
}

/// Text as UTF-16 bytes.
pub open spec fn encoded(s: Seq<char>) -> Seq<u8> {
    utf16::unit_bytes(utf16::units(s))
}

/// Text that is followed by a NUL, which its length on the wire leaves out.
pub open spec fn string_body(s: Seq<char>) -> Seq<u8> {
    encoded(s) + bytes::le16(0)
}

/// Text of `n` bytes at offset `p` with its NUL, and the offset after both.
pub open spec fn parse_string_body(b: Seq<u8>, p: int, n: int) -> Result<
    (Seq<char>, int),
    DecodeError,
> {
    if p + n > b.len() {
        Err(cursor::short(b, p, n))
    } else if p + n + 2 > b.len() {
        Err(cursor::short(b, p + n, 2))
    } else {
        Ok((utf16::text(utf16::byte_units(b.subrange(p, p + n))), p + n + 2))
    }
}

/// Text after its length, which counts the NUL in.
pub open spec fn counted_string(s: Seq<char>) -> Seq<u8> {
    bytes::le16(bytes::low16(2int + encoded(s).len())) + encoded(s) + bytes::le16(0)
}

/// Text after its length, read up to its first NUL, and the offset after it.
pub open spec fn parse_counted_string(b: Seq<u8>, p: int) -> Result<(Seq<char>, int), DecodeError> {
    if p + 2 > b.len() {
        Err(cursor::short(b, p, 2))
    } else {
        let n = bytes::u16_le_at(b, p);
        if p + 2 + n > b.len() {
            Err(cursor::short(b, p + 2, n as int))
        } else {
            Ok((utf16::fixed_text(b.subrange(p + 2, p + 2 + n)), p + 2 + n))
        }
    }
}

fn write_string_body(out: &mut Vec<u8>, body: &[u8])
    ensures
        final(out)@ == old(out)@ + (body@ + bytes::le16(0)),
{
    let ghost before = out@;
    out.write_slice(body);
    out.write_u16_le(0);  // NUL
    assert(out@ =~= before + (body@ + bytes::le16(0)));
}

fn read_string_body(cursor: &mut ReadCursor<'_>, len: usize) -> (r: Result<String, DecodeError>)
    requires
        old(cursor).wf(),
    ensures
        final(cursor).wf(),
        final(cursor).data() == old(cursor).data(),
        cursor::reads_view(
            r,
            final(cursor).offset(),
            parse_string_body(old(cursor).data(), old(cursor).offset(), len as int),
        ),
{
    let s: String = utf16::decode_units(cursor.take_slice(len)?);
    cursor.skip(2)?;  // NUL
    Ok(s)
}

fn write_counted_string(out: &mut Vec<u8>, s: &str)
    ensures
        final(out)@ == old(out)@ + counted_string(s@),
{
    let ghost before = out@;
    let body: Vec<u8> = utf16::encode_units(s);
    out.write_u16_le(bytes::len16_plus(body.len(), 2));
    out.write_slice(body.as_slice());
    out.write_u16_le(0);
    assert(out@ =~= before + counted_string(s@));
}

fn read_counted_string(cursor: &mut ReadCursor<'_>) -> (r: Result<String, DecodeError>)
    requires
        old(cursor).wf(),
    ensures
        final(cursor).wf(),
        final(cursor).data() == old(cursor).data(),
        cursor::reads_view(
            r,
            final(cursor).offset(),
            parse_counted_string(old(cursor).data(), old(cursor).offset()),
        ),
{
    let len: u16 = cursor.take_u16_le()?;
    Ok(utf16::read_fixed(cursor.take_slice(len as usize)?))
}

/// Where a client connects from. What a client sends after these fields is
/// left unread.
#[derive(Debug, Clone, PartialEq, Eq, Default)]
pub struct ExtendedClientInfo {
    pub address_family: u16,
    pub address: String,
    pub dir: String,
}

pub struct ExtendedClientInfoView {
    pub address_family: u16,
    pub address: Seq<char>,
    pub dir: Seq<char>,
}

impl View for ExtendedClientInfo {
    type V = ExtendedClientInfoView;

    open spec fn view(&self) -> ExtendedClientInfoView {
        ExtendedClientInfoView {
            address_family: self.address_family,
            address: self.address@,
            dir: self.dir@,
        }
    }
}

impl ExtendedClientInfoView {
    pub open spec fn wire(self) -> Seq<u8> {
        bytes::le16(self.address_family) + counted_string(self.address) + counted_string(self.dir)
    }
}

pub open spec fn parse_extended(b: Seq<u8>, p: int) -> Result<
    (ExtendedClientInfoView, int),
    DecodeError,
> {
    if p + 2 > b.len() {
        Err(cursor::short(b, p, 2))
    } else {
        match parse_counted_string(b, p + 2) {
            Err(e) => Err(e),
            Ok((address, q)) => match parse_counted_string(b, q) {
                Err(e) => Err(e),
                Ok((dir, end)) => Ok(
                    (
                        ExtendedClientInfoView {
                            address_family: bytes::u16_le_at(b, p),
                            address,
                            dir,
                        },
                        end,
                    ),
                ),
            },
        }
    }
}

impl ExtendedClientInfo {
    fn encode(&self) -> (out: Vec<u8>)
        ensures
            out@ == self@.wire(),
    {
        let mut out: Vec<u8> = Vec::new();
        out.write_u16_le(self.address_family);
        write_counted_string(&mut out, self.address.as_str());
        write_counted_string(&mut out, self.dir.as_str());
        assert(out@ =~= self@.wire());
        out
    }

    fn decode(cursor: &mut ReadCursor<'_>) -> (r: Result<Self, DecodeError>)
        requires
            old(cursor).wf(),
        ensures
            final(cursor).wf(),
            final(cursor).data() == old(cursor).data(),
            cursor::reads_view(
                r,
                final(cursor).offset(),
                parse_extended(old(cursor).data(), old(cursor).offset()),
            ),
    {
        let address_family: u16 = cursor.take_u16_le()?;
        let address: String = read_counted_string(cursor)?;
        let dir: String = read_counted_string(cursor)?;
        Ok(Self { address_family, address, dir })
    }
}

#[derive(Debug, Clone, PartialEq, Eq, Default)]
pub struct ClientInfo {
    pub code_page: u32,
    pub flags: ClientInfoFlags,
    pub domain: String,
    pub username: String,
    pub password: String,
    pub alternate_shell: String,
    pub working_dir: String,
    pub extended: ExtendedClientInfo,
}

pub struct ClientInfoView {
    pub code_page: u32,
    pub flags: ClientInfoFlags,
    pub domain: Seq<char>,
    pub username: Seq<char>,
    pub password: Seq<char>,
    pub alternate_shell: Seq<char>,
    pub working_dir: Seq<char>,
    pub extended: ExtendedClientInfoView,
}

impl View for ClientInfo {
    type V = ClientInfoView;

    open spec fn view(&self) -> ClientInfoView {
        ClientInfoView {
            code_page: self.code_page,
            flags: self.flags,
            domain: self.domain@,
            username: self.username@,
            password: self.password@,
            alternate_shell: self.alternate_shell@,
            working_dir: self.working_dir@,
            extended: self.extended@,
        }
    }
}

impl ClientInfoView {
    /// The lengths of the five texts, in one block before the first of them.
    pub open spec fn lengths(self) -> Seq<u8> {
        bytes::le16(bytes::low16(encoded(self.domain).len() as int)) + bytes::le16(
            bytes::low16(encoded(self.username).len() as int),
        ) + bytes::le16(bytes::low16(encoded(self.password).len() as int)) + bytes::le16(
            bytes::low16(encoded(self.alternate_shell).len() as int),
        ) + bytes::le16(bytes::low16(encoded(self.working_dir).len() as int))
    }

    pub open spec fn strings(self) -> Seq<u8> {
        string_body(self.domain) + string_body(self.username) + string_body(self.password)
            + string_body(self.alternate_shell) + string_body(self.working_dir)
    }

    /// The flag for UTF-16 is set whatever the flags are.
    pub open spec fn wire(self) -> Seq<u8> {
        bytes::le32(self.code_page) + bytes::le32(self.flags.0 | 0x0010) + self.lengths()
            + self.strings() + self.extended.wire()
    }
}

/// The five texts of the lengths that stand from offset `p` on, and the offset
/// after them.
pub open spec fn parse_strings(b: Seq<u8>, p: int) -> Result<
    ((Seq<char>, Seq<char>, Seq<char>, Seq<char>, Seq<char>), int),
    DecodeError,
> {
    match parse_string_body(b, p + 10, bytes::u16_le_at(b, p) as int) {
        Err(e) => Err(e),
        Ok((domain, q1)) => match parse_string_body(b, q1, bytes::u16_le_at(b, p + 2) as int) {
            Err(e) => Err(e),
            Ok((username, q2)) => match parse_string_body(
                b,
                q2,
                bytes::u16_le_at(b, p + 4) as int,
            ) {
                Err(e) => Err(e),
                Ok((password, q3)) => match parse_string_body(
                    b,
                    q3,
                    bytes::u16_le_at(b, p + 6) as int,
                ) {
                    Err(e) => Err(e),
                    Ok((shell, q4)) => match parse_string_body(
                        b,
                        q4,
                        bytes::u16_le_at(b, p + 8) as int,
                    ) {
                        Err(e) => Err(e),
                        Ok((dir, q5)) => Ok(((domain, username, password, shell, dir), q5)),
                    },
                },
            },
        },
    }
}

pub open spec fn parse_client_info(b: Seq<u8>, p: int) -> Result<
    (ClientInfoView, int),
    DecodeError,
> {
    if p + 4 > b.len() {
        Err(cursor::short(b, p, 4))
    } else if p + 8 > b.len() {
        Err(cursor::short(b, p + 4, 4))
    } else {
        let flags = ClientInfoFlags(bytes::u32_le_at(b, p + 4));
        if !flags.contains(ClientInfoFlags::unicode()) {
            Err(cursor::invalid("client_info.flags", "only INFO_UNICODE clients are supported"))
        } else if p + 18 > b.len() {
            Err(cursor::short(b, p + 8 + (b.len() - p - 8) / 2 * 2, 2))
        } else {
            match parse_strings(b, p + 8) {
                Err(e) => Err(e),
                Ok(((domain, username, password, alternate_shell, working_dir), q)) => {
                    match parse_extended(b, q) {
                        Err(e) => Err(e),
                        Ok((extended, end)) => Ok(
                            (
                                ClientInfoView {
                                    code_page: bytes::u32_le_at(b, p),
                                    flags,
                                    domain,
                                    username,
                                    password,
                                    alternate_shell,
                                    working_dir,
                                    extended,
                                },
                                end,
                            ),
                        ),
                    }
                },
            }
        }
    }
}

impl ClientInfo {
    fn encode(&self) -> (out: Vec<u8>)
        ensures
            out@ == self@.wire(),
    {
        let mut out: Vec<u8> = Vec::new();
        out.write_u32_le(self.code_page);
        out.write_u32_le((self.flags | ClientInfoFlags::unicode()).0);
        let domain: Vec<u8> = utf16::encode_units(self.domain.as_str());
        let username: Vec<u8> = utf16::encode_units(self.username.as_str());
        let password: Vec<u8> = utf16::encode_units(self.password.as_str());
        let shell: Vec<u8> = utf16::encode_units(self.alternate_shell.as_str());
        let dir: Vec<u8> = utf16::encode_units(self.working_dir.as_str());
        let ghost prefix = bytes::le32(self.code_page) + bytes::le32(self.flags.0 | 0x0010);
        assert(out@ =~= prefix);
        out.write_u16_le(bytes::len16(domain.len()));
        out.write_u16_le(bytes::len16(username.len()));
        out.write_u16_le(bytes::len16(password.len()));
        out.write_u16_le(bytes::len16(shell.len()));
        out.write_u16_le(bytes::len16(dir.len()));
        assert(out@ =~= prefix + self@.lengths());
        write_string_body(&mut out, domain.as_slice());
        write_string_body(&mut out, username.as_slice());
        write_string_body(&mut out, password.as_slice());
        write_string_body(&mut out, shell.as_slice());
        write_string_body(&mut out, dir.as_slice());
        assert(out@ =~= prefix + self@.lengths() + self@.strings());
        out.write_slice(self.extended.encode().as_slice());
        assert(out@ =~= self@.wire());
        out
    }

    fn decode(cursor: &mut ReadCursor<'_>) -> (r: Result<Self, DecodeError>)
        requires
            old(cursor).wf(),
        ensures
            final(cursor).wf(),
            final(cursor).data() == old(cursor).data(),
            cursor::reads_view(
                r,
                final(cursor).offset(),
                parse_client_info(old(cursor).data(), old(cursor).offset()),
            ),
    {
        let code_page: u32 = cursor.take_u32_le()?;
        let flags: ClientInfoFlags = ClientInfoFlags(cursor.take_u32_le()?);
        if !flags.contains(ClientInfoFlags::unicode()) {
            return Err(
                DecodeError::InvalidValue {
                    field: "client_info.flags",
                    reason: "only INFO_UNICODE clients are supported",
                },
            );
        }
        let cb_domain: u16 = cursor.take_u16_le()?;
        let cb_username: u16 = cursor.take_u16_le()?;
        let cb_password: u16 = cursor.take_u16_le()?;
        let cb_alternate_shell: u16 = cursor.take_u16_le()?;
        let cb_working_dir: u16 = cursor.take_u16_le()?;
        let domain: String = read_string_body(cursor, cb_domain as usize)?;
        let username: String = read_string_body(cursor, cb_username as usize)?;
        let password: String = read_string_body(cursor, cb_password as usize)?;
        let alternate_shell: String = read_string_body(cursor, cb_alternate_shell as usize)?;
        let working_dir: String = read_string_body(cursor, cb_working_dir as usize)?;
        let extended: ExtendedClientInfo = ExtendedClientInfo::decode(cursor)?;
        Ok(
            Self {
                code_page,
                flags,
                domain,
                username,
                password,
                alternate_shell,
                working_dir,
                extended,
            },
        )
    }
}

#[derive(Debug, Clone, PartialEq, Eq)]
pub struct ClientInfoPdu {
    pub info: ClientInfo,
}

impl View for ClientInfoPdu {
    type V = ClientInfoView;

    open spec fn view(&self) -> ClientInfoView {
        self.info@
    }
}

/// The message: a security header, and the client information.
pub open spec fn pdu_wire(info: ClientInfoView) -> Seq<u8> {
    BasicSecurityHeader { flags: BasicSecurityHeaderFlags::info_pkt() }.wire() + info.wire()
}

/// The message in `b`; what comes after it is not looked at.
pub open spec fn parse_pdu(b: Seq<u8>) -> Result<ClientInfoView, DecodeError> {
    match headers::parse(b, 0) {
        Err(e) => Err(e),
        Ok((h, p)) => if !h.flags.contains(BasicSecurityHeaderFlags::info_pkt()) {
            Err(cursor::invalid("client_info_pdu.security_header.flags", "expected INFO_PKT set"))
        } else {
            match parse_client_info(b, p) {
                Err(e) => Err(e),
                Ok((info, _)) => Ok(info),
            }
        },
    }
}

impl ClientInfoPdu {
    pub fn encode(&self) -> (out: Vec<u8>)
        ensures
            out@ == pdu_wire(self@),
    {
        let mut out: Vec<u8> = Vec::new();
        BasicSecurityHeader { flags: BasicSecurityHeaderFlags::info_pkt() }.write(&mut out);
        out.write_slice(self.info.encode().as_slice());
        assert(out@ =~= pdu_wire(self@));
        out
    }

    pub fn decode(input: &[u8]) -> (r: Result<Self, DecodeError>)
        ensures
            cursor::decodes_view(r, parse_pdu(input@)),
    {
        let mut cursor = ReadCursor::new(input);
        let header: BasicSecurityHeader = BasicSecurityHeader::decode(&mut cursor)?;
        if !header.flags.contains(BasicSecurityHeaderFlags::info_pkt()) {
            return Err(
                DecodeError::InvalidValue {
                    field: "client_info_pdu.security_header.flags",
                    reason: "expected INFO_PKT set",
                },
            );
        }
        let info: ClientInfo = ClientInfo::decode(&mut cursor)?;
        Ok(Self { info })
    }
}

proof fn lemma_string_body(b: Seq<u8>, p: int, s: Seq<char>)
    requires
        bytes::holds_at(b, p, string_body(s)),
    ensures
        parse_string_body(b, p, encoded(s).len() as int) == Ok::<(Seq<char>, int), DecodeError>(
            (s, p + string_body(s).len()),
        ),
{
    bytes::lemma_holds_add(b, p, encoded(s), bytes::le16(0));
    bytes::lemma_holds_bounds(b, p, encoded(s));
    bytes::lemma_holds_bounds(b, p + encoded(s).len(), bytes::le16(0));
    utf16::law_unit_bytes(utf16::units(s));
    utf16::law_text_units(s);
}

proof fn lemma_counted_string(b: Seq<u8>, p: int, s: Seq<char>)
    requires
        encoded(s).len() <= 0xFFFF - 2,
        forall|i: int| 0 <= i < s.len() ==> #[trigger] s[i] != '\0',
        bytes::holds_at(b, p, counted_string(s)),
    ensures
        parse_counted_string(b, p) == Ok::<(Seq<char>, int), DecodeError>(
            (s, p + counted_string(s).len()),
        ),
{
    let u = utf16::units(s);
    let n = bytes::le16(bytes::low16(2int + encoded(s).len()));
    assert(counted_string(s) =~= n + (encoded(s) + bytes::le16(0)));
    bytes::lemma_holds_add(b, p, n, encoded(s) + bytes::le16(0));
    bytes::lemma_holds_le16(b, p, bytes::low16(2int + encoded(s).len()));
    bytes::lemma_holds_bounds(b, p + 2, encoded(s) + bytes::le16(0));
    utf16::lemma_unit_bytes_push(u, 0);
    assert(utf16::fixed_units(s, u.len() + 1) =~= u.push(0));
    utf16::law_fixed(s, u.len() + 1);
}

/// Every message is read back as it was written, whatever comes after it, where
/// its flags name UTF-16, its texts fit their lengths, and the last two texts
/// hold no NUL.
pub proof fn law_client_info_round_trip(info: ClientInfoView, after: Seq<u8>)
    requires
        sendable(info),
    ensures
        parse_pdu(pdu_wire(info) + after) == Ok::<ClientInfoView, DecodeError>(info),
{
    let b = pdu_wire(info) + after;
    let h = BasicSecurityHeader { flags: BasicSecurityHeaderFlags::info_pkt() };
    assert(0x40u16 & 0x40u16 == 0x40u16) by (bit_vector);
    bytes::lemma_holds_self(b);
    bytes::lemma_holds_add(b, 0, pdu_wire(info), after);
    bytes::lemma_holds_add(b, 0, h.wire(), info.wire());
    headers::law_round_trip(b, 0, h);
    lemma_client_info(b, 4, info);
}

/// What the round trip asks of client information.
pub open spec fn sendable(info: ClientInfoView) -> bool {
    &&& info.flags.0 & 0x0010 == 0x0010
    &&& encoded(info.domain).len() <= 0xFFFF
    &&& encoded(info.username).len() <= 0xFFFF
    &&& encoded(info.password).len() <= 0xFFFF
    &&& encoded(info.alternate_shell).len() <= 0xFFFF
    &&& encoded(info.working_dir).len() <= 0xFFFF
    &&& encoded(info.extended.address).len() <= 0xFFFF - 2
    &&& encoded(info.extended.dir).len() <= 0xFFFF - 2
    &&& forall|i: int|
        0 <= i < info.extended.address.len() ==> #[trigger] info.extended.address[i] != '\0'
    &&& forall|i: int| 0 <= i < info.extended.dir.len() ==> #[trigger] info.extended.dir[i] != '\0'
}

#[verifier::rlimit(40)]
proof fn lemma_client_info(b: Seq<u8>, p: int, info: ClientInfoView)
    requires
        sendable(info),
        bytes::holds_at(b, p, info.wire()),
    ensures
        parse_client_info(b, p) == Ok::<(ClientInfoView, int), DecodeError>(
            (info, p + info.wire().len()),
        ),
{
    let f = info.flags.0;
    assert(f & 0x10 == 0x10 ==> f | 0x10 == f) by (bit_vector);
    let e = info.extended;
    let w1 = bytes::le32(info.code_page) + bytes::le32(f);
    let w2 = w1 + info.lengths();
    let w3 = w2 + info.strings();
    bytes::lemma_holds_add(b, p, w3, e.wire());
    bytes::lemma_holds_add(b, p, w2, info.strings());
    bytes::lemma_holds_add(b, p, w1, info.lengths());
    bytes::lemma_holds_add(b, p, bytes::le32(info.code_page), bytes::le32(f));
    bytes::lemma_holds_le32(b, p, info.code_page);
    bytes::lemma_holds_le32(b, p + 4, f);
    bytes::lemma_holds_bounds(b, p + 8, info.lengths());
    lemma_strings(b, p + 8, info);
    lemma_extended(b, p + 18 + info.strings().len(), e);
}

proof fn lemma_lengths(b: Seq<u8>, p: int, info: ClientInfoView)
    requires
        bytes::holds_at(b, p, info.lengths()),
    ensures
        bytes::u16_le_at(b, p) == bytes::low16(encoded(info.domain).len() as int),
        bytes::u16_le_at(b, p + 2) == bytes::low16(encoded(info.username).len() as int),
        bytes::u16_le_at(b, p + 4) == bytes::low16(encoded(info.password).len() as int),
        bytes::u16_le_at(b, p + 6) == bytes::low16(encoded(info.alternate_shell).len() as int),
        bytes::u16_le_at(b, p + 8) == bytes::low16(encoded(info.working_dir).len() as int),
{
    broadcast use bytes::group_holds;

}

#[verifier::rlimit(40)]
proof fn lemma_strings(b: Seq<u8>, p: int, info: ClientInfoView)
    requires
        encoded(info.domain).len() <= 0xFFFF,
        encoded(info.username).len() <= 0xFFFF,
        encoded(info.password).len() <= 0xFFFF,
        encoded(info.alternate_shell).len() <= 0xFFFF,
        encoded(info.working_dir).len() <= 0xFFFF,
        bytes::holds_at(b, p, info.lengths()),
        bytes::holds_at(b, p + 10, info.strings()),
    ensures
        parse_strings(b, p) == Ok::<
            ((Seq<char>, Seq<char>, Seq<char>, Seq<char>, Seq<char>), int),
            DecodeError,
        >(
            (
                (
                    info.domain,
                    info.username,
                    info.password,
                    info.alternate_shell,
                    info.working_dir,
                ),
                p + 10 + info.strings().len(),
            ),
        ),
{
    lemma_lengths(b, p, info);
    assert(bytes::u16_le_at(b, p) == encoded(info.domain).len());
    assert(bytes::u16_le_at(b, p + 2) == encoded(info.username).len());
    assert(bytes::u16_le_at(b, p + 4) == encoded(info.password).len());
    assert(bytes::u16_le_at(b, p + 6) == encoded(info.alternate_shell).len());
    assert(bytes::u16_le_at(b, p + 8) == encoded(info.working_dir).len());
    let s1 = string_body(info.domain);
    let s2 = string_body(info.username);
    let s3 = string_body(info.password);
    let s4 = string_body(info.alternate_shell);
    let s5 = string_body(info.working_dir);
    let q = p + 10;
    bytes::lemma_holds_add(b, q, s1 + s2 + s3 + s4, s5);
    bytes::lemma_holds_add(b, q, s1 + s2 + s3, s4);
    bytes::lemma_holds_add(b, q, s1 + s2, s3);
    bytes::lemma_holds_add(b, q, s1, s2);
    lemma_string_body(b, q, info.domain);
    lemma_string_body(b, q + s1.len(), info.username);
    lemma_string_body(b, q + (s1 + s2).len(), info.password);
    lemma_string_body(b, q + (s1 + s2 + s3).len(), info.alternate_shell);
    lemma_string_body(b, q + (s1 + s2 + s3 + s4).len(), info.working_dir);
}

proof fn lemma_extended(b: Seq<u8>, p: int, e: ExtendedClientInfoView)
    requires
        encoded(e.address).len() <= 0xFFFF - 2,
        encoded(e.dir).len() <= 0xFFFF - 2,
        forall|i: int| 0 <= i < e.address.len() ==> #[trigger] e.address[i] != '\0',
        forall|i: int| 0 <= i < e.dir.len() ==> #[trigger] e.dir[i] != '\0',
        bytes::holds_at(b, p, e.wire()),
    ensures
        parse_extended(b, p) == Ok::<(ExtendedClientInfoView, int), DecodeError>(
            (e, p + e.wire().len()),
        ),
{
    let f = bytes::le16(e.address_family);
    bytes::lemma_holds_add(b, p, f + counted_string(e.address), counted_string(e.dir));
    bytes::lemma_holds_add(b, p, f, counted_string(e.address));
    bytes::lemma_holds_le16(b, p, e.address_family);
    bytes::lemma_holds_bounds(b, p, f);
    lemma_counted_string(b, p + 2, e.address);
    lemma_counted_string(b, p + 2 + counted_string(e.address).len(), e.dir);
}

/// Client information gives the code page, the flags, the lengths of five texts, and
/// the texts with a NUL after each: the domain, the user, the password, the shell
/// and the directory. The family of the address, the address and the directory of
/// the client follow, each text after its length.
pub proof fn law_client_info_decoded(input: &[u8], r: Result<ClientInfoPdu, DecodeError>)
    requires
        call_ensures(ClientInfoPdu::decode, (input,), r),
        r is Ok,
    ensures
        ({
            let b = input@;
            let v = r->Ok_0.info;
            let n1 = bytes::u16_le_at(b, 12);
            let n2 = bytes::u16_le_at(b, 14);
            let n3 = bytes::u16_le_at(b, 16);
            let n4 = bytes::u16_le_at(b, 18);
            let n5 = bytes::u16_le_at(b, 20);
            let p2 = 24 + n1;
            let p3 = p2 + n2 + 2;
            let p4 = p3 + n3 + 2;
            let p5 = p4 + n4 + 2;
            let p6 = p5 + n5 + 2;
            let a = bytes::u16_le_at(b, p6 + 2);
            let p7 = p6 + 4 + a;
            let d = bytes::u16_le_at(b, p7);
            &&& b[0] / 64 % 2 == 1
            &&& v.code_page == bytes::u32_le_at(b, 4)
            &&& v.flags.0 == bytes::u32_le_at(b, 8)
            &&& v.flags.0 / 16 % 2 == 1
            &&& v.domain@ == utf16::text(utf16::byte_units(b.subrange(22, 22 + n1)))
            &&& v.username@ == utf16::text(utf16::byte_units(b.subrange(p2, p2 + n2)))
            &&& v.password@ == utf16::text(utf16::byte_units(b.subrange(p3, p3 + n3)))
            &&& v.alternate_shell@ == utf16::text(utf16::byte_units(b.subrange(p4, p4 + n4)))
            &&& v.working_dir@ == utf16::text(utf16::byte_units(b.subrange(p5, p5 + n5)))
            &&& v.extended.address_family == bytes::u16_le_at(b, p6)
            &&& v.extended.address@ == utf16::fixed_text(b.subrange(p6 + 4, p6 + 4 + a))
            &&& v.extended.dir@ == utf16::fixed_text(b.subrange(p7 + 2, p7 + 2 + d))
            &&& b.len() >= p7 + 2 + d
        }),
{
    law_client_info_layout(input@);
    let b = input@;
    bytes::law_byte_order(b, 0);
    let x = bytes::u16_le_at(b, 0);
    assert(x & 0x40 == 0x40 <==> x / 64 % 2 == 1) by (bit_vector);
    assert(x / 64 % 2 == b[0] / 64 % 2);
    let y = r->Ok_0.info.flags.0;
    assert(y & 0x10 == 0x10 <==> y / 16 % 2 == 1) by (bit_vector);
}

/// [`law_client_info_decoded`], of the bytes alone.
pub proof fn law_client_info_layout(b: Seq<u8>)
    requires
        parse_pdu(b) is Ok,
    ensures
        ({
            let v = parse_pdu(b)->Ok_0;
            let n1 = bytes::u16_le_at(b, 12);
            let n2 = bytes::u16_le_at(b, 14);
            let n3 = bytes::u16_le_at(b, 16);
            let n4 = bytes::u16_le_at(b, 18);
            let n5 = bytes::u16_le_at(b, 20);
            let p2 = 24 + n1;
            let p3 = p2 + n2 + 2;
            let p4 = p3 + n3 + 2;
            let p5 = p4 + n4 + 2;
            let p6 = p5 + n5 + 2;
            let a = bytes::u16_le_at(b, p6 + 2);
            let p7 = p6 + 4 + a;
            let d = bytes::u16_le_at(b, p7);
            &&& v.code_page == bytes::u32_le_at(b, 4)
            &&& v.flags.0 == bytes::u32_le_at(b, 8)
            &&& v.domain == utf16::text(utf16::byte_units(b.subrange(22, 22 + n1)))
            &&& v.username == utf16::text(utf16::byte_units(b.subrange(p2, p2 + n2)))
            &&& v.password == utf16::text(utf16::byte_units(b.subrange(p3, p3 + n3)))
            &&& v.alternate_shell == utf16::text(utf16::byte_units(b.subrange(p4, p4 + n4)))
            &&& v.working_dir == utf16::text(utf16::byte_units(b.subrange(p5, p5 + n5)))
            &&& v.extended.address_family == bytes::u16_le_at(b, p6)
            &&& v.extended.address == utf16::fixed_text(b.subrange(p6 + 4, p6 + 4 + a))
            &&& v.extended.dir == utf16::fixed_text(b.subrange(p7 + 2, p7 + 2 + d))
            &&& b.len() >= p7 + 2 + d
        }),
{
}

/// A message is written with the same fields at the same places.
#[verifier::rlimit(40)]
pub proof fn law_client_info_bytes(m: &ClientInfoPdu, out: Vec<u8>)
    requires
        call_ensures(ClientInfoPdu::encode, (m,), out),
        sendable(m.info@),
    ensures
        bytes::u16_le_at(out@, 0) == 64,
        bytes::u32_le_at(out@, 4) == m.info.code_page,
        bytes::u32_le_at(out@, 8) == m.info.flags.0,
        bytes::u16_le_at(out@, 12) == 2 * utf16::units(m.info.domain@).len(),
        bytes::u16_le_at(out@, 14) == 2 * utf16::units(m.info.username@).len(),
        bytes::u16_le_at(out@, 16) == 2 * utf16::units(m.info.password@).len(),
        bytes::u16_le_at(out@, 18) == 2 * utf16::units(m.info.alternate_shell@).len(),
        bytes::u16_le_at(out@, 20) == 2 * utf16::units(m.info.working_dir@).len(),
        ({
            let p2 = 24int + encoded(m.info.domain@).len();
            let p3 = p2 + encoded(m.info.username@).len() + 2;
            &&& out@.subrange(22, p2 - 2) == encoded(m.info.domain@)
            &&& out@.subrange(p2, p3 - 2) == encoded(m.info.username@)
            &&& out@.subrange(
                p3,
                p3 + encoded(m.info.password@).len(),
            ) == encoded(m.info.password@)
        }),
{
    let v = m.info@;
    let f = v.flags.0;
    assert(f & 0x0010 == 0x0010 ==> f | 0x0010 == f) by (bit_vector);
    let head = BasicSecurityHeader { flags: BasicSecurityHeaderFlags::info_pkt() }.wire()
        + bytes::le32(v.code_page) + bytes::le32(f) + v.lengths();
    let d = encoded(v.domain);
    let u = encoded(v.username);
    let w = encoded(v.password);
    assert(head.len() == 22);
    let p2 = 24int + d.len();
    let p3 = p2 + u.len() + 2;
    assert(out@.subrange(22, p2 - 2) =~= d);
    assert(out@.subrange(p2, p3 - 2) =~= u);
    assert(out@.subrange(p3, p3 + w.len()) =~= w);
    assert(forall|i: int| 0 <= i < 22 ==> out@[i] == #[trigger] head[i]);
    assert(bytes::u16_le_at(head, 0) == 64);
    assert(bytes::u32_le_at(head, 4) == v.code_page);
    assert(bytes::u32_le_at(head, 8) == f);
    assert(bytes::u16_le_at(head, 12) == d.len());
    assert(bytes::u16_le_at(head, 14) == u.len());
    assert(bytes::u16_le_at(head, 16) == w.len());
    assert(bytes::u16_le_at(head, 18) == encoded(v.alternate_shell).len());
    assert(bytes::u16_le_at(head, 20) == encoded(v.working_dir).len());
}

} // verus!
