//! Connection Request and Connection Confirm, in which client and server settle
//! on a security protocol, and the framing of everything sent after them.

use vstd::prelude::*;
use vstd::string::*;
use vstd::utf8;

use crate::bytes;
use crate::cursor;
use crate::cursor::{ReadCursor, WriteBuf};
use crate::text;
use crate::tpdu;
use crate::tpdu::{TpduCode, TpduHeader};
use crate::tpkt;
use crate::tpkt::TpktHeader;
use crate::DecodeError;

verus! {

broadcast use bytes::group_bytes;

const COOKIE_PREFIX: &'static str = "Cookie: mstshash=";

/// Carriage return and line feed, low byte first.
const CRLF: u16 = 0x0A0D;

pub const NEGO_REQUEST: u8 = 0x01;

pub const NEGO_RESPONSE: u8 = 0x02;

pub const NEGO_FAILURE: u8 = 0x03;

/// Type, flags, length and protocol or failure code.
pub const NEGO_BODY_SIZE: u16 = 8;

/// A set of security protocols, as a bit mask.
#[derive(Debug, Clone, Copy, PartialEq, Eq, Default, Structural)]
pub struct SecurityProtocol(pub u32);

impl SecurityProtocol {
    #[verifier::allow_in_spec]
    pub fn rdp() -> Self
        returns
            SecurityProtocol(0x0000_0000),
    {
        SecurityProtocol(0x0000_0000)
    }

    #[verifier::allow_in_spec]
    pub fn ssl() -> Self
        returns
            SecurityProtocol(0x0000_0001),
    {
        SecurityProtocol(0x0000_0001)
    }

    #[verifier::allow_in_spec]
    pub fn hybrid() -> Self
        returns
            SecurityProtocol(0x0000_0002),
    {
        SecurityProtocol(0x0000_0002)
    }

    #[verifier::allow_in_spec]
    pub fn rdstls() -> Self
        returns
            SecurityProtocol(0x0000_0004),
    {
        SecurityProtocol(0x0000_0004)
    }

    #[verifier::allow_in_spec]
    pub fn hybrid_ex() -> Self
        returns
            SecurityProtocol(0x0000_0008),
    {
        SecurityProtocol(0x0000_0008)
    }

    /// Whether every protocol of `flag` is in the set.
    #[verifier::allow_in_spec]
    pub fn contains(self, flag: Self) -> bool
        returns
            self.0 & flag.0 == flag.0,
    {
        self.0 & flag.0 == flag.0
    }
}

impl core::ops::BitOr for SecurityProtocol {
    type Output = SecurityProtocol;

    fn bitor(self, rhs: Self) -> (r: SecurityProtocol) {
        SecurityProtocol(self.0 | rhs.0)
    }
}

impl vstd::std_specs::ops::BitOrSpecImpl for SecurityProtocol {
    open spec fn obeys_bitor_spec() -> bool {
        true
    }

    open spec fn bitor_req(self, rhs: Self) -> bool {
        true
    }

    open spec fn bitor_spec(self, rhs: Self) -> SecurityProtocol {
        SecurityProtocol(self.0 | rhs.0)
    }
}

/// Flags of a negotiation request.
#[derive(Debug, Clone, Copy, PartialEq, Eq, Default, Structural)]
pub struct RequestFlags(pub u8);

/// Flags of a negotiation response.
#[derive(Debug, Clone, Copy, PartialEq, Eq, Default, Structural)]
pub struct ResponseFlags(pub u8);

/// Why a server turned a connection down.
#[derive(Debug, Clone, Copy, PartialEq, Eq, Structural)]
pub struct FailureCode(pub u32);

impl FailureCode {
    #[verifier::allow_in_spec]
    pub fn ssl_required_by_server() -> Self
        returns
            FailureCode(1),
    {
        FailureCode(1)
    }

    #[verifier::allow_in_spec]
    pub fn ssl_not_allowed_by_server() -> Self
        returns
            FailureCode(2),
    {
        FailureCode(2)
    }

    #[verifier::allow_in_spec]
    pub fn ssl_cert_not_on_server() -> Self
        returns
            FailureCode(3),
    {
        FailureCode(3)
    }

    #[verifier::allow_in_spec]
    pub fn inconsistent_flags() -> Self
        returns
            FailureCode(4),
    {
        FailureCode(4)
    }

    #[verifier::allow_in_spec]
    pub fn hybrid_required_by_server() -> Self
        returns
            FailureCode(5),
    {
        FailureCode(5)
    }

    #[verifier::allow_in_spec]
    pub fn ssl_with_user_auth_required_by_server() -> Self
        returns
            FailureCode(6),
    {
        FailureCode(6)
    }
}

/// A client's first message. It travels in the clear even where the connection
/// is encrypted afterwards.
#[derive(Debug, Clone, PartialEq, Eq)]
pub struct ConnectionRequest {
    /// An identifier that the client chose, usually a user name.
    pub cookie: Option<String>,
    pub flags: RequestFlags,
    pub protocol: SecurityProtocol,
}

/// What a [`ConnectionRequest`] holds.
pub struct ConnectionRequestView {
    pub cookie: Option<Seq<char>>,
    pub flags: RequestFlags,
    pub protocol: SecurityProtocol,
}

impl View for ConnectionRequest {
    type V = ConnectionRequestView;

    open spec fn view(&self) -> ConnectionRequestView {
        ConnectionRequestView {
            cookie: match self.cookie {
                Some(c) => Some(c@),
                None => None,
            },
            flags: self.flags,
            protocol: self.protocol,
        }
    }
}

/// The bytes before the identifier of a cookie: `Cookie: mstshash=`.
pub open spec fn cookie_prefix() -> Seq<u8> {
    seq![
        0x43,
        0x6F,
        0x6F,
        0x6B,
        0x69,
        0x65,
        0x3A,
        0x20,
        0x6D,
        0x73,
        0x74,
        0x73,
        0x68,
        0x61,
        0x73,
        0x68,
        0x3D,
    ]
}

/// A negotiation message: its type, flags, length and value.
pub open spec fn nego_wire(kind: u8, flags: u8, value: u32) -> Seq<u8> {
    seq![kind] + seq![flags] + bytes::le16(NEGO_BODY_SIZE) + bytes::le32(value)
}

/// A message whose contents belong to the header: the length indicator counts
/// them, and the packet length is taken from it.
pub open spec fn header_message(code: TpduCode, body: Seq<u8>) -> Seq<u8> {
    let li = bytes::low8(code.fixed_size() - 1 + body.len());
    TpktHeader { packet_length: (5 + li) as u16 }.wire() + TpduHeader { li, code }.wire() + body
}

/// A message that carries `payload` as user data.
pub open spec fn data_message(payload: Seq<u8>) -> Seq<u8> {
    TpktHeader { packet_length: bytes::low16(7int + payload.len()) }.wire() + TpduHeader {
        li: 2,
        code: TpduCode::data(),
    }.wire() + payload
}

/// Packet and message header, and the offset after them.
pub open spec fn parse_header(b: Seq<u8>, p: int, code: TpduCode) -> Result<
    (TpduHeader, int),
    DecodeError,
> {
    match tpkt::parse(b, p) {
        Err(e) => Err(e),
        Ok((_, q)) => tpdu::parse(b, q, code),
    }
}

/// The first place from `i` on where a line ends.
pub open spec fn line_end(b: Seq<u8>, i: int) -> Option<int>
    decreases b.len() - i,
{
    if i + 2 > b.len() {
        None
    } else if b[i] == 0x0D && b[i + 1] == 0x0A {
        Some(i)
    } else {
        line_end(b, i + 1)
    }
}

/// The cookie at offset `p`, if one stands there.
pub open spec fn parse_cookie(b: Seq<u8>, p: int) -> Result<
    (Option<Seq<char>>, int),
    DecodeError,
> {
    let k = cookie_prefix();
    if b.len() - p < k.len() + 2 || b.subrange(p, p + k.len()) != k {
        Ok((None, p))
    } else {
        match line_end(b, p + k.len()) {
            None => Err(cursor::short(b, b.len() - 1, 2)),
            Some(end) => {
                let value = b.subrange(p + k.len(), end);
                if utf8::valid_utf8(value) {
                    Ok((Some(utf8::decode_utf8(value)), end + 2))
                } else {
                    Err(cursor::invalid("x224.cookie", "not valid UTF-8"))
                }
            },
        }
    }
}

/// What a Connection Request says.
pub open spec fn parse_request(b: Seq<u8>) -> Result<ConnectionRequestView, DecodeError> {
    match parse_header(b, 0, TpduCode::connection_request()) {
        Err(e) => Err(e),
        Ok((h, p)) => if p + h.announced() > b.len() {
            Err(cursor::short(b, p, h.announced() as int))
        } else {
            match parse_cookie(b, p) {
                Err(e) => Err(e),
                Ok((cookie, q)) => if q + 1 > b.len() {
                    Err(cursor::short(b, q, 1))
                } else if b[q] != NEGO_REQUEST {
                    Err(
                        cursor::invalid(
                            "x224.nego_request.type",
                            "expected RDP_NEG_REQ type byte",
                        ),
                    )
                } else {
                    match parse_nego_rest(b, q + 1) {
                        Err(e) => Err(e),
                        Ok((flags, protocol)) => Ok(
                            ConnectionRequestView {
                                cookie,
                                flags: RequestFlags(flags),
                                protocol: SecurityProtocol(protocol),
                            },
                        ),
                    }
                },
            }
        },
    }
}

/// Flags and value of a negotiation message, after its type.
pub open spec fn parse_nego_rest(b: Seq<u8>, p: int) -> Result<(u8, u32), DecodeError> {
    if p + 1 > b.len() {
        Err(cursor::short(b, p, 1))
    } else if p + 3 > b.len() {
        Err(cursor::short(b, p + 1, 2))
    } else if p + 7 > b.len() {
        Err(cursor::short(b, p + 3, 4))
    } else {
        Ok((b[p], bytes::u32_le_at(b, p + 3)))
    }
}

fn read_nego_rest(cursor: &mut ReadCursor<'_>) -> (r: Result<(u8, u32), DecodeError>)
    requires
        old(cursor).wf(),
    ensures
        final(cursor).wf(),
        r == parse_nego_rest(old(cursor).data(), old(cursor).offset()),
{
    let flags: u8 = cursor.take_u8()?;
    let _length: u16 = cursor.take_u16_le()?;
    let value: u32 = cursor.take_u32_le()?;
    Ok((flags, value))
}

impl ConnectionRequestView {
    /// The contents of the message, after its headers.
    pub open spec fn body(self) -> Seq<u8> {
        let nego = nego_wire(NEGO_REQUEST, self.flags.0, self.protocol.0);
        match self.cookie {
            Some(c) => cookie_prefix() + utf8::encode_utf8(c) + bytes::le16(0x0A0D) + nego,
            None => nego,
        }
    }
}

impl ConnectionRequest {
    pub fn encode(&self) -> (out: Vec<u8>)
        ensures
            out@ == header_message(TpduCode::connection_request(), self@.body()),
    {
        proof {
            lemma_cookie_prefix();
        }
        let mut body: Vec<u8> = Vec::new();
        match &self.cookie {
            Some(cookie) => {
                body.write_slice(COOKIE_PREFIX.as_bytes());
                body.write_slice(cookie.as_str().as_bytes());
                body.write_u16_le(CRLF);
            },
            None => {},
        }
        let ghost before = body@;
        body.write_u8(NEGO_REQUEST);
        body.write_u8(self.flags.0);
        body.write_u16_le(NEGO_BODY_SIZE);
        body.write_u32_le(self.protocol.0);
        proof {
            let nego = nego_wire(NEGO_REQUEST, self.flags.0, self.protocol.0);
            assert(body@ =~= before + nego);
            assert(body@ =~= self@.body());
        }
        encode_x224(TpduCode::connection_request(), body.as_slice())
    }

    pub fn decode(input: &[u8]) -> (r: Result<Self, DecodeError>)
        ensures
            cursor::decodes_view(r, parse_request(input@)),
    {
        let mut cursor = ReadCursor::new(input);
        let tpdu: TpduHeader = decode_x224_header(&mut cursor, TpduCode::connection_request())?;
        match cursor.ensure(tpdu.announced_size()) {
            Ok(_) => {},
            Err(e) => return Err(DecodeError::NotEnoughBytes(e)),
        }
        let cookie: Option<String> = read_cookie(&mut cursor)?;
        let kind: u8 = cursor.take_u8()?;
        if kind != NEGO_REQUEST {
            return Err(
                DecodeError::InvalidValue {
                    field: "x224.nego_request.type",
                    reason: "expected RDP_NEG_REQ type byte",
                },
            );
        }
        let (flags, protocol) = read_nego_rest(&mut cursor)?;
        Ok(
            Self {
                cookie,
                flags: RequestFlags(flags),
                protocol: SecurityProtocol(protocol),
            },
        )
    }
}

/// A server's answer: the protocol it chose, or why it turns the client down.
#[derive(Debug, Clone, Copy, PartialEq, Eq)]
pub enum ConnectionConfirm {
    Response { flags: ResponseFlags, protocol: SecurityProtocol },
    Failure { code: FailureCode },
}

/// What a Connection Confirm says.
pub open spec fn parse_confirm(b: Seq<u8>) -> Result<ConnectionConfirm, DecodeError> {
    match parse_header(b, 0, TpduCode::connection_confirm()) {
        Err(e) => Err(e),
        Ok((h, p)) => if p + h.announced() > b.len() {
            Err(cursor::short(b, p, h.announced() as int))
        } else if h.announced() < NEGO_BODY_SIZE {
            Err(
                cursor::invalid(
                    "x224.connection_confirm",
                    "missing RDP_NEG_RSP/RDP_NEG_FAILURE body",
                ),
            )
        } else if b[p] == NEGO_RESPONSE {
            Ok(
                ConnectionConfirm::Response {
                    flags: ResponseFlags(b[p + 1]),
                    protocol: SecurityProtocol(bytes::u32_le_at(b, p + 4)),
                },
            )
        } else if b[p] == NEGO_FAILURE {
            Ok(ConnectionConfirm::Failure { code: FailureCode(bytes::u32_le_at(b, p + 4)) })
        } else {
            Err(
                cursor::invalid(
                    "x224.connection_confirm.type",
                    "expected RDP_NEG_RSP or RDP_NEG_FAILURE type byte",
                ),
            )
        },
    }
}

impl ConnectionConfirm {
    /// The contents of the message, after its headers.
    pub open spec fn body(self) -> Seq<u8> {
        match self {
            ConnectionConfirm::Response { flags, protocol } => nego_wire(
                NEGO_RESPONSE,
                flags.0,
                protocol.0,
            ),
            ConnectionConfirm::Failure { code } => nego_wire(NEGO_FAILURE, 0, code.0),
        }
    }

    pub fn encode(&self) -> (out: Vec<u8>)
        ensures
            out@ == header_message(TpduCode::connection_confirm(), self.body()),
    {
        let mut body: Vec<u8> = Vec::new();
        match self {
            Self::Response { flags, protocol } => {
                body.write_u8(NEGO_RESPONSE);
                body.write_u8(flags.0);
                body.write_u16_le(NEGO_BODY_SIZE);
                body.write_u32_le(protocol.0);
            },
            Self::Failure { code } => {
                body.write_u8(NEGO_FAILURE);
                body.write_u8(0);  // reserved
                body.write_u16_le(NEGO_BODY_SIZE);
                body.write_u32_le(code.0);
            },
        }
        assert(body@ =~= self.body());
        encode_x224(TpduCode::connection_confirm(), body.as_slice())
    }

    pub fn decode(input: &[u8]) -> (r: Result<Self, DecodeError>)
        ensures
            r == parse_confirm(input@),
    {
        let mut cursor = ReadCursor::new(input);
        let tpdu: TpduHeader = decode_x224_header(&mut cursor, TpduCode::connection_confirm())?;
        let variable: usize = tpdu.announced_size();
        match cursor.ensure(variable) {
            Ok(_) => {},
            Err(e) => return Err(DecodeError::NotEnoughBytes(e)),
        }
        if variable < NEGO_BODY_SIZE as usize {
            return Err(
                DecodeError::InvalidValue {
                    field: "x224.connection_confirm",
                    reason: "missing RDP_NEG_RSP/RDP_NEG_FAILURE body",
                },
            );
        }
        let kind: u8 = cursor.take_u8()?;
        if kind == NEGO_RESPONSE {
            let (flags, protocol) = read_nego_rest(&mut cursor)?;
            Ok(
                Self::Response {
                    flags: ResponseFlags(flags),
                    protocol: SecurityProtocol(protocol),
                },
            )
        } else if kind == NEGO_FAILURE {
            let (_reserved, code) = read_nego_rest(&mut cursor)?;
            Ok(Self::Failure { code: FailureCode(code) })
        } else {
            Err(
                DecodeError::InvalidValue {
                    field: "x224.connection_confirm.type",
                    reason: "expected RDP_NEG_RSP or RDP_NEG_FAILURE type byte",
                },
            )
        }
    }
}

/// Reads a cookie where one stands, and nothing where none does.
fn read_cookie(cursor: &mut ReadCursor<'_>) -> (r: Result<Option<String>, DecodeError>)
    requires
        old(cursor).wf(),
    ensures
        final(cursor).wf(),
        final(cursor).data() == old(cursor).data(),
        match parse_cookie(old(cursor).data(), old(cursor).offset()) {
            Ok((Some(c), q)) => r is Ok && r->Ok_0 is Some && r->Ok_0->Some_0@ == c
                && final(cursor).offset() == q,
            Ok((None, q)) => r == Ok::<Option<String>, DecodeError>(None) && final(cursor).offset()
                == q,
            Err(e) => r == Err::<Option<String>, DecodeError>(e),
        },
{
    proof {
        lemma_cookie_prefix();
    }
    let ghost b = cursor.data();
    let ghost p = cursor.offset();
    let prefix: &[u8] = COOKIE_PREFIX.as_bytes();
    let n: usize = prefix.len();
    let remaining: usize = cursor.remaining();
    if remaining < n || remaining - n < 2 {
        return Ok(None);
    }
    let head: &[u8] = match cursor.peek_slice(n) {
        Ok(s) => s,
        Err(e) => return Err(DecodeError::NotEnoughBytes(e)),
    };
    if !bytes::same(head, prefix) {
        return Ok(None);
    }
    cursor.advance(n);
    let value_start: usize = cursor.pos();
    loop
        invariant
            cursor.wf(),
            cursor.data() == b,
            old(cursor).data() == b,
            old(cursor).offset() == p,
            value_start <= cursor.offset() < b.len(),
            value_start == p + n,
            line_end(b, cursor.offset()) == line_end(b, p + n),
            parse_cookie(b, p) == (match line_end(b, p + n) {
                None => Err::<(Option<Seq<char>>, int), DecodeError>(
                    cursor::short(b, b.len() - 1, 2),
                ),
                Some(end) => {
                    let value = b.subrange(p + n, end);
                    if utf8::valid_utf8(value) {
                        Ok((Some(utf8::decode_utf8(value)), end + 2))
                    } else {
                        Err(cursor::invalid("x224.cookie", "not valid UTF-8"))
                    }
                },
            }),
        ensures
            cursor.wf(),
            cursor.data() == b,
            value_start <= cursor.offset(),
            cursor.offset() + 2 <= b.len(),
            line_end(b, p + n) == Some(cursor.offset()),
        decreases b.len() - cursor.offset(),
    {
        let next: u16 = match cursor.peek_u16_be() {
            Ok(v) => v,
            Err(e) => return Err(DecodeError::NotEnoughBytes(e)),
        };
        proof {
            reveal(bytes::u16_be);
        }
        if next == 0x0D0A {
            break;
        }
        cursor.advance(1);
    }
    let value_end: usize = cursor.pos();
    cursor.advance(2);  // end of line
    match text::utf8_text(cursor.slice_from_to(value_start, value_end)) {
        Some(value) => Ok(Some(value)),
        None => Err(
            DecodeError::InvalidValue { field: "x224.cookie", reason: "not valid UTF-8" },
        ),
    }
}

fn encode_x224(code: TpduCode, body: &[u8]) -> (out: Vec<u8>)
    ensures
        out@ == header_message(code, body@),
{
    let tpdu: TpduHeader = TpduHeader::for_pdu(code, body.len());
    let packet_length: u16 = 5 + tpdu.li as u16;
    let mut out: Vec<u8> = Vec::new();
    TpktHeader { packet_length }.write(&mut out);
    tpdu.write(&mut out);
    out.write_slice(body);
    assert(out@ =~= header_message(code, body@));
    out
}

fn decode_x224_header(cursor: &mut ReadCursor<'_>, expected: TpduCode) -> (r: Result<
    TpduHeader,
    DecodeError,
>)
    requires
        old(cursor).wf(),
    ensures
        final(cursor).wf(),
        final(cursor).data() == old(cursor).data(),
        cursor::reads(
            r,
            final(cursor).offset(),
            parse_header(old(cursor).data(), old(cursor).offset(), expected),
        ),
{
    let _tpkt: TpktHeader = TpktHeader::decode(cursor)?;
    TpduHeader::decode(cursor, expected)
}

/// Frames what is sent after the first exchange. The length indicator is 2
/// whatever the payload: user data is measured by the packet length alone.
pub fn wrap_data(payload: &[u8]) -> (out: Vec<u8>)
    ensures
        out@ == data_message(payload@),
{
    let packet_length: u16 = bytes::len16_plus(payload.len(), 7);
    let mut out: Vec<u8> = Vec::new();
    TpktHeader { packet_length }.write(&mut out);
    TpduHeader { li: 2, code: TpduCode::data() }.write(&mut out);
    out.write_slice(payload);
    assert(out@ =~= data_message(payload@));
    out
}

/// The user data of a message, which runs to the end of the input.
pub open spec fn parse_data(b: Seq<u8>) -> Result<Seq<u8>, DecodeError> {
    match parse_header(b, 0, TpduCode::data()) {
        Err(e) => Err(e),
        Ok((_, p)) => Ok(b.subrange(p, b.len() as int)),
    }
}

pub fn unwrap_data(input: &[u8]) -> (r: Result<&[u8], DecodeError>)
    ensures
        cursor::decodes_view(r, parse_data(input@)),
{
    let mut cursor = ReadCursor::new(input);
    let _tpdu: TpduHeader = decode_x224_header(&mut cursor, TpduCode::data())?;
    Ok(cursor.read_rest())
}

/// Unwrapping gives back what was wrapped, whatever its length.
pub proof fn law_data_round_trip(payload: Seq<u8>)
    ensures
        parse_data(data_message(payload)) == Ok::<Seq<u8>, DecodeError>(payload),
        data_message(payload).len() == 7 + payload.len(),
        data_message(payload)[4] == 2,
{
    broadcast use bytes::group_holds;

    let b = data_message(payload);
    let tpkt_header = TpktHeader { packet_length: bytes::low16(7int + payload.len()) };
    let tpdu_header = TpduHeader { li: 2, code: TpduCode::data() };
    bytes::lemma_holds_self(b);
    tpkt::law_round_trip(b, 0, tpkt_header);
    tpdu::law_round_trip(b, 4, tpdu_header);
}

/// Headers of a message whose contents belong to the header are read back, as
/// long as the length indicator can count them.
proof fn lemma_header_message(code: TpduCode, body: Seq<u8>)
    requires
        code.fixed_size() == 7,
        body.len() <= 248,
    ensures
        ({
            let b = header_message(code, body);
            let h = TpduHeader { li: (6 + body.len()) as u8, code };
            &&& parse_header(b, 0, code) == Ok::<(TpduHeader, int), DecodeError>((h, 11))
            &&& h.announced() == body.len()
            &&& b.len() == 11 + body.len()
            &&& bytes::holds_at(b, 11, body)
        }),
{
    broadcast use bytes::group_holds;

    let b = header_message(code, body);
    let li = bytes::low8(6int + body.len());
    bytes::lemma_holds_self(b);
    tpkt::law_round_trip(b, 0, TpktHeader { packet_length: (5 + li) as u16 });
    tpdu::law_round_trip(b, 4, TpduHeader { li, code });
}

/// Decoding gives back the Connection Confirm that was encoded.
pub proof fn law_confirm_round_trip(c: ConnectionConfirm)
    ensures
        parse_confirm(header_message(TpduCode::connection_confirm(), c.body())) == Ok::<
            ConnectionConfirm,
            DecodeError,
        >(c),
{
    broadcast use bytes::group_holds;

    lemma_header_message(TpduCode::connection_confirm(), c.body());
}

proof fn lemma_line_end(b: Seq<u8>, i: int, end: int)
    requires
        0 <= i <= end,
        end + 2 <= b.len(),
        b[end] == 0x0D && b[end + 1] == 0x0A,
        forall|j: int| i <= j < end ==> !(#[trigger] b[j] == 0x0D && b[j + 1] == 0x0A),
    ensures
        line_end(b, i) == Some(end),
    decreases end - i,
{
    if i < end {
        assert(!(b[i] == 0x0D && b[i + 1] == 0x0A));
        lemma_line_end(b, i + 1, end);
    }
}

/// The bytes of a text hold no end of line.
pub open spec fn one_line(s: Seq<u8>) -> bool {
    forall|j: int| 0 <= j < s.len() - 1 ==> !(#[trigger] s[j] == 0x0D && s[j + 1] == 0x0A)
}

proof fn lemma_cookie(b: Seq<u8>, p: int, s: Seq<u8>)
    requires
        bytes::holds_at(b, p, cookie_prefix()),
        bytes::holds_at(b, p + cookie_prefix().len(), s),
        bytes::holds_at(b, p + cookie_prefix().len() + s.len(), bytes::le16(0x0A0D)),
        one_line(s),
    ensures
        line_end(b, p + cookie_prefix().len()) == Some(p + cookie_prefix().len() + s.len()),
{
    broadcast use bytes::group_holds;

    let start = p + cookie_prefix().len();
    let end = start + s.len();
    assert(b[end] == 0x0D && b[end + 1] == 0x0A) by {
        reveal(bytes::u16_le);
    }
    assert forall|j: int| start <= j < end implies !(#[trigger] b[j] == 0x0D && b[j + 1]
        == 0x0A) by {
        let i = j - start;
        assert(b.subrange(start, end)[i] == b[j]);
        if j + 1 < end {
            assert(b.subrange(start, end)[i + 1] == b[j + 1]);
            assert(!(s[i] == 0x0D && s[i + 1] == 0x0A));
        }
    }
    lemma_line_end(b, start, end);
}

/// Decoding gives back the Connection Request that was encoded, where the
/// length indicator can count its contents and its cookie holds no end of
/// line.
pub proof fn law_request_round_trip(v: ConnectionRequestView)
    requires
        v.body().len() <= 248,
        v.cookie matches Some(c) ==> one_line(utf8::encode_utf8(c)),
    ensures
        parse_request(header_message(TpduCode::connection_request(), v.body())) == Ok::<
            ConnectionRequestView,
            DecodeError,
        >(v),
{
    let b = header_message(TpduCode::connection_request(), v.body());
    lemma_header_message(TpduCode::connection_request(), v.body());
    let nego = nego_wire(NEGO_REQUEST, v.flags.0, v.protocol.0);
    let k = cookie_prefix();
    let q = match v.cookie {
        None => 11int,
        Some(c) => 11int + k.len() + utf8::encode_utf8(c).len() + 2,
    };
    assert(parse_cookie(b, 11) == Ok::<(Option<Seq<char>>, int), DecodeError>((v.cookie, q))
        && bytes::holds_at(b, q, nego)) by {
        match v.cookie {
            None => {
                bytes::lemma_holds_bounds(b, 11, nego);
            },
            Some(c) => {
                let s = utf8::encode_utf8(c);
                let crlf = bytes::le16(0x0A0D);
                bytes::lemma_holds_add(b, 11, k + s + crlf, nego);
                bytes::lemma_holds_add(b, 11, k + s, crlf);
                bytes::lemma_holds_add(b, 11, k, s);
                bytes::lemma_holds_bounds(b, 11, k);
                bytes::lemma_holds_bounds(b, 11int + k.len(), s);
                bytes::lemma_holds_bounds(b, 11int + k.len() + s.len(), crlf);
                lemma_cookie(b, 11, s);
                utf8::encode_utf8_valid_utf8(c);
                utf8::encode_utf8_decode_utf8(c);
            },
        }
    }
    assert(q + 8 <= b.len() && b[q] == NEGO_REQUEST && b[q + 1] == v.flags.0 && bytes::u32_le_at(
        b,
        q + 4,
    ) == v.protocol.0) by {
        broadcast use bytes::group_holds;

    }
}

proof fn lemma_cookie_prefix()
    ensures
        COOKIE_PREFIX.spec_bytes() == cookie_prefix(),
{
    reveal_strlit("Cookie: mstshash=");
    is_ascii_spec_bytes("Cookie: mstshash=");
    assert(COOKIE_PREFIX.spec_bytes() =~= cookie_prefix());
}

/// What carries user data is seven bytes, with the length of all, and the data.
pub proof fn law_data_bytes(
    payload: &[u8],
    out: Vec<u8>,
    input: &[u8],
    r: Result<&[u8], DecodeError>,
)
    requires
        call_ensures(wrap_data, (payload,), out),
        call_ensures(unwrap_data, (input,), r),
        payload@.len() <= 65528,
    ensures
        out@.len() == 7 + payload@.len(),
        out@[0] == 3,
        out@[1] == 0,
        256 * out@[2] + out@[3] == out@.len(),
        out@[4] == 2,
        out@[5] == 0xF0,
        out@[6] == 0x80,
        out@.skip(7) == payload@,
        r is Ok <==> input@.len() >= 7 && input@[0] == 3 && input@[5] == 0xF0 && input@[4] != 255,
        r is Ok ==> r->Ok_0@ == input@.skip(7),
{
    let h = TpktHeader { packet_length: (7int + payload@.len()) as u16 };
    tpkt::law_header_bytes(h, input@, 0);
    tpdu::law_header_bytes(TpduHeader { li: 2, code: TpduCode::data() }, input@, 4, TpduCode::data());
    assert(out@.skip(7) =~= payload@);
    if input@.len() >= 7 {
        assert(input@.skip(7) =~= input@.subrange(7, input@.len() as int));
    }
}

/// Protocols and reasons have the numbers that a client knows them by.
pub proof fn law_protocol_numbers(a: SecurityProtocol, b: SecurityProtocol)
    ensures
        SecurityProtocol::rdp().0 == 0,
        SecurityProtocol::ssl().0 == 1,
        SecurityProtocol::hybrid().0 == 2,
        SecurityProtocol::rdstls().0 == 4,
        SecurityProtocol::hybrid_ex().0 == 8,
        FailureCode::ssl_required_by_server().0 == 1,
        FailureCode::ssl_not_allowed_by_server().0 == 2,
        FailureCode::ssl_cert_not_on_server().0 == 3,
        FailureCode::inconsistent_flags().0 == 4,
        FailureCode::hybrid_required_by_server().0 == 5,
        FailureCode::ssl_with_user_auth_required_by_server().0 == 6,
        a.contains(SecurityProtocol::ssl()) <==> a.0 % 2 == 1,
        a.contains(SecurityProtocol::hybrid()) <==> a.0 / 2 % 2 == 1,
        a.contains(a),
{
    let x = a.0;
    assert(x & 1 == 1 <==> x % 2 == 1) by (bit_vector);
    assert(x & 2 == 2 <==> x / 2 % 2 == 1) by (bit_vector);
    assert(x & x == x) by (bit_vector);
}

/// A Connection Request is eleven bytes of headers, the line with the cookie where
/// there is one, and eight bytes: 1, the flags, 8 and 0, and the protocols.
pub proof fn law_request_bytes(request: &ConnectionRequest, out: Vec<u8>)
    requires
        call_ensures(ConnectionRequest::encode, (request,), out),
        out@.len() <= 255,
    ensures
        out@[0] == 3,
        out@[1] == 0,
        256 * out@[2] + out@[3] == out@.len(),
        out@[4] == out@.len() - 5,
        out@[5] == 0xE0,
        forall|i: int| 6 <= i < 11 ==> #[trigger] out@[i] == 0,
        ({
            let n = out@.len() - 8;
            &&& out@[n] == 1
            &&& out@[n + 1] == request.flags.0
            &&& out@[n + 2] == 8
            &&& out@[n + 3] == 0
            &&& bytes::u32_le_at(out@, n + 4) == request.protocol.0
            &&& request.cookie is None ==> n == 11
            &&& request.cookie matches Some(c) ==> {
                &&& n == 11 + 17 + utf8::encode_utf8(c@).len() + 2
                &&& out@.subrange(11, 28) == cookie_prefix()
                &&& out@.subrange(28, n - 2) == utf8::encode_utf8(c@)
                &&& out@[n - 2] == 13
                &&& out@[n - 1] == 10
            }
        }),
{
    let body = request@.body();
    let h = header_message(TpduCode::connection_request(), body);
    let li = (6int + body.len()) as u8;
    tpkt::law_header_bytes(TpktHeader { packet_length: (5 + li) as u16 }, out@, 0);
    tpdu::law_header_bytes(
        TpduHeader { li, code: TpduCode::connection_request() },
        out@,
        4,
        TpduCode::connection_request(),
    );
    assert(out@.len() == 11 + body.len());
    assert(out@.skip(11) =~= body);
    reveal(bytes::le16);
    let nego = nego_wire(NEGO_REQUEST, request.flags.0, request.protocol.0);
    let n = out@.len() - 8;
    assert(nego.len() == 8);
    assert(forall|i: int| 0 <= i < 8 ==> out@[n + i] == #[trigger] nego[i]);
    assert(bytes::u32_le_at(nego, 4) == request.protocol.0);
    assert(nego[4] == out@[n + 4] && nego[5] == out@[n + 5] && nego[6] == out@[n + 6] && nego[7]
        == out@[n + 7]);
    assert(nego[2] == out@[n + 2] && nego[3] == out@[n + 3] && nego[0] == out@[n] && nego[1]
        == out@[n + 1]);
    if let Some(c) = request.cookie {
        let s = utf8::encode_utf8(c@);
        assert(out@.subrange(11, 28) =~= cookie_prefix());
        assert(out@.subrange(28, n - 2) =~= s);
    }
}

/// A Connection Request without a cookie is read from its last eight bytes.
pub proof fn law_request_decoded(input: &[u8], r: Result<ConnectionRequest, DecodeError>)
    requires
        call_ensures(ConnectionRequest::decode, (input,), r),
        r is Ok,
    ensures
        input@.len() >= 19,
        input@[0] == 3,
        input@[5] == 0xE0,
        r->Ok_0.cookie is None ==> {
            &&& input@[11] == 1
            &&& r->Ok_0.flags.0 == input@[12]
            &&& r->Ok_0.protocol.0 == bytes::u32_le_at(input@, 15)
        },
        r->Ok_0.cookie matches Some(c) ==> {
            &&& input@.subrange(11, 28) == cookie_prefix()
            &&& exists|n: int|
                28 <= n <= input@.len() - 10 && #[trigger] utf8::decode_utf8(
                    input@.subrange(28, n),
                ) == c@ && input@[n] == 13 && input@[n + 1] == 10 && input@[n + 2] == 1
                    && r->Ok_0.flags.0 == input@[n + 3] && r->Ok_0.protocol.0 == bytes::u32_le_at(
                    input@,
                    n + 6,
                )
        },
{
    let b = input@;
    tpkt::law_header_bytes(TpktHeader { packet_length: 0 }, b, 0);
    tpdu::law_header_bytes(
        TpduHeader { li: 0, code: TpduCode::connection_request() },
        b,
        4,
        TpduCode::connection_request(),
    );
    if r->Ok_0.cookie is Some {
        let n = line_end(b, 28)->Some_0;
        lemma_line_end_is(b, 28);
        assert(utf8::decode_utf8(b.subrange(28, n)) == r->Ok_0.cookie->Some_0@);
    }
}

proof fn lemma_line_end_is(b: Seq<u8>, i: int)
    requires
        0 <= i,
    ensures
        line_end(b, i) matches Some(n) ==> i <= n && n + 2 <= b.len() && b[n] == 13 && b[n + 1]
            == 10,
    decreases b.len() - i,
{
    if i + 2 <= b.len() && !(b[i] == 0x0D && b[i + 1] == 0x0A) {
        lemma_line_end_is(b, i + 1);
    }
}

/// A Connection Confirm is nineteen bytes; the last eight say whether a protocol was
/// chosen, 2, or why there is none, 3, and which.
pub proof fn law_confirm_bytes(
    confirm: &ConnectionConfirm,
    out: Vec<u8>,
    input: &[u8],
    r: Result<ConnectionConfirm, DecodeError>,
)
    requires
        call_ensures(ConnectionConfirm::encode, (confirm,), out),
        call_ensures(ConnectionConfirm::decode, (input,), r),
    ensures
        out@.len() == 19,
        out@[0] == 3,
        out@[1] == 0,
        out@[2] == 0,
        out@[3] == 19,
        out@[4] == 14,
        out@[5] == 0xD0,
        forall|i: int| 6 <= i < 11 ==> #[trigger] out@[i] == 0,
        out@[13] == 8,
        out@[14] == 0,
        *confirm matches ConnectionConfirm::Response { flags, protocol } ==> out@[11] == 2
            && out@[12] == flags.0 && bytes::u32_le_at(out@, 15) == protocol.0,
        *confirm matches ConnectionConfirm::Failure { code } ==> out@[11] == 3 && out@[12] == 0
            && bytes::u32_le_at(out@, 15) == code.0,
        r is Ok ==> input@.len() >= 19 && input@[5] == 0xD0,
        r matches Ok(ConnectionConfirm::Response { flags, protocol }) ==> input@[11] == 2
            && flags.0 == input@[12] && protocol.0 == bytes::u32_le_at(input@, 15),
        r matches Ok(ConnectionConfirm::Failure { code }) ==> input@[11] == 3 && code.0
            == bytes::u32_le_at(input@, 15),
{
    let b = input@;
    tpkt::law_header_bytes(TpktHeader { packet_length: 19 }, b, 0);
    tpdu::law_header_bytes(
        TpduHeader { li: 14, code: TpduCode::connection_confirm() },
        b,
        4,
        TpduCode::connection_confirm(),
    );
    reveal(bytes::le16);
    let body = confirm.body();
    assert(body.len() == 8);
    assert(out@.skip(11) =~= body);
    assert(forall|i: int| 0 <= i < 8 ==> out@[11 + i] == #[trigger] body[i]);
    assert(body[4] == out@[15] && body[5] == out@[16] && body[6] == out@[17] && body[7]
        == out@[18]);
    assert(body[0] == out@[11] && body[1] == out@[12] && body[2] == out@[13] && body[3]
        == out@[14]);
}

/// A confirmation is nineteen bytes. It is of type 2 and names a protocol, or of type 3
/// and says what is wrong.
pub proof fn law_confirm_layout(c: ConnectionConfirm)
    ensures
        ({
            let b = header_message(TpduCode::connection_confirm(), c.body());
            &&& b.len() == 19
            &&& b[5] == 0xD0
            &&& c matches ConnectionConfirm::Response { flags, protocol } ==> b[11] == 2 && b[12]
                == flags.0 && bytes::u32_le_at(b, 15) == protocol.0
            &&& c matches ConnectionConfirm::Failure { code } ==> b[11] == 3 && bytes::u32_le_at(
                b,
                15,
            ) == code.0
        }),
{
    let b = header_message(TpduCode::connection_confirm(), c.body());
    tpkt::law_header_bytes(TpktHeader { packet_length: 19 }, b, 0);
    tpdu::law_header_bytes(
        TpduHeader { li: 14, code: TpduCode::connection_confirm() },
        b,
        4,
        TpduCode::connection_confirm(),
    );
    reveal(bytes::le16);
    let body = c.body();
    assert(body.len() == 8);
    assert(b.skip(11) =~= body);
    assert(forall|i: int| 0 <= i < 8 ==> b[11 + i] == #[trigger] body[i]);
    assert(body[4] == b[15] && body[5] == b[16] && body[6] == b[17] && body[7] == b[18]);
    assert(body[0] == b[11] && body[1] == b[12] && body[2] == b[13] && body[3] == b[14]);
}

} // verus!
