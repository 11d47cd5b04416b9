//! Conference data: the request and response that carry the client's and the
//! server's data blocks, and the blocks themselves, each behind a type and a
//! length.

use vstd::prelude::*;
use vstd::slice::{slice_subrange, slice_to_vec};
use vstd::string::*;
use vstd::utf8;

use crate::bytes;
use crate::cursor;
use crate::cursor::{ReadCursor, WriteBuf};
use crate::model;
use crate::per;
use crate::text;
use crate::utf16;
use crate::DecodeError;

verus! {

broadcast use {bytes::group_bytes, model::lemma_views_push};

pub const CS_CORE: u16 = 0xC001;

pub const CS_SECURITY: u16 = 0xC002;

pub const CS_NET: u16 = 0xC003;

pub const CS_CLUSTER: u16 = 0xC004;

pub const CS_MONITOR: u16 = 0xC005;

pub const CS_MCS_MSGCHANNEL: u16 = 0xC006;

pub const SC_CORE: u16 = 0x0C01;

pub const SC_SECURITY: u16 = 0x0C02;

pub const SC_NET: u16 = 0x0C03;

pub const SC_MCS_MSGCHANNEL: u16 = 0x0C04;

/// The most static channels that are taken from a client.
pub const CHANNELS_MAX: usize = 31;

/// Early capability flags of a client.
pub const CS_SUPPORT_ERRINFO_PDU: u16 = 0x0001;

pub const CS_WANT_32BPP_SESSION: u16 = 0x0002;

/// Early capability flags of a server.
pub const SC_EDGE_ACTIONS_SUPPORTED_V1: u16 = 0x0001;

pub const SC_DYNAMIC_DST_SUPPORTED: u16 = 0x0002;

/// A block: its type, its length with this header, and its contents.
pub open spec fn block_wire(kind: u16, body: Seq<u8>) -> Seq<u8> {
    bytes::le16(kind) + bytes::le16(bytes::low16(body.len() + 4int)) + body
}

/// Type, contents and end of the block at offset `p`, where four bytes of it
/// are there.
pub open spec fn parse_block(b: Seq<u8>, p: int) -> Result<((u16, Seq<u8>), int), DecodeError> {
    let length = bytes::u16_le_at(b, p + 2);
    let n = if length >= 4 {
        length - 4
    } else {
        0
    };
    if p + 4 + n > b.len() {
        Err(cursor::short(b, p + 4, n))
    } else {
        Ok(((bytes::u16_le_at(b, p), b.subrange(p + 4, p + 4 + n)), p + 4 + n))
    }
}

pub fn write_block(out: &mut Vec<u8>, kind: u16, body: &[u8])
    ensures
        final(out)@ == old(out)@ + block_wire(kind, body@),
{
    let ghost before = out@;
    out.write_u16_le(kind);
    out.write_u16_le(bytes::len16_plus(body.len(), 4));
    out.write_slice(body);
    assert(out@ =~= before + block_wire(kind, body@));
}

fn read_block<'a>(cursor: &mut ReadCursor<'a>) -> (r: Result<(u16, &'a [u8]), DecodeError>)
    requires
        old(cursor).wf(),
        old(cursor).offset() + 4 <= old(cursor).data().len(),
    ensures
        final(cursor).wf(),
        final(cursor).data() == old(cursor).data(),
        match parse_block(old(cursor).data(), old(cursor).offset()) {
            Ok(((kind, body), q)) => r is Ok && r->Ok_0.0 == kind && r->Ok_0.1@ == body
                && final(cursor).offset() == q,
            Err(e) => r == Err::<(u16, &'a [u8]), DecodeError>(e),
        },
{
    let kind: u16 = cursor.take_u16_le()?;
    let length: u16 = cursor.take_u16_le()?;
    let n: usize = if length >= 4 {
        length as usize - 4
    } else {
        0
    };
    let body: &'a [u8] = cursor.take_slice(n)?;
    Ok((kind, body))
}

proof fn lemma_block(b: Seq<u8>, p: int, kind: u16, body: Seq<u8>)
    requires
        body.len() <= 0xFFFB,
        bytes::holds_at(b, p, block_wire(kind, body)),
    ensures
        p + 4 <= b.len(),
        parse_block(b, p) == Ok::<((u16, Seq<u8>), int), DecodeError>(
            ((kind, body), p + 4 + body.len()),
        ),
{
    broadcast use bytes::group_holds;

}

/// What a client says of itself. Fields past the fixed part are accepted and
/// left out.
#[derive(Debug, Clone, PartialEq, Eq)]
pub struct ClientCoreData {
    pub version: u32,
    pub desktop_width: u16,
    pub desktop_height: u16,
    pub color_depth: u16,
    pub sas_sequence: u16,
    pub keyboard_layout: u32,
    pub client_build: u32,
    pub client_name: String,
    pub keyboard_type: u32,
    pub keyboard_subtype: u32,
    pub keyboard_function_key: u32,
    pub ime_file_name: String,
}

/// What a [`ClientCoreData`] holds.
pub struct ClientCoreView {
    pub version: u32,
    pub desktop_width: u16,
    pub desktop_height: u16,
    pub color_depth: u16,
    pub sas_sequence: u16,
    pub keyboard_layout: u32,
    pub client_build: u32,
    pub client_name: Seq<char>,
    pub keyboard_type: u32,
    pub keyboard_subtype: u32,
    pub keyboard_function_key: u32,
    pub ime_file_name: Seq<char>,
}

impl View for ClientCoreData {
    type V = ClientCoreView;

    open spec fn view(&self) -> ClientCoreView {
        ClientCoreView {
            version: self.version,
            desktop_width: self.desktop_width,
            desktop_height: self.desktop_height,
            color_depth: self.color_depth,
            sas_sequence: self.sas_sequence,
            keyboard_layout: self.keyboard_layout,
            client_build: self.client_build,
            client_name: self.client_name@,
            keyboard_type: self.keyboard_type,
            keyboard_subtype: self.keyboard_subtype,
            keyboard_function_key: self.keyboard_function_key,
            ime_file_name: self.ime_file_name@,
        }
    }
}

pub open spec fn parse_client_core(b: Seq<u8>) -> Result<ClientCoreView, DecodeError> {
    if b.len() < 128 {
        Err(cursor::short(b, 0, 128))
    } else {
        Ok(
            ClientCoreView {
                version: bytes::u32_le_at(b, 0),
                desktop_width: bytes::u16_le_at(b, 4),
                desktop_height: bytes::u16_le_at(b, 6),
                color_depth: bytes::u16_le_at(b, 8),
                sas_sequence: bytes::u16_le_at(b, 10),
                keyboard_layout: bytes::u32_le_at(b, 12),
                client_build: bytes::u32_le_at(b, 16),
                client_name: utf16::fixed_text(b.subrange(20, 52)),
                keyboard_type: bytes::u32_le_at(b, 52),
                keyboard_subtype: bytes::u32_le_at(b, 56),
                keyboard_function_key: bytes::u32_le_at(b, 60),
                ime_file_name: utf16::fixed_text(b.subrange(64, 128)),
            },
        )
    }
}

impl ClientCoreView {
    pub open spec fn wire(self) -> Seq<u8> {
        bytes::le32(self.version) + bytes::le16(self.desktop_width) + bytes::le16(
            self.desktop_height,
        ) + bytes::le16(self.color_depth) + bytes::le16(self.sas_sequence) + bytes::le32(
            self.keyboard_layout,
        ) + bytes::le32(self.client_build) + utf16::unit_bytes(
            utf16::fixed_units(self.client_name, 16),
        ) + bytes::le32(self.keyboard_type) + bytes::le32(self.keyboard_subtype) + bytes::le32(
            self.keyboard_function_key,
        ) + utf16::unit_bytes(utf16::fixed_units(self.ime_file_name, 32))
    }

    /// The two texts fit their fields and hold no NUL.
    pub open spec fn fits(self) -> bool {
        &&& utf16::units(self.client_name).len() < 16
        &&& utf16::units(self.ime_file_name).len() < 32
        &&& forall|i: int| 0 <= i < self.client_name.len() ==> #[trigger] self.client_name[i]
            != '\0'
        &&& forall|i: int| 0 <= i < self.ime_file_name.len() ==> #[trigger] self.ime_file_name[i]
            != '\0'
    }
}

impl ClientCoreData {
    pub fn encode(&self) -> (out: Vec<u8>)
        ensures
            out@ == self@.wire(),
            out@.len() == 128,
    {
        let mut out: Vec<u8> = Vec::new();
        out.write_u32_le(self.version);
        out.write_u16_le(self.desktop_width);
        out.write_u16_le(self.desktop_height);
        out.write_u16_le(self.color_depth);
        out.write_u16_le(self.sas_sequence);
        out.write_u32_le(self.keyboard_layout);
        out.write_u32_le(self.client_build);
        utf16::write_fixed(&mut out, self.client_name.as_str(), 32);
        out.write_u32_le(self.keyboard_type);
        out.write_u32_le(self.keyboard_subtype);
        out.write_u32_le(self.keyboard_function_key);
        utf16::write_fixed(&mut out, self.ime_file_name.as_str(), 64);
        assert(out@ =~= self@.wire());
        out
    }

    fn decode(cursor: &mut ReadCursor<'_>) -> (r: Result<Self, DecodeError>)
        requires
            old(cursor).wf(),
            old(cursor).offset() == 0,
        ensures
            cursor::decodes_view(r, parse_client_core(old(cursor).data())),
    {
        match cursor.ensure(128) {
            Ok(_) => {},
            Err(e) => return Err(DecodeError::NotEnoughBytes(e)),
        }
        let version: u32 = cursor.take_u32_le()?;
        let desktop_width: u16 = cursor.take_u16_le()?;
        let desktop_height: u16 = cursor.take_u16_le()?;
        let color_depth: u16 = cursor.take_u16_le()?;
        let sas_sequence: u16 = cursor.take_u16_le()?;
        let keyboard_layout: u32 = cursor.take_u32_le()?;
        let client_build: u32 = cursor.take_u32_le()?;
        let client_name: String = utf16::read_fixed(cursor.take_slice(32)?);
        let keyboard_type: u32 = cursor.take_u32_le()?;
        let keyboard_subtype: u32 = cursor.take_u32_le()?;
        let keyboard_function_key: u32 = cursor.take_u32_le()?;
        let ime_file_name: String = utf16::read_fixed(cursor.take_slice(64)?);
        Ok(
            Self {
                version,
                desktop_width,
                desktop_height,
                color_depth,
                sas_sequence,
                keyboard_layout,
                client_build,
                client_name,
                keyboard_type,
                keyboard_subtype,
                keyboard_function_key,
                ime_file_name,
            },
        )
    }
}

/// Core data whose texts fit is read back as it was written.
pub proof fn law_client_core(v: ClientCoreView)
    requires
        v.fits(),
    ensures
        parse_client_core(v.wire()) == Ok::<ClientCoreView, DecodeError>(v),
        v.wire().len() == 128,
{
    let b = v.wire();
    bytes::lemma_holds_self(b);
    assert(parse_client_core(b) == Ok::<ClientCoreView, DecodeError>(
        ClientCoreView {
            client_name: utf16::fixed_text(
                utf16::unit_bytes(utf16::fixed_units(v.client_name, 16)),
            ),
            ime_file_name: utf16::fixed_text(
                utf16::unit_bytes(utf16::fixed_units(v.ime_file_name, 32)),
            ),
            ..v
        },
    )) by {
        broadcast use bytes::group_holds;

    }
    utf16::law_fixed(v.client_name, 16);
    utf16::law_fixed(v.ime_file_name, 32);
}

#[derive(Debug, Clone, Copy, PartialEq, Eq, Default)]
pub struct ClientSecurityData {
    pub encryption_methods: u32,
    pub ext_encryption_methods: u32,
}

/// Two 32-bit numbers, one after the other.
pub open spec fn parse_u32_pair(b: Seq<u8>) -> Result<(u32, u32), DecodeError> {
    if b.len() < 4 {
        Err(cursor::short(b, 0, 4))
    } else if b.len() < 8 {
        Err(cursor::short(b, 4, 4))
    } else {
        Ok((bytes::u32_le_at(b, 0), bytes::u32_le_at(b, 4)))
    }
}

fn read_u32_pair(body: &[u8]) -> (r: Result<(u32, u32), DecodeError>)
    ensures
        r == parse_u32_pair(body@),
{
    let mut cursor = ReadCursor::new(body);
    let first: u32 = cursor.take_u32_le()?;
    let second: u32 = cursor.take_u32_le()?;
    Ok((first, second))
}

impl ClientSecurityData {
    pub open spec fn wire(self) -> Seq<u8> {
        bytes::le32(self.encryption_methods) + bytes::le32(self.ext_encryption_methods)
    }

    pub fn encode(&self) -> (out: Vec<u8>)
        ensures
            out@ == self.wire(),
    {
        let mut out: Vec<u8> = Vec::new();
        out.write_u32_le(self.encryption_methods);
        out.write_u32_le(self.ext_encryption_methods);
        assert(out@ =~= self.wire());
        out
    }
}

/// A static channel that a client asks for.
#[derive(Debug, Clone, PartialEq, Eq)]
pub struct ChannelDef {
    pub name: String,
    pub options: u32,
}

/// What a [`ChannelDef`] holds.
pub struct ChannelDefView {
    pub name: Seq<char>,
    pub options: u32,
}

impl View for ChannelDef {
    type V = ChannelDefView;

    open spec fn view(&self) -> ChannelDefView {
        ChannelDefView { name: self.name@, options: self.options }
    }
}

/// Eight bytes of name, up to the first zero, and the options.
pub open spec fn parse_channel_def(b: Seq<u8>, p: int) -> Result<
    (ChannelDefView, int),
    DecodeError,
> {
    if p + 8 > b.len() {
        Err(cursor::short(b, p, 8))
    } else if p + 12 > b.len() {
        Err(cursor::short(b, p + 8, 4))
    } else {
        let field = b.subrange(p, p + 8);
        Ok(
            (
                ChannelDefView {
                    name: text::readable(field.take(bytes::until_zero(field))),
                    options: bytes::u32_le_at(b, p + 8),
                },
                p + 12,
            ),
        )
    }
}

impl ChannelDefView {
    /// The first seven bytes of the name, filled up to eight with zero.
    pub open spec fn name_field(self) -> Seq<u8> {
        let s = utf8::encode_utf8(self.name);
        Seq::new(8, |i: int| if i < 7 && i < s.len() { s[i] } else { 0 })
    }

    pub open spec fn wire(self) -> Seq<u8> {
        self.name_field() + bytes::le32(self.options)
    }

    /// The name fits its field and holds no zero byte.
    pub open spec fn fits(self) -> bool {
        let s = utf8::encode_utf8(self.name);
        s.len() <= 7 && forall|i: int| 0 <= i < s.len() ==> #[trigger] s[i] != 0
    }
}

impl ChannelDef {
    fn encode(&self, out: &mut Vec<u8>)
        ensures
            final(out)@ == old(out)@ + self@.wire(),
    {
        let ghost before = out@;
        let name: &[u8] = self.name.as_str().as_bytes();
        let n: usize = if name.len() < 7 {
            name.len()
        } else {
            7
        };
        out.write_slice(slice_subrange(name, 0, n));
        per::write_padding(out, 8 - n);
        out.write_u32_le(self.options);
        assert(out@ =~= before + self@.wire());
    }

    fn decode(cursor: &mut ReadCursor<'_>) -> (r: Result<Self, DecodeError>)
        requires
            old(cursor).wf(),
        ensures
            final(cursor).wf(),
            final(cursor).data() == old(cursor).data(),
            cursor::reads_view(
                r,
                final(cursor).offset(),
                parse_channel_def(old(cursor).data(), old(cursor).offset()),
            ),
    {
        let field: &[u8] = cursor.take_slice(8)?;
        let end: usize = bytes::find_zero(field);
        let name: String = text::lossy_text(slice_subrange(field, 0, end));
        assert(field@.take(end as int) =~= field@.subrange(0, end as int));
        let options: u32 = cursor.take_u32_le()?;
        Ok(Self { name, options })
    }
}

/// A channel whose name fits is read back as it was written.
pub proof fn law_channel_def(b: Seq<u8>, p: int, v: ChannelDefView)
    requires
        v.fits(),
        bytes::holds_at(b, p, v.wire()),
    ensures
        parse_channel_def(b, p) == Ok::<(ChannelDefView, int), DecodeError>((v, p + 12)),
{
    bytes::lemma_holds_add(b, p, v.name_field(), bytes::le32(v.options));
    bytes::lemma_holds_bounds(b, p, v.name_field());
    bytes::lemma_holds_bounds(b, p + 8, bytes::le32(v.options));
    bytes::lemma_holds_le32(b, p + 8, v.options);
    let s = utf8::encode_utf8(v.name);
    let field = v.name_field();
    assert forall|i: int| 0 <= i < s.len() implies field[i] != 0 by {
        assert(s[i] != 0);
    }
    bytes::lemma_until_zero(field, s.len() as int);
    assert(field.take(s.len() as int) =~= s);
    utf8::encode_utf8_valid_utf8(v.name);
    utf8::encode_utf8_decode_utf8(v.name);
}

#[derive(Debug, Clone, PartialEq, Eq, Default)]
pub struct ClientNetworkData {
    pub channels: Vec<ChannelDef>,
}

impl View for ClientNetworkData {
    type V = Seq<ChannelDefView>;

    open spec fn view(&self) -> Seq<ChannelDefView> {
        model::views(self.channels@)
    }
}

/// `n` channels read from offset `p` on.
pub open spec fn parse_channel_defs(b: Seq<u8>, p: int, n: nat) -> Result<
    (Seq<ChannelDefView>, int),
    DecodeError,
>
    decreases n,
{
    if n == 0 {
        Ok((seq![], p))
    } else {
        match parse_channel_defs(b, p, (n - 1) as nat) {
            Err(e) => Err(e),
            Ok((s, q)) => match parse_channel_def(b, q) {
                Err(e) => Err(e),
                Ok((v, next)) => Ok((s.push(v), next)),
            },
        }
    }
}

/// A count, and as many channels, but no more than [`CHANNELS_MAX`].
pub open spec fn parse_client_network(b: Seq<u8>) -> Result<Seq<ChannelDefView>, DecodeError> {
    if b.len() < 4 {
        Err(cursor::short(b, 0, 4))
    } else {
        let count = bytes::u32_le_at(b, 0);
        let n = if count <= CHANNELS_MAX {
            count as nat
        } else {
            CHANNELS_MAX as nat
        };
        match parse_channel_defs(b, 4, n) {
            Err(e) => Err(e),
            Ok((s, _)) => Ok(s),
        }
    }
}

/// Channels, one after the other.
pub open spec fn channel_defs_wire(s: Seq<ChannelDefView>) -> Seq<u8>
    decreases s.len(),
{
    if s.len() == 0 {
        seq![]
    } else {
        channel_defs_wire(s.drop_last()) + s.last().wire()
    }
}

pub open spec fn client_network_wire(s: Seq<ChannelDefView>) -> Seq<u8> {
    bytes::le32(bytes::low32(s.len() as int)) + channel_defs_wire(s)
}

proof fn lemma_channel_defs_error_stays(b: Seq<u8>, p: int, k: nat, n: nat)
    requires
        k <= n,
        parse_channel_defs(b, p, k) is Err,
    ensures
        parse_channel_defs(b, p, n) == parse_channel_defs(b, p, k),
    decreases n,
{
    if k < n {
        lemma_channel_defs_error_stays(b, p, k, (n - 1) as nat);
    }
}

proof fn lemma_channel_defs_round_trip(b: Seq<u8>, p: int, s: Seq<ChannelDefView>)
    requires
        bytes::holds_at(b, p, channel_defs_wire(s)),
        forall|i: int| 0 <= i < s.len() ==> (#[trigger] s[i]).fits(),
    ensures
        parse_channel_defs(b, p, s.len()) == Ok::<(Seq<ChannelDefView>, int), DecodeError>(
            (s, p + channel_defs_wire(s).len()),
        ),
        channel_defs_wire(s).len() == 12 * s.len(),
    decreases s.len(),
{
    if s.len() > 0 {
        let init = s.drop_last();
        bytes::lemma_holds_add(b, p, channel_defs_wire(init), s.last().wire());
        assert forall|i: int| 0 <= i < init.len() implies (#[trigger] init[i]).fits() by {
            assert(s[i].fits());
        }
        lemma_channel_defs_round_trip(b, p, init);
        law_channel_def(b, p + channel_defs_wire(init).len(), s.last());
        assert(init.push(s.last()) =~= s);
    } else {
        assert(s =~= Seq::<ChannelDefView>::empty());
    }
}

impl ClientNetworkData {
    pub fn encode(&self) -> (out: Vec<u8>)
        ensures
            out@ == client_network_wire(self@),
    {
        let mut out: Vec<u8> = Vec::new();
        out.write_u32_le(bytes::len32(self.channels.len()));
        let ghost head = out@;
        let n: usize = self.channels.len();
        let mut i: usize = 0;
        assert(self@.take(0) =~= Seq::<ChannelDefView>::empty());
        assert(out@ =~= head + channel_defs_wire(self@.take(0)));
        while i < n
            invariant
                i <= n,
                n == self.channels@.len(),
                out@ == head + channel_defs_wire(self@.take(i as int)),
            decreases n - i,
        {
            self.channels[i].encode(&mut out);
            proof {
                let t = self@.take(i + 1);
                assert(t.drop_last() =~= self@.take(i as int));
                assert(t.last() == self.channels@[i as int]@);
                assert(out@ =~= head + channel_defs_wire(t));
            }
            i = i + 1;
        }
        assert(self@.take(n as int) =~= self@);
        assert(out@ =~= client_network_wire(self@));
        out
    }

    fn decode(body: &[u8]) -> (r: Result<Self, DecodeError>)
        ensures
            cursor::decodes_view(r, parse_client_network(body@)),
    {
        let mut cursor = ReadCursor::new(body);
        let declared: u32 = cursor.take_u32_le()?;
        let count: usize = if declared <= CHANNELS_MAX as u32 {
            declared as usize
        } else {
            CHANNELS_MAX
        };
        let mut channels: Vec<ChannelDef> = Vec::new();
        let mut i: usize = 0;
        assert(model::views(channels@) =~= Seq::<ChannelDefView>::empty());
        while i < count
            invariant
                i <= count,
                cursor.wf(),
                cursor.data() == body@,
                parse_channel_defs(body@, 4, i as nat) == Ok::<
                    (Seq<ChannelDefView>, int),
                    DecodeError,
                >((model::views(channels@), cursor.offset())),
                parse_client_network(body@) == (match parse_channel_defs(body@, 4, count as nat) {
                    Err(e) => Err::<Seq<ChannelDefView>, DecodeError>(e),
                    Ok((s, _)) => Ok(s),
                }),
            decreases count - i,
        {
            match ChannelDef::decode(&mut cursor) {
                Ok(channel) => {
                    channels.push(channel);
                },
                Err(e) => {
                    proof {
                        lemma_channel_defs_error_stays(body@, 4, (i + 1) as nat, count as nat);
                    }
                    return Err(e);
                },
            }
            i = i + 1;
        }
        Ok(Self { channels })
    }
}

/// A list of at most [`CHANNELS_MAX`] channels whose names fit is read back as
/// it was written.
pub proof fn law_client_network(s: Seq<ChannelDefView>)
    requires
        s.len() <= CHANNELS_MAX,
        forall|i: int| 0 <= i < s.len() ==> (#[trigger] s[i]).fits(),
    ensures
        parse_client_network(client_network_wire(s)) == Ok::<Seq<ChannelDefView>, DecodeError>(s),
        client_network_wire(s).len() == 4 + 12 * s.len(),
{
    let b = client_network_wire(s);
    let count = bytes::low32(s.len() as int);
    bytes::lemma_holds_self(b);
    bytes::lemma_holds_add(b, 0, bytes::le32(count), channel_defs_wire(s));
    bytes::lemma_holds_le32(b, 0, count);
    lemma_channel_defs_round_trip(b, 4, s);
}

#[derive(Debug, Clone, Copy, PartialEq, Eq)]
pub struct ClientClusterData {
    pub flags: u32,
    pub redirected_session_id: u32,
}

#[derive(Debug, Clone, Copy, PartialEq, Eq)]
pub struct ClientMessageChannelData {
    pub flags: u32,
}

/// The blocks of a client.
#[derive(Debug, Clone, PartialEq, Eq)]
pub struct ClientGccBlocks {
    pub core: ClientCoreData,
    pub security: ClientSecurityData,
    pub network: Option<ClientNetworkData>,
    pub cluster: Option<ClientClusterData>,
    pub message_channel: Option<ClientMessageChannelData>,
    /// Read past the fixed part of the core data, where the client sent that
    /// much.
    pub early_capability_flags: Option<u16>,
}

/// What a [`ClientGccBlocks`] holds.
pub struct ClientGccBlocksView {
    pub core: ClientCoreView,
    pub security: ClientSecurityData,
    pub network: Option<Seq<ChannelDefView>>,
    pub cluster: Option<ClientClusterData>,
    pub message_channel: Option<ClientMessageChannelData>,
    pub early_capability_flags: Option<u16>,
}

impl View for ClientGccBlocks {
    type V = ClientGccBlocksView;

    open spec fn view(&self) -> ClientGccBlocksView {
        ClientGccBlocksView {
            core: self.core@,
            security: self.security,
            network: model::opt_view(self.network),
            cluster: self.cluster,
            message_channel: self.message_channel,
            early_capability_flags: self.early_capability_flags,
        }
    }
}

/// The flags at offset 140 of a client's core data, where it is that long.
pub open spec fn early_flags(body: Seq<u8>) -> Option<u16> {
    if body.len() < 142 {
        None
    } else {
        Some(bytes::u16_le_at(body, 140))
    }
}

/// The client blocks found so far.
pub struct ClientFound {
    pub core: Option<ClientCoreView>,
    pub security: Option<ClientSecurityData>,
    pub network: Option<Seq<ChannelDefView>>,
    pub cluster: Option<ClientClusterData>,
    pub message_channel: Option<ClientMessageChannelData>,
    pub early_capability_flags: Option<u16>,
}

impl ClientFound {
    pub open spec fn none() -> Self {
        ClientFound {
            core: None,
            security: None,
            network: None,
            cluster: None,
            message_channel: None,
            early_capability_flags: None,
        }
    }

    /// What is found with one more block. A block of a kind that was found
    /// before takes its place; one of a kind that is not known changes nothing.
    pub open spec fn with(self, kind: u16, body: Seq<u8>) -> Result<Self, DecodeError> {
        if kind == CS_CORE {
            match parse_client_core(body) {
                Err(e) => Err(e),
                Ok(core) => Ok(
                    ClientFound {
                        core: Some(core),
                        early_capability_flags: early_flags(body),
                        ..self
                    },
                ),
            }
        } else if kind == CS_SECURITY {
            match parse_u32_pair(body) {
                Err(e) => Err(e),
                Ok((encryption_methods, ext_encryption_methods)) => Ok(
                    ClientFound {
                        security: Some(
                            ClientSecurityData { encryption_methods, ext_encryption_methods },
                        ),
                        ..self
                    },
                ),
            }
        } else if kind == CS_NET {
            match parse_client_network(body) {
                Err(e) => Err(e),
                Ok(network) => Ok(ClientFound { network: Some(network), ..self }),
            }
        } else if kind == CS_CLUSTER {
            match parse_u32_pair(body) {
                Err(e) => Err(e),
                Ok((flags, redirected_session_id)) => Ok(
                    ClientFound {
                        cluster: Some(ClientClusterData { flags, redirected_session_id }),
                        ..self
                    },
                ),
            }
        } else if kind == CS_MCS_MSGCHANNEL {
            if body.len() < 4 {
                Err(cursor::short(body, 0, 4))
            } else {
                Ok(
                    ClientFound {
                        message_channel: Some(
                            ClientMessageChannelData { flags: bytes::u32_le_at(body, 0) },
                        ),
                        ..self
                    },
                )
            }
        } else {
            Ok(self)
        }
    }
}

/// The blocks from offset `p` on, added to what was found before. Fewer than
/// four bytes at the end are left out.
pub open spec fn walk_client(b: Seq<u8>, p: int, found: ClientFound) -> Result<
    ClientFound,
    DecodeError,
>
    decreases b.len() - p,
{
    if b.len() - p < 4 {
        Ok(found)
    } else {
        match parse_block(b, p) {
            Err(e) => Err(e),
            Ok(((kind, body), q)) => match found.with(kind, body) {
                Err(e) => Err(e),
                Ok(next) => walk_client(b, q, next),
            },
        }
    }
}

/// The blocks of a client. The core and the security block must be there.
pub open spec fn parse_client_blocks(b: Seq<u8>) -> Result<ClientGccBlocksView, DecodeError> {
    match walk_client(b, 0, ClientFound::none()) {
        Err(e) => Err(e),
        Ok(f) => match f.core {
            None => Err(
                cursor::invalid("gcc.client_blocks.core", "missing mandatory CS_CORE block"),
            ),
            Some(core) => match f.security {
                None => Err(
                    cursor::invalid(
                        "gcc.client_blocks.security",
                        "missing mandatory CS_SECURITY block",
                    ),
                ),
                Some(security) => Ok(
                    ClientGccBlocksView {
                        core,
                        security,
                        network: f.network,
                        cluster: f.cluster,
                        message_channel: f.message_channel,
                        early_capability_flags: f.early_capability_flags,
                    },
                ),
            },
        },
    }
}

proof fn lemma_channel_defs_len(b: Seq<u8>, p: int, n: nat)
    ensures
        parse_channel_defs(b, p, n) is Ok ==> parse_channel_defs(b, p, n)->Ok_0.0.len() == n,
    decreases n,
{
    if n > 0 {
        lemma_channel_defs_len(b, p, (n - 1) as nat);
    }
}

proof fn lemma_walk_channels(b: Seq<u8>, p: int, found: ClientFound)
    requires
        found.network is Some ==> found.network->Some_0.len() <= CHANNELS_MAX,
    ensures
        walk_client(b, p, found) matches Ok(f) ==> f.network is Some ==> f.network->Some_0.len()
            <= CHANNELS_MAX,
    decreases b.len() - p,
{
    if b.len() - p >= 4 {
        match parse_block(b, p) {
            Err(_) => {},
            Ok(((kind, body), q)) => match found.with(kind, body) {
                Err(_) => {},
                Ok(next) => {
                    if kind == CS_NET {
                        let count = bytes::u32_le_at(body, 0);
                        lemma_channel_defs_len(
                            body,
                            4,
                            if count <= CHANNELS_MAX {
                                count as nat
                            } else {
                                CHANNELS_MAX as nat
                            },
                        );
                    }
                    lemma_walk_channels(b, q, next);
                },
            },
        }
    }
}

/// However many channels a client lists, no more than [`CHANNELS_MAX`] are
/// taken from it.
pub proof fn law_channels_are_few(b: Seq<u8>)
    ensures
        parse_client_blocks(b) matches Ok(v) ==> v.network is Some ==> v.network->Some_0.len()
            <= CHANNELS_MAX,
{
    lemma_walk_channels(b, 0, ClientFound::none());
}

/// The client blocks being collected.
struct ClientParts {
    core: Option<ClientCoreData>,
    security: Option<ClientSecurityData>,
    network: Option<ClientNetworkData>,
    cluster: Option<ClientClusterData>,
    message_channel: Option<ClientMessageChannelData>,
    early_capability_flags: Option<u16>,
}

impl ClientParts {
    spec fn found(self) -> ClientFound {
        ClientFound {
            core: model::opt_view(self.core),
            security: self.security,
            network: model::opt_view(self.network),
            cluster: self.cluster,
            message_channel: self.message_channel,
            early_capability_flags: self.early_capability_flags,
        }
    }

    fn take(&mut self, kind: u16, body: &[u8]) -> (r: Result<(), DecodeError>)
        ensures
            match old(self).found().with(kind, body@) {
                Ok(next) => r is Ok && final(self).found() == next,
                Err(e) => r == Err::<(), DecodeError>(e),
            },
    {
        if kind == CS_CORE {
            let mut cursor = ReadCursor::new(body);
            self.early_capability_flags = early_capability_flags_from_cs_core(body);
            self.core = Some(ClientCoreData::decode(&mut cursor)?);
        } else if kind == CS_SECURITY {
            let (encryption_methods, ext_encryption_methods) = read_u32_pair(body)?;
            self.security = Some(
                ClientSecurityData { encryption_methods, ext_encryption_methods },
            );
        } else if kind == CS_NET {
            self.network = Some(ClientNetworkData::decode(body)?);
        } else if kind == CS_CLUSTER {
            let (flags, redirected_session_id) = read_u32_pair(body)?;
            self.cluster = Some(ClientClusterData { flags, redirected_session_id });
        } else if kind == CS_MCS_MSGCHANNEL {
            let mut cursor = ReadCursor::new(body);
            let flags: u32 = cursor.take_u32_le()?;
            self.message_channel = Some(ClientMessageChannelData { flags });
        }
        Ok(())
    }
}

fn early_capability_flags_from_cs_core(body: &[u8]) -> (r: Option<u16>)
    ensures
        r == early_flags(body@),
{
    if body.len() < 142 {
        return None;
    }
    proof {
        reveal(bytes::u16_le);
    }
    Some(body[140] as u16 + body[141] as u16 * 0x100)
}

impl ClientGccBlocksView {
    /// Core, security and, where there is one, network block. The other blocks
    /// are only ever received.
    pub open spec fn wire(self) -> Seq<u8> {
        let two = block_wire(CS_CORE, self.core.wire()) + block_wire(
            CS_SECURITY,
            self.security.wire(),
        );
        match self.network {
            Some(network) => two + block_wire(CS_NET, client_network_wire(network)),
            None => two,
        }
    }
}

impl ClientGccBlocks {
    pub fn encode(&self) -> (out: Vec<u8>)
        ensures
            out@ == self@.wire(),
    {
        let mut out: Vec<u8> = Vec::new();
        write_block(&mut out, CS_CORE, self.core.encode().as_slice());
        write_block(&mut out, CS_SECURITY, self.security.encode().as_slice());
        match &self.network {
            Some(network) => {
                write_block(&mut out, CS_NET, network.encode().as_slice());
            },
            None => {},
        }
        assert(out@ =~= self@.wire());
        out
    }

    pub fn decode(input: &[u8]) -> (r: Result<Self, DecodeError>)
        ensures
            cursor::decodes_view(r, parse_client_blocks(input@)),
    {
        let mut cursor = ReadCursor::new(input);
        let mut parts = ClientParts {
            core: None,
            security: None,
            network: None,
            cluster: None,
            message_channel: None,
            early_capability_flags: None,
        };
        while cursor.remaining() >= 4
            invariant
                cursor.wf(),
                cursor.data() == input@,
                walk_client(input@, cursor.offset(), parts.found()) == walk_client(
                    input@,
                    0,
                    ClientFound::none(),
                ),
            decreases input@.len() - cursor.offset(),
        {
            let (kind, body) = read_block(&mut cursor)?;
            parts.take(kind, body)?;
        }
        let core: ClientCoreData = match parts.core {
            Some(core) => core,
            None => return Err(
                DecodeError::InvalidValue {
                    field: "gcc.client_blocks.core",
                    reason: "missing mandatory CS_CORE block",
                },
            ),
        };
        let security: ClientSecurityData = match parts.security {
            Some(security) => security,
            None => return Err(
                DecodeError::InvalidValue {
                    field: "gcc.client_blocks.security",
                    reason: "missing mandatory CS_SECURITY block",
                },
            ),
        };
        Ok(
            Self {
                core,
                security,
                network: parts.network,
                cluster: parts.cluster,
                message_channel: parts.message_channel,
                early_capability_flags: parts.early_capability_flags,
            },
        )
    }
}

/// Decoding gives back the client blocks that were encoded, where their texts
/// fit, and holds no block that is only ever received.
pub proof fn law_client_blocks_round_trip(v: ClientGccBlocksView)
    requires
        v.core.fits(),
        v.network matches Some(s) ==> s.len() <= CHANNELS_MAX && forall|i: int|
            0 <= i < s.len() ==> (#[trigger] s[i]).fits(),
        v.cluster is None,
        v.message_channel is None,
        v.early_capability_flags is None,
    ensures
        parse_client_blocks(v.wire()) == Ok::<ClientGccBlocksView, DecodeError>(v),
{
    let b = v.wire();
    let core = v.core.wire();
    let security = v.security.wire();
    let first = block_wire(CS_CORE, core);
    let second = block_wire(CS_SECURITY, security);
    bytes::lemma_holds_self(b);
    if v.network is Some {
        bytes::lemma_holds_add(
            b,
            0,
            first + second,
            block_wire(CS_NET, client_network_wire(v.network->Some_0)),
        );
    }
    bytes::lemma_holds_add(b, 0, first, second);
    law_client_core(v.core);
    lemma_block(b, 0, CS_CORE, core);
    bytes::lemma_holds_self(security);
    bytes::lemma_holds_add(
        security,
        0,
        bytes::le32(v.security.encryption_methods),
        bytes::le32(v.security.ext_encryption_methods),
    );
    bytes::lemma_holds_le32(security, 0, v.security.encryption_methods);
    bytes::lemma_holds_le32(security, 4, v.security.ext_encryption_methods);
    lemma_block(b, 132, CS_SECURITY, security);
    let found1 = ClientFound { core: Some(v.core), ..ClientFound::none() };
    let found2 = ClientFound { security: Some(v.security), ..found1 };
    assert(walk_client(b, 0, ClientFound::none()) == walk_client(b, 132, found1));
    assert(walk_client(b, 132, found1) == walk_client(b, 144, found2));
    match v.network {
        Some(s) => {
            law_client_network(s);
            let n = client_network_wire(s).len() as int;
            lemma_block(b, 144, CS_NET, client_network_wire(s));
            let found3 = ClientFound { network: Some(s), ..found2 };
            assert(walk_client(b, 144, found2) == walk_client(b, 148 + n, found3));
            assert(walk_client(b, 148 + n, found3) == Ok::<ClientFound, DecodeError>(found3));
        },
        None => {
            assert(walk_client(b, 144, found2) == Ok::<ClientFound, DecodeError>(found2));
        },
    }
}

/// What a server says of itself.
#[derive(Debug, Clone, Copy, PartialEq, Eq)]
pub struct ServerCoreData {
    pub version: u32,
    pub client_requested_protocols: Option<u32>,
    /// Flags of the server, not an echo of the client's.
    pub early_capability_flags: Option<u32>,
}

/// The version, and each of the two other fields where four more bytes are
/// there.
pub open spec fn parse_server_core(b: Seq<u8>) -> Result<ServerCoreData, DecodeError> {
    if b.len() < 4 {
        Err(cursor::short(b, 0, 4))
    } else {
        Ok(
            ServerCoreData {
                version: bytes::u32_le_at(b, 0),
                client_requested_protocols: if b.len() >= 8 {
                    Some(bytes::u32_le_at(b, 4))
                } else {
                    None
                },
                early_capability_flags: if b.len() >= 12 {
                    Some(bytes::u32_le_at(b, 8))
                } else {
                    None
                },
            },
        )
    }
}

/// A number where there is one, else nothing.
pub open spec fn optional_u32(v: Option<u32>) -> Seq<u8> {
    match v {
        Some(v) => bytes::le32(v),
        None => seq![],
    }
}

impl ServerCoreData {
    pub open spec fn wire(self) -> Seq<u8> {
        bytes::le32(self.version) + optional_u32(self.client_requested_protocols) + optional_u32(
            self.early_capability_flags,
        )
    }

    pub fn encode(&self) -> (out: Vec<u8>)
        ensures
            out@ == self.wire(),
    {
        let mut out: Vec<u8> = Vec::new();
        out.write_u32_le(self.version);
        match self.client_requested_protocols {
            Some(protocols) => {
                out.write_u32_le(protocols);
            },
            None => {},
        }
        match self.early_capability_flags {
            Some(flags) => {
                out.write_u32_le(flags);
            },
            None => {},
        }
        assert(out@ =~= self.wire());
        out
    }

    fn decode(body: &[u8]) -> (r: Result<Self, DecodeError>)
        ensures
            r == parse_server_core(body@),
    {
        let mut cursor = ReadCursor::new(body);
        let version: u32 = cursor.take_u32_le()?;
        let client_requested_protocols: Option<u32> = if cursor.remaining() >= 4 {
            Some(cursor.take_u32_le()?)
        } else {
            None
        };
        let early_capability_flags: Option<u32> = if cursor.remaining() >= 4 {
            Some(cursor.take_u32_le()?)
        } else {
            None
        };
        Ok(Self { version, client_requested_protocols, early_capability_flags })
    }
}

/// A server's core data is read back as it was written, where the second field
/// does not come without the first.
pub proof fn law_server_core(v: ServerCoreData)
    requires
        v.early_capability_flags is Some ==> v.client_requested_protocols is Some,
    ensures
        parse_server_core(v.wire()) == Ok::<ServerCoreData, DecodeError>(v),
        v.wire().len() <= 12,
{
    broadcast use bytes::group_holds;

    bytes::lemma_holds_self(v.wire());
}

/// Security data of a server that leaves encryption to the transport.
#[derive(Debug, Clone, Copy, PartialEq, Eq, Default)]
pub struct ServerSecurityData;

/// Method and level, both zero.
pub open spec fn parse_server_security(b: Seq<u8>) -> Result<ServerSecurityData, DecodeError> {
    match parse_u32_pair(b) {
        Err(e) => Err(e),
        Ok((method, level)) => if method != 0 || level != 0 {
            Err(
                cursor::invalid(
                    "gcc.server_security",
                    "only the no-security (TLS-only) encoding is supported",
                ),
            )
        } else {
            Ok(ServerSecurityData)
        },
    }
}

impl ServerSecurityData {
    pub open spec fn wire(self) -> Seq<u8> {
        bytes::le32(0) + bytes::le32(0)
    }

    pub fn encode(&self) -> (out: Vec<u8>)
        ensures
            out@ == self.wire(),
    {
        let mut out: Vec<u8> = Vec::new();
        out.write_u32_le(0);  // no method
        out.write_u32_le(0);  // no level
        assert(out@ =~= self.wire());
        out
    }

    fn decode(body: &[u8]) -> (r: Result<Self, DecodeError>)
        ensures
            r == parse_server_security(body@),
    {
        let (method, level) = read_u32_pair(body)?;
        if method != 0 || level != 0 {
            return Err(
                DecodeError::InvalidValue {
                    field: "gcc.server_security",
                    reason: "only the no-security (TLS-only) encoding is supported",
                },
            );
        }
        Ok(Self)
    }
}

/// The channels that a server gives a client.
#[derive(Debug, Clone, PartialEq, Eq)]
pub struct ServerNetworkData {
    pub io_channel_id: u16,
    pub channel_ids: Vec<u16>,
}

/// What a [`ServerNetworkData`] holds.
pub struct ServerNetworkView {
    pub io_channel_id: u16,
    pub channel_ids: Seq<u16>,
}

impl View for ServerNetworkData {
    type V = ServerNetworkView;

    open spec fn view(&self) -> ServerNetworkView {
        ServerNetworkView { io_channel_id: self.io_channel_id, channel_ids: self.channel_ids@ }
    }
}

/// The main channel, a count, and as many channels.
pub open spec fn parse_server_network(b: Seq<u8>) -> Result<ServerNetworkView, DecodeError> {
    if b.len() < 2 {
        Err(cursor::short(b, 0, 2))
    } else if b.len() < 4 {
        Err(cursor::short(b, 2, 2))
    } else {
        let count = bytes::u16_le_at(b, 2);
        if b.len() < 4 + 2 * count {
            // The first number that is not all there.
            Err(cursor::short(b, 4 + 2 * ((b.len() - 4) / 2), 2))
        } else {
            Ok(
                ServerNetworkView {
                    io_channel_id: bytes::u16_le_at(b, 0),
                    channel_ids: Seq::new(
                        count as nat,
                        |i: int| bytes::u16_le_at(b, 4 + 2 * i),
                    ),
                },
            )
        }
    }
}

impl ServerNetworkView {
    /// Padded with zero to a multiple of four bytes.
    pub open spec fn wire(self) -> Seq<u8> {
        bytes::le16(self.io_channel_id) + bytes::le16(bytes::low16(self.channel_ids.len() as int))
            + utf16::unit_bytes(self.channel_ids) + if self.channel_ids.len() % 2 == 1 {
            bytes::le16(0)
        } else {
            seq![]
        }
    }
}

impl ServerNetworkData {
    pub fn encode(&self) -> (out: Vec<u8>)
        ensures
            out@ == self@.wire(),
    {
        let mut out: Vec<u8> = Vec::new();
        out.write_u16_le(self.io_channel_id);
        out.write_u16_le(bytes::len16(self.channel_ids.len()));
        let ghost head = out@;
        let n: usize = self.channel_ids.len();
        let mut i: usize = 0;
        assert(utf16::unit_bytes(self.channel_ids@.take(0)) =~= Seq::<u8>::empty());
        assert(out@ =~= head + utf16::unit_bytes(self.channel_ids@.take(0)));
        while i < n
            invariant
                i <= n,
                n == self.channel_ids@.len(),
                out@ == head + utf16::unit_bytes(self.channel_ids@.take(i as int)),
            decreases n - i,
        {
            out.write_u16_le(self.channel_ids[i]);
            proof {
                let t = self.channel_ids@.take(i as int);
                utf16::lemma_unit_bytes_push(t, self.channel_ids@[i as int]);
                assert(self.channel_ids@.take(i + 1) =~= t.push(self.channel_ids@[i as int]));
                assert(out@ =~= head + utf16::unit_bytes(self.channel_ids@.take(i + 1)));
            }
            i = i + 1;
        }
        assert(self.channel_ids@.take(n as int) =~= self.channel_ids@);
        if n % 2 == 1 {
            out.write_u16_le(0);
        }
        assert(out@ =~= self@.wire());
        out
    }

    pub fn decode(body: &[u8]) -> (r: Result<Self, DecodeError>)
        ensures
            cursor::decodes_view(r, parse_server_network(body@)),
    {
        let mut cursor = ReadCursor::new(body);
        let io_channel_id: u16 = cursor.take_u16_le()?;
        let count: usize = cursor.take_u16_le()? as usize;
        let mut channel_ids: Vec<u16> = Vec::new();
        let mut i: usize = 0;
        while i < count
            invariant
                i <= count,
                cursor.wf(),
                cursor.data() == body@,
                body@.len() >= 4,
                count == bytes::u16_le_at(body@, 2),
                cursor.offset() == 4 + 2 * i,
                channel_ids@ =~= Seq::new(i as nat, |j: int| bytes::u16_le_at(body@, 4 + 2 * j)),
            decreases count - i,
        {
            let id: u16 = cursor.take_u16_le()?;
            channel_ids.push(id);
            i = i + 1;
        }
        Ok(Self { io_channel_id, channel_ids })
    }
}

/// A list of channels is read back as it was written.
pub proof fn law_server_network(v: ServerNetworkView)
    requires
        v.channel_ids.len() <= 0xFFFF,
    ensures
        parse_server_network(v.wire()) == Ok::<ServerNetworkView, DecodeError>(v),
        v.wire().len() <= 6 + 2 * v.channel_ids.len(),
{
    let b = v.wire();
    let u = utf16::unit_bytes(v.channel_ids);
    let count = bytes::low16(v.channel_ids.len() as int);
    let pad = if v.channel_ids.len() % 2 == 1 {
        bytes::le16(0)
    } else {
        seq![]
    };
    bytes::lemma_holds_self(b);
    bytes::lemma_holds_add(b, 0, bytes::le16(v.io_channel_id) + bytes::le16(count) + u, pad);
    bytes::lemma_holds_add(b, 0, bytes::le16(v.io_channel_id) + bytes::le16(count), u);
    bytes::lemma_holds_add(b, 0, bytes::le16(v.io_channel_id), bytes::le16(count));
    bytes::lemma_holds_le16(b, 0, v.io_channel_id);
    bytes::lemma_holds_le16(b, 2, count);
    bytes::lemma_holds_bounds(b, 4, u);
    utf16::law_unit_bytes(v.channel_ids);
    assert forall|i: int| 0 <= i < v.channel_ids.len() implies bytes::u16_le_at(b, 4 + 2 * i)
        == v.channel_ids[i] by {
        assert(b.subrange(4, 4int + u.len())[2 * i] == b[4 + 2 * i]);
        assert(b.subrange(4, 4int + u.len())[2 * i + 1] == b[4 + 2 * i + 1]);
        assert(utf16::byte_units(u)[i] == bytes::u16_le_at(u, 2 * i));
    }
    assert(Seq::new(v.channel_ids.len(), |i: int| bytes::u16_le_at(b, 4 + 2 * i))
        =~= v.channel_ids);
}

#[derive(Debug, Clone, Copy, PartialEq, Eq)]
pub struct ServerMessageChannelData {
    pub mcs_channel_id: u16,
}

/// The blocks of a server.
#[derive(Debug, Clone, PartialEq, Eq)]
pub struct ServerGccBlocks {
    pub core: ServerCoreData,
    pub network: ServerNetworkData,
    pub security: ServerSecurityData,
    /// Sent to a client that asked for a message channel.
    pub message_channel: Option<ServerMessageChannelData>,
}

/// What a [`ServerGccBlocks`] holds.
pub struct ServerGccBlocksView {
    pub core: ServerCoreData,
    pub network: ServerNetworkView,
    pub security: ServerSecurityData,
    pub message_channel: Option<ServerMessageChannelData>,
}

impl View for ServerGccBlocks {
    type V = ServerGccBlocksView;

    open spec fn view(&self) -> ServerGccBlocksView {
        ServerGccBlocksView {
            core: self.core,
            network: self.network@,
            security: self.security,
            message_channel: self.message_channel,
        }
    }
}

/// The server blocks found so far.
pub struct ServerFound {
    pub core: Option<ServerCoreData>,
    pub network: Option<ServerNetworkView>,
    pub security: Option<ServerSecurityData>,
    pub message_channel: Option<ServerMessageChannelData>,
}

impl ServerFound {
    pub open spec fn none() -> Self {
        ServerFound { core: None, network: None, security: None, message_channel: None }
    }

    /// What is found with one more block, as for a client.
    pub open spec fn with(self, kind: u16, body: Seq<u8>) -> Result<Self, DecodeError> {
        if kind == SC_CORE {
            match parse_server_core(body) {
                Err(e) => Err(e),
                Ok(core) => Ok(ServerFound { core: Some(core), ..self }),
            }
        } else if kind == SC_NET {
            match parse_server_network(body) {
                Err(e) => Err(e),
                Ok(network) => Ok(ServerFound { network: Some(network), ..self }),
            }
        } else if kind == SC_SECURITY {
            match parse_server_security(body) {
                Err(e) => Err(e),
                Ok(security) => Ok(ServerFound { security: Some(security), ..self }),
            }
        } else if kind == SC_MCS_MSGCHANNEL {
            if body.len() < 2 {
                Err(cursor::short(body, 0, 2))
            } else {
                Ok(
                    ServerFound {
                        message_channel: Some(
                            ServerMessageChannelData { mcs_channel_id: bytes::u16_le_at(body, 0) },
                        ),
                        ..self
                    },
                )
            }
        } else {
            Ok(self)
        }
    }
}

/// The blocks from offset `p` on, added to what was found before.
pub open spec fn walk_server(b: Seq<u8>, p: int, found: ServerFound) -> Result<
    ServerFound,
    DecodeError,
>
    decreases b.len() - p,
{
    if b.len() - p < 4 {
        Ok(found)
    } else {
        match parse_block(b, p) {
            Err(e) => Err(e),
            Ok(((kind, body), q)) => match found.with(kind, body) {
                Err(e) => Err(e),
                Ok(next) => walk_server(b, q, next),
            },
        }
    }
}

/// The blocks of a server. All but the message channel must be there.
pub open spec fn parse_server_blocks(b: Seq<u8>) -> Result<ServerGccBlocksView, DecodeError> {
    match walk_server(b, 0, ServerFound::none()) {
        Err(e) => Err(e),
        Ok(f) => if f.core is None {
            Err(cursor::invalid("gcc.server_blocks.core", "missing mandatory SC_CORE block"))
        } else if f.network is None {
            Err(cursor::invalid("gcc.server_blocks.network", "missing mandatory SC_NET block"))
        } else if f.security is None {
            Err(
                cursor::invalid(
                    "gcc.server_blocks.security",
                    "missing mandatory SC_SECURITY block",
                ),
            )
        } else {
            Ok(
                ServerGccBlocksView {
                    core: f.core->Some_0,
                    network: f.network->Some_0,
                    security: f.security->Some_0,
                    message_channel: f.message_channel,
                },
            )
        },
    }
}

/// The server blocks being collected.
struct ServerParts {
    core: Option<ServerCoreData>,
    network: Option<ServerNetworkData>,
    security: Option<ServerSecurityData>,
    message_channel: Option<ServerMessageChannelData>,
}

impl ServerParts {
    spec fn found(self) -> ServerFound {
        ServerFound {
            core: self.core,
            network: model::opt_view(self.network),
            security: self.security,
            message_channel: self.message_channel,
        }
    }

    fn take(&mut self, kind: u16, body: &[u8]) -> (r: Result<(), DecodeError>)
        ensures
            match old(self).found().with(kind, body@) {
                Ok(next) => r is Ok && final(self).found() == next,
                Err(e) => r == Err::<(), DecodeError>(e),
            },
    {
        if kind == SC_CORE {
            self.core = Some(ServerCoreData::decode(body)?);
        } else if kind == SC_NET {
            self.network = Some(ServerNetworkData::decode(body)?);
        } else if kind == SC_SECURITY {
            self.security = Some(ServerSecurityData::decode(body)?);
        } else if kind == SC_MCS_MSGCHANNEL {
            let mut cursor = ReadCursor::new(body);
            let mcs_channel_id: u16 = cursor.take_u16_le()?;
            self.message_channel = Some(ServerMessageChannelData { mcs_channel_id });
        }
        Ok(())
    }
}

impl ServerGccBlocksView {
    pub open spec fn wire(self) -> Seq<u8> {
        let three = block_wire(SC_CORE, self.core.wire()) + block_wire(
            SC_NET,
            self.network.wire(),
        ) + block_wire(SC_SECURITY, self.security.wire());
        match self.message_channel {
            Some(m) => three + block_wire(SC_MCS_MSGCHANNEL, bytes::le16(m.mcs_channel_id)),
            None => three,
        }
    }
}

impl ServerGccBlocks {
    pub fn encode(&self) -> (out: Vec<u8>)
        ensures
            out@ == self@.wire(),
    {
        let mut out: Vec<u8> = Vec::new();
        write_block(&mut out, SC_CORE, self.core.encode().as_slice());
        write_block(&mut out, SC_NET, self.network.encode().as_slice());
        write_block(&mut out, SC_SECURITY, self.security.encode().as_slice());
        match &self.message_channel {
            Some(message_channel) => {
                let mut body: Vec<u8> = Vec::new();
                body.write_u16_le(message_channel.mcs_channel_id);
                assert(body@ =~= bytes::le16(message_channel.mcs_channel_id));
                write_block(&mut out, SC_MCS_MSGCHANNEL, body.as_slice());
            },
            None => {},
        }
        assert(out@ =~= self@.wire());
        out
    }

    pub fn decode(input: &[u8]) -> (r: Result<Self, DecodeError>)
        ensures
            cursor::decodes_view(r, parse_server_blocks(input@)),
    {
        let mut cursor = ReadCursor::new(input);
        let mut parts = ServerParts {
            core: None,
            network: None,
            security: None,
            message_channel: None,
        };
        while cursor.remaining() >= 4
            invariant
                cursor.wf(),
                cursor.data() == input@,
                walk_server(input@, cursor.offset(), parts.found()) == walk_server(
                    input@,
                    0,
                    ServerFound::none(),
                ),
            decreases input@.len() - cursor.offset(),
        {
            let (kind, body) = read_block(&mut cursor)?;
            parts.take(kind, body)?;
        }
        let core: ServerCoreData = match parts.core {
            Some(core) => core,
            None => return Err(
                DecodeError::InvalidValue {
                    field: "gcc.server_blocks.core",
                    reason: "missing mandatory SC_CORE block",
                },
            ),
        };
        let network: ServerNetworkData = match parts.network {
            Some(network) => network,
            None => return Err(
                DecodeError::InvalidValue {
                    field: "gcc.server_blocks.network",
                    reason: "missing mandatory SC_NET block",
                },
            ),
        };
        let security: ServerSecurityData = match parts.security {
            Some(security) => security,
            None => return Err(
                DecodeError::InvalidValue {
                    field: "gcc.server_blocks.security",
                    reason: "missing mandatory SC_SECURITY block",
                },
            ),
        };
        Ok(Self { core, network, security, message_channel: parts.message_channel })
    }
}

proof fn lemma_walk_server(
    b: Seq<u8>,
    p: int,
    found: ServerFound,
    kind: u16,
    body: Seq<u8>,
    next: ServerFound,
)
    requires
        body.len() <= 0xFFFB,
        bytes::holds_at(b, p, block_wire(kind, body)),
        found.with(kind, body) == Ok::<ServerFound, DecodeError>(next),
    ensures
        walk_server(b, p, found) == walk_server(b, p + 4 + body.len(), next),
        block_wire(kind, body).len() == 4 + body.len(),
{
    lemma_block(b, p, kind, body);
}

/// Decoding gives back the server blocks that were encoded.
#[verifier::spinoff_prover]
#[verifier::rlimit(60)]
pub proof fn law_server_blocks_round_trip(v: ServerGccBlocksView)
    requires
        v.core.early_capability_flags is Some ==> v.core.client_requested_protocols is Some,
        v.network.channel_ids.len() <= 0x7FFA,
    ensures
        parse_server_blocks(v.wire()) == Ok::<ServerGccBlocksView, DecodeError>(v),
{
    let b = v.wire();
    let core = v.core.wire();
    let network = v.network.wire();
    let security = v.security.wire();
    let first = block_wire(SC_CORE, core);
    let second = block_wire(SC_NET, network);
    let third = block_wire(SC_SECURITY, security);
    let found1 = ServerFound { core: Some(v.core), ..ServerFound::none() };
    let found2 = ServerFound { network: Some(v.network), ..found1 };
    let found3 = ServerFound { security: Some(v.security), ..found2 };
    bytes::lemma_holds_self(b);
    if v.message_channel is Some {
        bytes::lemma_holds_add(
            b,
            0,
            first + second + third,
            block_wire(SC_MCS_MSGCHANNEL, bytes::le16(v.message_channel->Some_0.mcs_channel_id)),
        );
    }
    bytes::lemma_holds_add(b, 0, first + second, third);
    bytes::lemma_holds_add(b, 0, first, second);
    law_server_core(v.core);
    law_server_network(v.network);
    assert(parse_server_security(security) == Ok::<ServerSecurityData, DecodeError>(v.security)
        && security.len() == 8) by {
        bytes::lemma_holds_self(security);
        bytes::lemma_holds_add(security, 0, bytes::le32(0), bytes::le32(0));
        bytes::lemma_holds_le32(security, 0, 0);
        bytes::lemma_holds_le32(security, 4, 0);
    }
    let p1 = first.len() as int;
    let p2 = p1 + second.len();
    let p3 = p2 + third.len();
    lemma_walk_server(b, 0, ServerFound::none(), SC_CORE, core, found1);
    lemma_walk_server(b, p1, found1, SC_NET, network, found2);
    lemma_walk_server(b, p2, found2, SC_SECURITY, security, found3);
    match v.message_channel {
        Some(m) => {
            let body = bytes::le16(m.mcs_channel_id);
            let found4 = ServerFound { message_channel: Some(m), ..found3 };
            bytes::lemma_holds_self(body);
            bytes::lemma_holds_le16(body, 0, m.mcs_channel_id);
            lemma_walk_server(b, p3, found3, SC_MCS_MSGCHANNEL, body, found4);
        },
        None => {},
    }
}

/// The object identifier of the conference protocol.
pub open spec fn conference_object_id() -> Seq<u8> {
    seq![0, 0, 20, 124, 0, 1]
}

/// "Duca", which marks data from client to server.
pub open spec fn client_to_server_key() -> Seq<u8> {
    seq![0x44, 0x75, 0x63, 0x61]
}

/// "McDn", which marks data from server to client.
pub open spec fn server_to_client_key() -> Seq<u8> {
    seq![0x4D, 0x63, 0x44, 0x6E]
}

/// A byte that must have one value.
pub open spec fn parse_expected(b: Seq<u8>, p: int, expected: u8, field: &'static str) -> Result<
    ((), int),
    DecodeError,
> {
    if p + 1 > b.len() {
        Err(cursor::short(b, p, 1))
    } else if b[p] != expected {
        Err(cursor::invalid(field, "unexpected fixed byte value"))
    } else {
        Ok(((), p + 1))
    }
}

fn expect_byte(cursor: &mut ReadCursor<'_>, expected: u8, field: &'static str) -> (r: Result<
    (),
    DecodeError,
>)
    requires
        old(cursor).wf(),
    ensures
        final(cursor).wf(),
        final(cursor).data() == old(cursor).data(),
        cursor::reads(
            r,
            final(cursor).offset(),
            parse_expected(old(cursor).data(), old(cursor).offset(), expected, field),
        ),
{
    let got: u8 = cursor.take_u8()?;
    if got != expected {
        return Err(DecodeError::InvalidValue { field, reason: "unexpected fixed byte value" });
    }
    Ok(())
}

/// The key and the object identifier that open both messages, and a length.
pub open spec fn parse_connect_data(b: Seq<u8>, field: &'static str) -> Result<
    ((), int),
    DecodeError,
> {
    match parse_expected(b, 0, 0x00, field) {
        Err(e) => Err(e),
        Ok((_, p1)) => match per::parse_object_id(b, p1) {
            Err(e) => Err(e),
            Ok((_, p2)) => match per::parse_length(b, p2) {
                Err(e) => Err(e),
                Ok((_, p3)) => Ok(((), p3)),
            },
        },
    }
}

/// The number of sets, the key of the one set, and its contents.
pub open spec fn parse_user_data(b: Seq<u8>, p: int) -> Result<(Seq<u8>, int), DecodeError> {
    match per::parse_u8(b, p) {
        Err(e) => Err(e),
        Ok((_, p1)) => match per::parse_u8(b, p1) {
            Err(e) => Err(e),
            Ok((_, p2)) => match per::parse_octet_string(b, p2, 4) {
                Err(e) => Err(e),
                Ok((_, p3)) => per::parse_octet_string(b, p3, 0),
            },
        },
    }
}

fn write_connect_data(out: &mut Vec<u8>, length: usize)
    ensures
        final(out)@ == old(out)@ + connect_data_wire(length),
{
    let ghost before = out@;
    let id: [u8; 6] = [0, 0, 20, 124, 0, 1];
    assert(id@ =~= conference_object_id());
    out.write_u8(0x00);
    per::write_object_id(out, id);
    per::write_length(out, length);
    assert(out@ =~= before + connect_data_wire(length));
}

pub open spec fn connect_data_wire(length: usize) -> Seq<u8> {
    seq![0x00u8] + per::object_id_bytes(conference_object_id()) + per::length_bytes(length)
}

pub open spec fn user_data_wire(key: Seq<u8>, blocks: Seq<u8>) -> Seq<u8> {
    seq![1u8] + seq![0xC0u8] + per::octet_string_bytes(key, 4) + per::octet_string_bytes(blocks, 0)
}

fn write_user_data(out: &mut Vec<u8>, key: &[u8], blocks: &[u8])
    requires
        key@.len() == 4,
    ensures
        final(out)@ == old(out)@ + user_data_wire(key@, blocks@),
{
    let ghost before = out@;
    per::write_number_of_sets(out, 1);
    out.write_u8(0xC0);
    per::write_octet_string(out, key, 4);
    per::write_octet_string(out, blocks, 0);
    assert(out@ =~= before + user_data_wire(key@, blocks@));
}

fn read_connect_data(cursor: &mut ReadCursor<'_>, field: &'static str) -> (r: Result<
    (),
    DecodeError,
>)
    requires
        old(cursor).wf(),
        old(cursor).offset() == 0,
    ensures
        final(cursor).wf(),
        final(cursor).data() == old(cursor).data(),
        cursor::reads(r, final(cursor).offset(), parse_connect_data(old(cursor).data(), field)),
{
    expect_byte(cursor, 0x00, field)?;
    let _oid: [u8; 6] = per::read_object_id(cursor)?;
    let _connect_pdu_len: usize = per::read_length(cursor)?;
    Ok(())
}

fn read_user_data(cursor: &mut ReadCursor<'_>) -> (r: Result<Vec<u8>, DecodeError>)
    requires
        old(cursor).wf(),
    ensures
        final(cursor).wf(),
        final(cursor).data() == old(cursor).data(),
        cursor::reads_view(
            r,
            final(cursor).offset(),
            parse_user_data(old(cursor).data(), old(cursor).offset()),
        ),
{
    let _number_of_sets: u8 = per::read_number_of_sets(cursor)?;
    let _entry_key_choice: u8 = per::read_choice(cursor)?;
    let _key: &[u8] = per::read_octet_string(cursor, 4)?;
    let blocks: &[u8] = per::read_octet_string(cursor, 0)?;
    Ok(slice_to_vec(blocks))
}

proof fn lemma_user_data(b: Seq<u8>, p: int, key: Seq<u8>, blocks: Seq<u8>)
    requires
        key.len() == 4,
        blocks.len() <= 0x7FFF,
        bytes::holds_at(b, p, user_data_wire(key, blocks)),
    ensures
        parse_user_data(b, p) == Ok::<(Seq<u8>, int), DecodeError>(
            (blocks, p + user_data_wire(key, blocks).len()),
        ),
{
    let one = seq![1u8];
    let c0 = seq![0xC0u8];
    let k = per::octet_string_bytes(key, 4);
    let d = per::octet_string_bytes(blocks, 0);
    bytes::lemma_holds_add(b, p, one + c0 + k, d);
    bytes::lemma_holds_add(b, p, one + c0, k);
    bytes::lemma_holds_bounds(b, p, one + c0);
    per::law_octet_string(b, p + 2, key, 4);
    per::law_octet_string(b, p + 2 + k.len(), blocks, 0);
}

proof fn lemma_connect_data(b: Seq<u8>, length: usize, field: &'static str)
    requires
        length <= 0x7FFF,
        bytes::holds_at(b, 0, connect_data_wire(length)),
    ensures
        parse_connect_data(b, field) == Ok::<((), int), DecodeError>(
            ((), connect_data_wire(length).len() as int),
        ),
{
    let zero = seq![0x00u8];
    let id = per::object_id_bytes(conference_object_id());
    bytes::lemma_holds_add(b, 0, zero + id, per::length_bytes(length));
    bytes::lemma_holds_add(b, 0, zero, id);
    bytes::lemma_holds_u8(b, 0, 0x00);
    bytes::lemma_holds_bounds(b, 0, zero);
    per::law_object_id(b, 1, conference_object_id());
    per::law_length(b, 7, length);
}

/// A client's conference request, which carries its data blocks.
#[derive(Debug, Clone, PartialEq, Eq)]
pub struct ConferenceCreateRequest {
    pub client_gcc_blocks: Vec<u8>,
}

impl View for ConferenceCreateRequest {
    type V = Seq<u8>;

    open spec fn view(&self) -> Seq<u8> {
        self.client_gcc_blocks@
    }
}

/// The data blocks of a conference request. Name, object identifier, key and
/// the outer length are read and not used.
pub open spec fn parse_conference_request(b: Seq<u8>) -> Result<Seq<u8>, DecodeError> {
    match parse_connect_data(b, "gcc.conference_request.key_choice") {
        Err(e) => Err(e),
        Ok((_, p1)) => match parse_expected(
            b,
            p1,
            0x00,
            "gcc.conference_request.gcc_pdu_choice",
        ) {
            Err(e) => Err(e),
            Ok((_, p2)) => match per::parse_u8(b, p2) {
                Err(e) => Err(e),
                Ok((_, p3)) => match per::parse_numeric_string(b, p3, 1) {
                    Err(e) => Err(e),
                    Ok((_, p4)) => match per::parse_padding(b, p4, 1) {
                        Err(e) => Err(e),
                        Ok((_, p5)) => match parse_user_data(b, p5) {
                            Err(e) => Err(e),
                            Ok((blocks, _)) => Ok(blocks),
                        },
                    },
                },
            },
        },
    }
}

/// A conference request: the conference is named "1".
pub open spec fn conference_request_wire(blocks: Seq<u8>) -> Seq<u8> {
    connect_data_wire((blocks.len() + 12) as usize) + seq![0x00u8] + seq![0x08u8]
        + per::numeric_string_bytes(seq![0x31u8], 1) + bytes::zeros(1) + user_data_wire(
        client_to_server_key(),
        blocks,
    )
}

impl ConferenceCreateRequest {
    pub fn encode(&self) -> (out: Vec<u8>)
        requires
            self.client_gcc_blocks@.len() <= usize::MAX - 12,
        ensures
            out@ == conference_request_wire(self@),
    {
        let mut out: Vec<u8> = Vec::new();
        write_connect_data(&mut out, self.client_gcc_blocks.len() + 12);
        out.write_u8(0x00);
        out.write_u8(0x08);  // user data follows
        let name: &str = "1";
        proof {
            reveal_strlit("1");
            is_ascii_spec_bytes("1");
            assert(name.spec_bytes() =~= seq![0x31u8]);
        }
        per::write_numeric_string(&mut out, name, 1);
        per::write_padding(&mut out, 1);
        let key: [u8; 4] = [0x44, 0x75, 0x63, 0x61];
        assert(key@ =~= client_to_server_key());
        write_user_data(&mut out, &key, self.client_gcc_blocks.as_slice());
        assert(out@ =~= conference_request_wire(self@));
        out
    }

    pub fn decode(input: &[u8]) -> (r: Result<Self, DecodeError>)
        ensures
            cursor::decodes_view(r, parse_conference_request(input@)),
    {
        let mut cursor = ReadCursor::new(input);
        read_connect_data(&mut cursor, "gcc.conference_request.key_choice")?;
        expect_byte(&mut cursor, 0x00, "gcc.conference_request.gcc_pdu_choice")?;
        let _selection: u8 = per::read_selection(&mut cursor)?;
        let _conference_name: String = per::read_numeric_string(&mut cursor, 1)?;
        per::read_padding(&mut cursor, 1)?;
        let client_gcc_blocks: Vec<u8> = read_user_data(&mut cursor)?;
        Ok(Self { client_gcc_blocks })
    }
}

/// Decoding gives back the data blocks of the conference request that was
/// encoded, where the length fields can count them.
pub proof fn law_conference_request_round_trip(blocks: Seq<u8>)
    requires
        blocks.len() <= 0x7FFF - 12,
    ensures
        parse_conference_request(conference_request_wire(blocks)) == Ok::<Seq<u8>, DecodeError>(
            blocks,
        ),
{
    let b = conference_request_wire(blocks);
    let head = connect_data_wire((blocks.len() + 12) as usize);
    let zero = seq![0x00u8];
    let eight = seq![0x08u8];
    let name = per::numeric_string_bytes(seq![0x31u8], 1);
    let pad = bytes::zeros(1);
    let data = user_data_wire(client_to_server_key(), blocks);
    bytes::lemma_holds_self(b);
    bytes::lemma_holds_add(b, 0, head + zero + eight + name + pad, data);
    bytes::lemma_holds_add(b, 0, head + zero + eight + name, pad);
    bytes::lemma_holds_add(b, 0, head + zero + eight, name);
    bytes::lemma_holds_add(b, 0, head + zero, eight);
    bytes::lemma_holds_add(b, 0, head, zero);
    let p = head.len() as int;
    bytes::lemma_holds_u8(b, p, 0x00);
    bytes::lemma_holds_bounds(b, p, zero);
    bytes::lemma_holds_bounds(b, p + 1, eight);
    bytes::lemma_holds_bounds(b, p + 2 + name.len(), pad);
    lemma_connect_data(b, (blocks.len() + 12) as usize, "gcc.conference_request.key_choice");
    per::law_numeric_string(b, p + 2, seq![0x31u8], 1);
    lemma_user_data(b, p + 2 + name.len() + 1, client_to_server_key(), blocks);
}

/// A server's conference response, which carries its data blocks.
#[derive(Debug, Clone, PartialEq, Eq)]
pub struct ConferenceCreateResponse {
    pub node_id: u16,
    pub server_gcc_blocks: Vec<u8>,
}

/// What a [`ConferenceCreateResponse`] holds.
pub struct ConferenceCreateResponseView {
    pub node_id: u16,
    pub server_gcc_blocks: Seq<u8>,
}

impl View for ConferenceCreateResponse {
    type V = ConferenceCreateResponseView;

    open spec fn view(&self) -> ConferenceCreateResponseView {
        ConferenceCreateResponseView {
            node_id: self.node_id,
            server_gcc_blocks: self.server_gcc_blocks@,
        }
    }
}

/// What a conference response says. Tag, result, object identifier, key and
/// the outer length are read and not used.
pub open spec fn parse_conference_response(b: Seq<u8>) -> Result<
    ConferenceCreateResponseView,
    DecodeError,
> {
    match parse_connect_data(b, "gcc.conference_response.key_choice") {
        Err(e) => Err(e),
        Ok((_, p1)) => match parse_expected(
            b,
            p1,
            0x14,
            "gcc.conference_response.gcc_pdu_choice",
        ) {
            Err(e) => Err(e),
            Ok((_, p2)) => match per::parse_u16(b, p2, 1001) {
                Err(e) => Err(e),
                Ok((node_id, p3)) => match per::parse_u32(b, p3) {
                    Err(e) => Err(e),
                    Ok((_, p4)) => match per::parse_u8(b, p4) {
                        Err(e) => Err(e),
                        Ok((_, p5)) => match parse_user_data(b, p5) {
                            Err(e) => Err(e),
                            Ok((server_gcc_blocks, _)) => Ok(
                                ConferenceCreateResponseView { node_id, server_gcc_blocks },
                            ),
                        },
                    },
                },
            },
        },
    }
}

impl ConferenceCreateResponseView {
    pub open spec fn wire(self) -> Seq<u8> {
        connect_data_wire((self.server_gcc_blocks.len() + 13) as usize) + seq![0x14u8]
            + per::u16_bytes(self.node_id, 1001) + per::u32_bytes(1) + seq![0u8] + user_data_wire(
            server_to_client_key(),
            self.server_gcc_blocks,
        )
    }
}

impl ConferenceCreateResponse {
    pub fn encode(&self) -> (out: Vec<u8>)
        requires
            self.server_gcc_blocks@.len() <= usize::MAX - 13,
        ensures
            out@ == self@.wire(),
    {
        let mut out: Vec<u8> = Vec::new();
        write_connect_data(&mut out, self.server_gcc_blocks.len() + 13);
        out.write_u8(0x14);
        per::write_u16(&mut out, self.node_id, 1001);
        per::write_u32(&mut out, 1);  // tag
        per::write_enum(&mut out, 0);  // result
        let key: [u8; 4] = [0x4D, 0x63, 0x44, 0x6E];
        assert(key@ =~= server_to_client_key());
        write_user_data(&mut out, &key, self.server_gcc_blocks.as_slice());
        assert(out@ =~= self@.wire());
        out
    }

    pub fn decode(input: &[u8]) -> (r: Result<Self, DecodeError>)
        ensures
            cursor::decodes_view(r, parse_conference_response(input@)),
    {
        let mut cursor = ReadCursor::new(input);
        read_connect_data(&mut cursor, "gcc.conference_response.key_choice")?;
        expect_byte(&mut cursor, 0x14, "gcc.conference_response.gcc_pdu_choice")?;
        let node_id: u16 = per::read_u16(&mut cursor, 1001)?;
        let _tag: u32 = per::read_u32(&mut cursor)?;
        let _result: u8 = per::read_enum(&mut cursor)?;
        let server_gcc_blocks: Vec<u8> = read_user_data(&mut cursor)?;
        Ok(Self { node_id, server_gcc_blocks })
    }
}

/// Decoding gives back the conference response that was encoded, where the
/// length fields can count its blocks.
pub proof fn law_conference_response_round_trip(v: ConferenceCreateResponseView)
    requires
        v.server_gcc_blocks.len() <= 0x7FFF - 13,
    ensures
        parse_conference_response(v.wire()) == Ok::<ConferenceCreateResponseView, DecodeError>(v),
{
    let b = v.wire();
    let length = (v.server_gcc_blocks.len() + 13) as usize;
    let head = connect_data_wire(length);
    let choice = seq![0x14u8];
    let node = per::u16_bytes(v.node_id, 1001);
    let tag = per::u32_bytes(1);
    let result = seq![0u8];
    let data = user_data_wire(server_to_client_key(), v.server_gcc_blocks);
    bytes::lemma_holds_self(b);
    bytes::lemma_holds_add(b, 0, head + choice + node + tag + result, data);
    bytes::lemma_holds_add(b, 0, head + choice + node + tag, result);
    bytes::lemma_holds_add(b, 0, head + choice + node, tag);
    bytes::lemma_holds_add(b, 0, head + choice, node);
    bytes::lemma_holds_add(b, 0, head, choice);
    let p = head.len() as int;
    bytes::lemma_holds_u8(b, p, 0x14);
    bytes::lemma_holds_bounds(b, p, choice);
    bytes::lemma_holds_bounds(b, p + 3 + tag.len(), result);
    lemma_connect_data(b, length, "gcc.conference_response.key_choice");
    per::law_u16(b, p + 1, v.node_id, 1001);
    per::law_u32(b, p + 3, 1);
    lemma_user_data(b, p + 3 + tag.len() + 1, server_to_client_key(), v.server_gcc_blocks);
}

/// What a client says of itself: the version, the size of its screen, width before
/// height, and the rest at their places.
pub proof fn law_client_core_bytes(m: &ClientCoreData, out: Vec<u8>, b: Seq<u8>)
    requires
        call_ensures(ClientCoreData::encode, (m,), out),
    ensures
        out@.len() == 128,
        bytes::u32_le_at(out@, 0) == m.version,
        bytes::u16_le_at(out@, 4) == m.desktop_width,
        bytes::u16_le_at(out@, 6) == m.desktop_height,
        bytes::u16_le_at(out@, 8) == m.color_depth,
        bytes::u16_le_at(out@, 10) == m.sas_sequence,
        bytes::u32_le_at(out@, 12) == m.keyboard_layout,
        bytes::u32_le_at(out@, 16) == m.client_build,
        out@.subrange(20, 52) == utf16::unit_bytes(utf16::fixed_units(m.client_name@, 16)),
        bytes::u32_le_at(out@, 52) == m.keyboard_type,
        bytes::u32_le_at(out@, 56) == m.keyboard_subtype,
        bytes::u32_le_at(out@, 60) == m.keyboard_function_key,
        out@.subrange(64, 128) == utf16::unit_bytes(utf16::fixed_units(m.ime_file_name@, 32)),
        parse_client_core(b) is Ok <==> b.len() >= 128,
        parse_client_core(b) matches Ok(v) ==> {
            &&& v.version == bytes::u32_le_at(b, 0)
            &&& v.desktop_width == bytes::u16_le_at(b, 4)
            &&& v.desktop_height == bytes::u16_le_at(b, 6)
            &&& v.color_depth == bytes::u16_le_at(b, 8)
            &&& v.sas_sequence == bytes::u16_le_at(b, 10)
            &&& v.keyboard_layout == bytes::u32_le_at(b, 12)
            &&& v.client_build == bytes::u32_le_at(b, 16)
            &&& v.client_name == utf16::fixed_text(b.subrange(20, 52))
            &&& v.keyboard_type == bytes::u32_le_at(b, 52)
            &&& v.keyboard_subtype == bytes::u32_le_at(b, 56)
            &&& v.keyboard_function_key == bytes::u32_le_at(b, 60)
            &&& v.ime_file_name == utf16::fixed_text(b.subrange(64, 128))
        },
        early_flags(b) == (if b.len() >= 142 {
            Some(bytes::u16_le_at(b, 140))
        } else {
            None
        }),
{
    let w = m@.wire();
    assert(w.subrange(20, 52) =~= utf16::unit_bytes(utf16::fixed_units(m.client_name@, 16)));
    assert(w.subrange(64, 128) =~= utf16::unit_bytes(utf16::fixed_units(m.ime_file_name@, 32)));
    broadcast use bytes::group_holds;

    bytes::lemma_holds_self(w);
}

/// A block is its kind, its length with these four bytes, and its contents. The kinds of
/// a client are 0xC001 to 0xC006, and what each holds is read from its own bytes.
pub proof fn law_client_block(found: ClientFound, kind: u16, body: Seq<u8>, b: Seq<u8>, p: int)
    requires
        0 <= p,
        p + 4 <= b.len(),
    ensures
        body.len() <= 65531 ==> {
            &&& bytes::u16_le_at(block_wire(kind, body), 0) == kind
            &&& bytes::u16_le_at(block_wire(kind, body), 2) == body.len() + 4
            &&& block_wire(kind, body).skip(4) == body
        },
        parse_block(b, p) matches Ok(((k, c), q)) ==> {
            &&& k == bytes::u16_le_at(b, p)
            &&& bytes::u16_le_at(b, p + 2) >= 4 ==> q == p + bytes::u16_le_at(b, p + 2)
            &&& c == b.subrange(p + 4, q)
        },
        found.with(kind, body) matches Ok(v) ==> {
            &&& if kind == 0xC001 {
                v.core is Some && parse_client_core(body) == Ok::<ClientCoreView, DecodeError>(
                    v.core->Some_0,
                )
            } else {
                v.core == found.core
            }
            &&& if kind == 0xC002 {
                v.security matches Some(s) && s.encryption_methods == bytes::u32_le_at(body, 0)
                    && s.ext_encryption_methods == bytes::u32_le_at(body, 4)
            } else {
                v.security == found.security
            }
            &&& if kind == 0xC003 {
                v.network is Some && parse_client_network(body) == Ok::<
                    Seq<ChannelDefView>,
                    DecodeError,
                >(v.network->Some_0)
            } else {
                v.network == found.network
            }
            &&& if kind == 0xC004 {
                v.cluster matches Some(s) && s.flags == bytes::u32_le_at(body, 0)
                    && s.redirected_session_id == bytes::u32_le_at(body, 4)
            } else {
                v.cluster == found.cluster
            }
            &&& if kind == 0xC006 {
                v.message_channel matches Some(s) && s.flags == bytes::u32_le_at(body, 0)
            } else {
                v.message_channel == found.message_channel
            }
        },
{
    assert(block_wire(kind, body).skip(4) =~= body);
}

/// A channel that a client asks for is eight bytes of name, up to the first zero, and
/// the options.
pub proof fn law_channel_def_bytes(v: ChannelDefView, b: Seq<u8>, p: int, n: int)
    requires
        0 <= p,
        p + 12 <= b.len(),
        0 <= n <= 8,
        forall|i: int| 0 <= i < n ==> #[trigger] b[p + i] != 0,
        n < 8 ==> b[p + n] == 0,
    ensures
        v.fits() ==> {
            let s = utf8::encode_utf8(v.name);
            &&& v.wire().len() == 12
            &&& v.wire().take(s.len() as int) == s
            &&& forall|i: int| s.len() <= i < 8 ==> #[trigger] v.wire()[i] == 0
            &&& bytes::u32_le_at(v.wire(), 8) == v.options
        },
        parse_channel_def(b, p) matches Ok((d, q)) ==> {
            &&& q == p + 12
            &&& d.name == text::readable(b.subrange(p, p + n))
            &&& d.options == bytes::u32_le_at(b, p + 8)
        },
{
    let field = b.subrange(p, p + 8);
    assert forall|i: int| 0 <= i < n implies field[i] != 0 by {
        assert(b[p + i] != 0);
    }
    bytes::lemma_until_zero(field, n);
    assert(field.take(n) =~= b.subrange(p, p + n));
    if v.fits() {
        let s = utf8::encode_utf8(v.name);
        assert(v.wire().take(s.len() as int) =~= s);
    }
}

/// The channels of a client are counted first, and read one after the other; no more
/// than 31 are.
pub proof fn law_client_network_bytes(b: Seq<u8>, i: int)
    requires
        parse_client_network(b) is Ok,
        0 <= i < parse_client_network(b)->Ok_0.len(),
    ensures
        parse_client_network(b)->Ok_0.len() == (if bytes::u32_le_at(b, 0) <= 31 {
            bytes::u32_le_at(b, 0) as int
        } else {
            31
        }),
        parse_channel_def(b, 4 + 12 * i) is Ok,
        parse_client_network(b)->Ok_0[i] == parse_channel_def(b, 4 + 12 * i)->Ok_0.0,
{
    let n = if bytes::u32_le_at(b, 0) <= 31 {
        bytes::u32_le_at(b, 0) as nat
    } else {
        31
    };
    lemma_channel_at(b, 4, n, i);
}

proof fn lemma_channel_at(b: Seq<u8>, p: int, n: nat, i: int)
    requires
        parse_channel_defs(b, p, n) is Ok,
    ensures
        parse_channel_defs(b, p, n)->Ok_0.1 == p + 12 * n,
        parse_channel_defs(b, p, n)->Ok_0.0.len() == n,
        0 <= i < n ==> parse_channel_def(b, p + 12 * i) is Ok && parse_channel_defs(
            b,
            p,
            n,
        )->Ok_0.0[i] == parse_channel_def(b, p + 12 * i)->Ok_0.0,
    decreases n,
{
    if n > 0 {
        lemma_channel_at(b, p, (n - 1) as nat, i);
    }
}

/// What a server says of itself is the version and, where they are there, the protocols
/// that the client asked for and its own flags; no encryption is two zeros; and the
/// channels are the main one, how many others there are, and their numbers.
pub proof fn law_server_bytes(
    core: &ServerCoreData,
    core_out: Vec<u8>,
    security: &ServerSecurityData,
    security_out: Vec<u8>,
    network: &ServerNetworkData,
    network_out: Vec<u8>,
    i: int,
)
    requires
        call_ensures(ServerCoreData::encode, (core,), core_out),
        call_ensures(ServerSecurityData::encode, (security,), security_out),
        call_ensures(ServerNetworkData::encode, (network,), network_out),
        network.channel_ids@.len() <= 65535,
        0 <= i < network.channel_ids@.len(),
    ensures
        bytes::u32_le_at(core_out@, 0) == core.version,
        core.client_requested_protocols matches Some(v) ==> bytes::u32_le_at(core_out@, 4) == v,
        core.client_requested_protocols is Some && core.early_capability_flags is Some
            ==> bytes::u32_le_at(core_out@, 8) == core.early_capability_flags->Some_0,
        core_out@.len() == 4 + (if core.client_requested_protocols is Some {
            4int
        } else {
            0
        }) + (if core.early_capability_flags is Some {
            4int
        } else {
            0
        }),
        security_out@ == bytes::zeros(8),
        bytes::u16_le_at(network_out@, 0) == network.io_channel_id,
        bytes::u16_le_at(network_out@, 2) == network.channel_ids@.len(),
        bytes::u16_le_at(network_out@, 4 + 2 * i) == network.channel_ids@[i],
        network_out@.len() % 4 == 0,
{
    bytes::law_number_bytes(0, 0, 0);
    assert(security_out@ =~= bytes::zeros(8));
    law_server_network_layout(network@, i);
}

/// [`law_server_bytes`], of the channels alone.
pub proof fn law_server_network_layout(v: ServerNetworkView, i: int)
    requires
        v.channel_ids.len() <= 65535,
        0 <= i < v.channel_ids.len(),
    ensures
        bytes::u16_le_at(v.wire(), 0) == v.io_channel_id,
        bytes::u16_le_at(v.wire(), 2) == v.channel_ids.len(),
        bytes::u16_le_at(v.wire(), 4 + 2 * i) == v.channel_ids[i],
        v.wire().len() % 4 == 0,
        v.wire().len() >= 4 + 2 * v.channel_ids.len(),
{
    let u = utf16::unit_bytes(v.channel_ids);
    let n = v.channel_ids.len();
    let head = bytes::le16(v.io_channel_id) + bytes::le16(bytes::low16(n as int));
    let pad: Seq<u8> = if n % 2 == 1 {
        bytes::le16(0)
    } else {
        seq![]
    };
    utf16::law_unit_at(v.channel_ids, i);
    lemma_network_bytes(head, u, pad, i);
    lemma_network_head(v.io_channel_id, n as int);
    assert(v.wire() == head + u + pad);
}

proof fn lemma_network_head(id: u16, n: int)
    requires
        0 <= n <= 65535,
    ensures
        (bytes::le16(id) + bytes::le16(bytes::low16(n))).len() == 4,
        bytes::u16_le_at(bytes::le16(id) + bytes::le16(bytes::low16(n)), 0) == id,
        bytes::u16_le_at(bytes::le16(id) + bytes::le16(bytes::low16(n)), 2) == n,
{
}

proof fn lemma_network_bytes(head: Seq<u8>, u: Seq<u8>, pad: Seq<u8>, i: int)
    requires
        head.len() == 4,
        0 <= i,
        2 * i + 1 < u.len(),
    ensures
        bytes::u16_le_at(head + u + pad, 0) == bytes::u16_le_at(head, 0),
        bytes::u16_le_at(head + u + pad, 2) == bytes::u16_le_at(head, 2),
        bytes::u16_le_at(head + u + pad, 4 + 2 * i) == u[2 * i] + 256 * u[2 * i + 1],
        (head + u + pad).len() == 4 + u.len() + pad.len(),
{
    bytes::law_byte_order(head + u + pad, 4 + 2 * i);
}

/// The blocks of a server come in the order core, channels, security and, where it was
/// asked for, the channel for messages, each under its kind.
pub proof fn law_server_blocks_bytes(m: &ServerGccBlocks, out: Vec<u8>)
    requires
        call_ensures(ServerGccBlocks::encode, (m,), out),
    ensures
        ({
            let core = block_wire(0x0C01, m.core.wire());
            let network = block_wire(0x0C03, m.network@.wire());
            let security = block_wire(0x0C02, m.security.wire());
            &&& m.message_channel is None ==> out@ == core + network + security
            &&& m.message_channel matches Some(c) ==> out@ == core + network + security
                + block_wire(0x0C04, bytes::le16(c.mcs_channel_id))
        }),
{
}

/// A server's conference response is marked by the identifier of the protocol and the
/// key `McDn`, names the node, counted from 1001, and ends with the blocks, whatever they
/// are; a client's request has the key `Duca`.
pub proof fn law_conference_bytes(
    m: &ConferenceCreateResponse,
    out: Vec<u8>,
    request: &ConferenceCreateRequest,
    sent: Vec<u8>,
)
    requires
        call_ensures(ConferenceCreateResponse::encode, (m,), out),
        call_ensures(ConferenceCreateRequest::encode, (request,), sent),
        m.node_id >= 1001,
        128 <= m.server_gcc_blocks@.len() < 32000,
        128 <= request.client_gcc_blocks@.len() < 32000,
    ensures
        out@.len() == 24 + m.server_gcc_blocks@.len(),
        out@.take(7) == seq![0u8, 5, 0, 20, 124, 0, 1],
        256 * (out@[7] - 128) + out@[8] == m.server_gcc_blocks@.len() + 13,
        out@[9] == 0x14,
        256 * out@[10] + out@[11] == m.node_id - 1001,
        out@.subrange(12, 18) == seq![1u8, 1, 0, 1, 0xC0, 0],
        out@.subrange(18, 22) == seq![0x4Du8, 0x63, 0x44, 0x6E],
        256 * (out@[22] - 128) + out@[23] == m.server_gcc_blocks@.len(),
        out@.skip(24) == m.server_gcc_blocks@,
        sent@.subrange(sent@.len() - request.client_gcc_blocks@.len(), sent@.len() as int)
            == request.client_gcc_blocks@,
        sent@.subrange(
            sent@.len() - request.client_gcc_blocks@.len() - 6,
            sent@.len() - request.client_gcc_blocks@.len() - 2,
        ) == seq![0x44u8, 0x75, 0x63, 0x61],
{
    let n = m.server_gcc_blocks@.len();
    let oid = conference_object_id();
    per::law_object_id_bytes(oid, out@, 0);
    per::law_length_bytes(out@, 0, (n + 13) as usize);
    per::law_length_bytes(out@, 0, n as usize);
    per::law_length_bytes(out@, 0, 0);
    per::law_u32_bytes(1, out@, 0);
    per::law_u16_bytes(m.node_id, 1001, out@, 0);
    let a = connect_data_wire((n + 13) as usize);
    assert(a.len() == 9);
    let d = user_data_wire(server_to_client_key(), m.server_gcc_blocks@);
    assert(d.len() == 9 + n);
    assert(out@.len() == 24 + n);
    assert(out@.take(7) =~= seq![0u8, 5, 0, 20, 124, 0, 1]);
    assert(out@.subrange(12, 18) =~= seq![1u8, 1, 0, 1, 0xC0, 0]);
    assert(out@.subrange(18, 22) =~= seq![0x4Du8, 0x63, 0x44, 0x6E]);
    assert(out@.skip(24) =~= m.server_gcc_blocks@);
    let k = request.client_gcc_blocks@.len();
    per::law_length_bytes(out@, 0, k as usize);
    let e = user_data_wire(client_to_server_key(), request.client_gcc_blocks@);
    assert(e.len() == 9 + k);
    let start = sent@.len() - e.len();
    assert(sent@.subrange(start, sent@.len() as int) =~= e);
    assert(sent@.subrange(sent@.len() - k, sent@.len() as int) =~= request.client_gcc_blocks@);
    assert(sent@.subrange(sent@.len() - k - 6, sent@.len() - k - 2) =~= seq![
        0x44u8,
        0x75,
        0x63,
        0x61,
    ]);
}

/// A request for a conference, byte for byte: the key of the connection, the length of
/// what follows, the choice 0 with user data, the name 1, a byte of padding, and one set
/// of user data under the key of the client.
pub proof fn law_conference_request_bytes(request: &ConferenceCreateRequest, out: Vec<u8>)
    requires
        call_ensures(ConferenceCreateRequest::encode, (request,), out),
        128 <= request.client_gcc_blocks@.len() < 32000,
    ensures
        out@.len() == 23 + request.client_gcc_blocks@.len(),
        out@.take(7) == seq![0u8, 5, 0, 20, 124, 0, 1],
        256 * (out@[7] - 128) + out@[8] == request.client_gcc_blocks@.len() + 12,
        out@.subrange(9, 17) == seq![0u8, 8, 0, 0x10, 0, 1, 0xC0, 0],
        out@.subrange(17, 21) == seq![0x44u8, 0x75, 0x63, 0x61],
        256 * (out@[21] - 128) + out@[22] == request.client_gcc_blocks@.len(),
        out@.skip(23) == request.client_gcc_blocks@,
{
    let k = request.client_gcc_blocks@.len();
    per::law_object_id_bytes(conference_object_id(), out@, 0);
    per::law_length_bytes(out@, 0, (k + 12) as usize);
    per::law_length_bytes(out@, 0, k as usize);
    per::law_length_bytes(out@, 0, 0);
    let name = seq![0x31u8];
    per::law_digits(name, 0);
    assert(per::packed_digits(name) =~= seq![0x10u8]);
    let a = connect_data_wire((k + 12) as usize);
    assert(a.len() == 9);
    let d = user_data_wire(client_to_server_key(), request.client_gcc_blocks@);
    assert(d.len() == 9 + k);
    assert(out@.len() == 23 + k);
    assert(out@.take(7) =~= seq![0u8, 5, 0, 20, 124, 0, 1]);
    assert(out@.subrange(9, 17) =~= seq![0u8, 8, 0, 0x10, 0, 1, 0xC0, 0]);
    assert(out@.subrange(17, 21) =~= seq![0x44u8, 0x75, 0x63, 0x61]);
    assert(out@.skip(23) =~= request.client_gcc_blocks@);
}

/// What is found in the blocks of a client is what they are read as; without a core and a
/// security block they are not read.
pub proof fn law_blocks_found(b: Seq<u8>)
    requires
        walk_client(b, 0, ClientFound::none()) is Ok,
    ensures
        ({
            let f = walk_client(b, 0, ClientFound::none())->Ok_0;
            &&& parse_client_blocks(b) is Ok <==> f.core is Some && f.security is Some
            &&& parse_client_blocks(b) matches Ok(v) ==> {
                &&& f.core == Some(v.core)
                &&& f.security == Some(v.security)
                &&& f.network == v.network
                &&& f.cluster == v.cluster
                &&& f.message_channel == v.message_channel
                &&& f.early_capability_flags == v.early_capability_flags
            }
        }),
{
}

/// Where the core block of a client is long enough to say so, what it can do early stands
/// at the byte 140 of the block's body, and it is kept with the core, whatever blocks of
/// other kinds follow.
pub proof fn law_early_flags(found: ClientFound, kind: u16, body: Seq<u8>)
    ensures
        found.with(0xC001, body) matches Ok(v) ==> {
            &&& v.early_capability_flags is Some <==> body.len() >= 142
            &&& v.early_capability_flags is Some ==> v.early_capability_flags->Some_0
                == bytes::u16_le_at(body, 140)
        },
        kind != 0xC001 ==> (found.with(kind, body) matches Ok(v) ==> v.early_capability_flags
            == found.early_capability_flags),
{
}

} // verus!
