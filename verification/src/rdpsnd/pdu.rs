//! Messages of the audio output channel. Each begins with its type, a byte of
//! padding and the length of what follows.

use vstd::prelude::*;
use vstd::slice::slice_to_vec;

use crate::bytes;
use crate::cursor;
use crate::cursor::{ReadCursor, WriteBuf};
use crate::model;
use crate::DecodeError;

verus! {

broadcast use {bytes::group_bytes, model::lemma_views_push};

pub const SNDC_WAVE2: u8 = 0x0D;

pub const SNDC_WAVECONFIRM: u8 = 0x05;

pub const SNDC_TRAINING: u8 = 0x06;

pub const SNDC_FORMATS: u8 = 0x07;

pub const CHANNEL_NAME: &'static str = "rdpsnd";

/// Below 6, so that a client goes from its formats straight to training.
pub const SERVER_VERSION: u16 = 0x02;

/// Uncompressed samples, the only kind of audio that is offered.
pub const WAVE_FORMAT_PCM: u16 = 0x0001;

pub open spec fn header(msg_type: u8, body_len: int) -> Seq<u8> {
    seq![msg_type] + seq![0u8] + bytes::le16(bytes::low16(body_len))
}

pub fn write_header(out: &mut Vec<u8>, msg_type: u8, body_len: usize)
    ensures
        final(out)@ == old(out)@ + header(msg_type, body_len as int),
{
    let ghost before = out@;
    out.write_u8(msg_type);
    out.write_u8(0);  // padding
    out.write_u16_le(bytes::len16(body_len));
    assert(out@ =~= before + header(msg_type, body_len as int));
}

#[derive(Debug, PartialEq, Eq)]
pub struct AudioFormat {
    pub format_tag: u16,
    pub n_channels: u16,
    pub n_samples_per_sec: u32,
    pub n_avg_bytes_per_sec: u32,
    pub n_block_align: u16,
    pub bits_per_sample: u16,
    pub extra_data: Option<Vec<u8>>,
}

pub struct AudioFormatView {
    pub format_tag: u16,
    pub n_channels: u16,
    pub n_samples_per_sec: u32,
    pub n_avg_bytes_per_sec: u32,
    pub n_block_align: u16,
    pub bits_per_sample: u16,
    pub extra_data: Option<Seq<u8>>,
}

impl View for AudioFormat {
    type V = AudioFormatView;

    open spec fn view(&self) -> AudioFormatView {
        AudioFormatView {
            format_tag: self.format_tag,
            n_channels: self.n_channels,
            n_samples_per_sec: self.n_samples_per_sec,
            n_avg_bytes_per_sec: self.n_avg_bytes_per_sec,
            n_block_align: self.n_block_align,
            bits_per_sample: self.bits_per_sample,
            extra_data: model::opt_view(self.extra_data),
        }
    }
}

impl Clone for AudioFormat {
    fn clone(&self) -> (r: Self)
        ensures
            r@ == self@,
    {
        let extra_data: Option<Vec<u8>> = match &self.extra_data {
            Some(extra) => Some(slice_to_vec(extra.as_slice())),
            None => None,
        };
        AudioFormat {
            format_tag: self.format_tag,
            n_channels: self.n_channels,
            n_samples_per_sec: self.n_samples_per_sec,
            n_avg_bytes_per_sec: self.n_avg_bytes_per_sec,
            n_block_align: self.n_block_align,
            bits_per_sample: self.bits_per_sample,
            extra_data,
        }
    }
}

/// A format of uncompressed samples.
pub open spec fn pcm_format(
    n_channels: u16,
    n_samples_per_sec: u32,
    bits_per_sample: u16,
) -> AudioFormatView {
    let block_align = n_channels * (bits_per_sample / 8);
    AudioFormatView {
        format_tag: WAVE_FORMAT_PCM,
        n_channels,
        n_samples_per_sec,
        n_avg_bytes_per_sec: (n_samples_per_sec * block_align) as u32,
        n_block_align: block_align as u16,
        bits_per_sample,
        extra_data: None,
    }
}

impl AudioFormatView {
    pub open spec fn extra(self) -> Seq<u8> {
        match self.extra_data {
            Some(extra) => extra,
            None => seq![],
        }
    }

    pub open spec fn wire(self) -> Seq<u8> {
        bytes::le16(self.format_tag) + bytes::le16(self.n_channels) + bytes::le32(
            self.n_samples_per_sec,
        ) + bytes::le32(self.n_avg_bytes_per_sec) + bytes::le16(self.n_block_align) + bytes::le16(
            self.bits_per_sample,
        ) + bytes::le16(bytes::low16(self.extra().len() as int)) + self.extra()
    }

    /// Whether the extra data is one that a reader can tell apart: there and
    /// short enough for its length, or not there.
    pub open spec fn fits(self) -> bool {
        match self.extra_data {
            Some(extra) => 0 < extra.len() <= 0xFFFF,
            None => true,
        }
    }

    /// Whether two formats are the same for a negotiation. The two numbers
    /// that follow from the others are left out, because some clients compute
    /// them in another way.
    pub open spec fn matches(self, other: AudioFormatView) -> bool {
        &&& self.format_tag == other.format_tag
        &&& self.n_channels == other.n_channels
        &&& self.n_samples_per_sec == other.n_samples_per_sec
        &&& self.bits_per_sample == other.bits_per_sample
        &&& self.extra_data == other.extra_data
    }
}

/// The format at offset `p`, and the offset after it.
pub open spec fn parse_format(b: Seq<u8>, p: int) -> Result<(AudioFormatView, int), DecodeError> {
    if p + 4 > b.len() {
        Err(cursor::short(b, p + (b.len() - p) / 2 * 2, 2))
    } else if p + 12 > b.len() {
        Err(cursor::short(b, p + (b.len() - p) / 4 * 4, 4))
    } else if p + 18 > b.len() {
        Err(cursor::short(b, p + (b.len() - p) / 2 * 2, 2))
    } else {
        let n = bytes::u16_le_at(b, p + 16);
        if p + 18 + n > b.len() {
            Err(cursor::short(b, p + 18, n as int))
        } else {
            Ok(
                (
                    AudioFormatView {
                        format_tag: bytes::u16_le_at(b, p),
                        n_channels: bytes::u16_le_at(b, p + 2),
                        n_samples_per_sec: bytes::u32_le_at(b, p + 4),
                        n_avg_bytes_per_sec: bytes::u32_le_at(b, p + 8),
                        n_block_align: bytes::u16_le_at(b, p + 12),
                        bits_per_sample: bytes::u16_le_at(b, p + 14),
                        extra_data: if n == 0 {
                            None
                        } else {
                            Some(b.subrange(p + 18, p + 18 + n))
                        },
                    },
                    p + 18 + n,
                ),
            )
        }
    }
}

impl AudioFormat {
    pub fn pcm(n_channels: u16, n_samples_per_sec: u32, bits_per_sample: u16) -> (f: Self)
        requires
            n_channels * (bits_per_sample / 8) <= u16::MAX,
            n_samples_per_sec * (n_channels * (bits_per_sample / 8)) <= u32::MAX,
        ensures
            f@ == pcm_format(n_channels, n_samples_per_sec, bits_per_sample),
    {
        let block_align: u16 = n_channels * (bits_per_sample / 8);
        Self {
            format_tag: WAVE_FORMAT_PCM,
            n_channels,
            n_samples_per_sec,
            n_avg_bytes_per_sec: n_samples_per_sec * block_align as u32,
            n_block_align: block_align,
            bits_per_sample,
            extra_data: None,
        }
    }

    pub fn encode(&self, out: &mut Vec<u8>)
        ensures
            final(out)@ == old(out)@ + self@.wire(),
    {
        let ghost before = out@;
        out.write_u16_le(self.format_tag);
        out.write_u16_le(self.n_channels);
        out.write_u32_le(self.n_samples_per_sec);
        out.write_u32_le(self.n_avg_bytes_per_sec);
        out.write_u16_le(self.n_block_align);
        out.write_u16_le(self.bits_per_sample);
        match &self.extra_data {
            Some(extra) => {
                out.write_u16_le(bytes::len16(extra.len()));
                out.write_slice(extra.as_slice());
            },
            None => {
                out.write_u16_le(0);
            },
        }
        assert(out@ =~= before + self@.wire());
    }

    pub fn decode(cursor: &mut ReadCursor<'_>) -> (r: Result<Self, DecodeError>)
        requires
            old(cursor).wf(),
        ensures
            final(cursor).wf(),
            final(cursor).data() == old(cursor).data(),
            cursor::reads_view(
                r,
                final(cursor).offset(),
                parse_format(old(cursor).data(), old(cursor).offset()),
            ),
    {
        let format_tag: u16 = cursor.take_u16_le()?;
        let n_channels: u16 = cursor.take_u16_le()?;
        let n_samples_per_sec: u32 = cursor.take_u32_le()?;
        let n_avg_bytes_per_sec: u32 = cursor.take_u32_le()?;
        let n_block_align: u16 = cursor.take_u16_le()?;
        let bits_per_sample: u16 = cursor.take_u16_le()?;
        let cb_size: u16 = cursor.take_u16_le()?;
        let extra_data: Option<Vec<u8>> = if cb_size == 0 {
            None
        } else {
            Some(slice_to_vec(cursor.take_slice(cb_size as usize)?))
        };
        Ok(
            Self {
                format_tag,
                n_channels,
                n_samples_per_sec,
                n_avg_bytes_per_sec,
                n_block_align,
                bits_per_sample,
                extra_data,
            },
        )
    }

    pub fn negotiation_eq(&self, other: &Self) -> (r: bool)
        ensures
            r == self@.matches(other@),
    {
        let same_extra: bool = match (&self.extra_data, &other.extra_data) {
            (Some(a), Some(b)) => bytes::same(a.as_slice(), b.as_slice()),
            (None, None) => true,
            _ => false,
        };
        self.format_tag == other.format_tag && self.n_channels == other.n_channels
            && self.n_samples_per_sec == other.n_samples_per_sec && self.bits_per_sample
            == other.bits_per_sample && same_extra
    }
}

/// Formats one after the other.
pub open spec fn formats_wire(formats: Seq<AudioFormatView>) -> Seq<u8>
    decreases formats.len(),
{
    if formats.len() == 0 {
        seq![]
    } else {
        formats_wire(formats.drop_last()) + formats.last().wire()
    }
}

/// `n` formats from offset `p` on, and the offset after them.
pub open spec fn parse_formats(b: Seq<u8>, p: int, n: int) -> Result<
    (Seq<AudioFormatView>, int),
    DecodeError,
>
    decreases n,
{
    if n <= 0 {
        Ok((seq![], p))
    } else {
        match parse_formats(b, p, n - 1) {
            Err(e) => Err(e),
            Ok((formats, q)) => match parse_format(b, q) {
                Err(e) => Err(e),
                Ok((format, next)) => Ok((formats.push(format), next)),
            },
        }
    }
}

proof fn lemma_formats_error_stays(b: Seq<u8>, p: int, m: int, n: int)
    requires
        0 <= m <= n,
        parse_formats(b, p, m) is Err,
    ensures
        parse_formats(b, p, n) == parse_formats(b, p, m),
    decreases n - m,
{
    if m < n {
        lemma_formats_error_stays(b, p, m, n - 1);
    }
}

/// Writes formats one after the other.
pub fn write_formats(out: &mut Vec<u8>, formats: &[AudioFormat])
    ensures
        final(out)@ == old(out)@ + formats_wire(model::views(formats@)),
{
    let ghost before = out@;
    let ghost all = model::views(formats@);
    let n: usize = formats.len();
    let mut i: usize = 0;
    assert(all.take(0) =~= seq![]);
    assert(out@ =~= before + formats_wire(all.take(0)));
    while i < n
        invariant
            i <= n,
            n == formats@.len(),
            all == model::views(formats@),
            out@ == before + formats_wire(all.take(i as int)),
        decreases n - i,
    {
        formats[i].encode(out);
        assert(all.take(i + 1).drop_last() =~= all.take(i as int));
        assert(all.take(i + 1).last() == formats@[i as int]@);
        assert(out@ =~= before + formats_wire(all.take(i + 1)));
        i = i + 1;
    }
    assert(all.take(n as int) =~= all);
}

/// Reads `n` formats.
pub fn read_formats(cursor: &mut ReadCursor<'_>, n: u32) -> (r: Result<
    Vec<AudioFormat>,
    DecodeError,
>)
    requires
        old(cursor).wf(),
    ensures
        final(cursor).wf(),
        final(cursor).data() == old(cursor).data(),
        match parse_formats(old(cursor).data(), old(cursor).offset(), n as int) {
            Ok((formats, q)) => r is Ok && model::views(r->Ok_0@) == formats
                && final(cursor).offset() == q,
            Err(e) => r == Err::<Vec<AudioFormat>, DecodeError>(e),
        },
{
    let ghost b = cursor.data();
    let ghost p = cursor.offset();
    let mut formats: Vec<AudioFormat> = Vec::new();
    let mut i: u32 = 0;
    assert(model::views(formats@) =~= seq![]);
    while i < n
        invariant
            i <= n,
            cursor.wf(),
            cursor.data() == b,
            b == old(cursor).data(),
            p == old(cursor).offset(),
            parse_formats(b, p, i as int) == Ok::<(Seq<AudioFormatView>, int), DecodeError>(
                (model::views(formats@), cursor.offset()),
            ),
        decreases n - i,
    {
        match AudioFormat::decode(cursor) {
            Ok(format) => {
                formats.push(format);
                i = i + 1;
            },
            Err(e) => {
                proof {
                    lemma_formats_error_stays(b, p, i + 1, n as int);
                }
                return Err(e);
            },
        }
    }
    Ok(formats)
}

proof fn lemma_format(b: Seq<u8>, p: int, f: AudioFormatView)
    requires
        f.fits(),
        bytes::holds_at(b, p, f.wire()),
    ensures
        parse_format(b, p) == Ok::<(AudioFormatView, int), DecodeError>((f, p + f.wire().len())),
{
    broadcast use bytes::group_holds;

}

/// Formats whose extra data fits are read back as they were written.
pub proof fn law_formats_round_trip(b: Seq<u8>, p: int, formats: Seq<AudioFormatView>)
    requires
        forall|i: int| 0 <= i < formats.len() ==> (#[trigger] formats[i]).fits(),
        bytes::holds_at(b, p, formats_wire(formats)),
    ensures
        parse_formats(b, p, formats.len() as int) == Ok::<
            (Seq<AudioFormatView>, int),
            DecodeError,
        >((formats, p + formats_wire(formats).len())),
    decreases formats.len(),
{
    if formats.len() > 0 {
        let head = formats.drop_last();
        bytes::lemma_holds_add(b, p, formats_wire(head), formats.last().wire());
        law_formats_round_trip(b, p, head);
        lemma_format(b, p + formats_wire(head).len(), formats.last());
        assert(head.push(formats.last()) =~= formats);
    } else {
        assert(formats =~= seq![]);
    }
}

/// What follows the header of the message that offers formats.
pub open spec fn server_formats_body(formats: Seq<AudioFormatView>) -> Seq<u8> {
    bytes::le32(0) + bytes::le32(0) + bytes::le32(0) + bytes::le16(0) + bytes::le16(
        bytes::low16(formats.len() as int),
    ) + seq![0u8] + bytes::le16(SERVER_VERSION) + seq![0u8] + formats_wire(formats)
}

pub open spec fn server_formats_wire(formats: Seq<AudioFormatView>) -> Seq<u8> {
    let body = server_formats_body(formats);
    header(SNDC_FORMATS, body.len() as int) + body
}

/// The message that opens the exchange: the formats on offer.
pub fn encode_server_audio_formats(formats: &[AudioFormat]) -> (out: Vec<u8>)
    ensures
        out@ == server_formats_wire(model::views(formats@)),
{
    let ghost views = model::views(formats@);
    let mut body: Vec<u8> = Vec::new();
    body.write_u32_le(0);  // flags
    body.write_u32_le(0);  // volume
    body.write_u32_le(0);  // pitch
    body.write_u16_le(0);  // datagram port
    body.write_u16_le(bytes::len16(formats.len()));
    body.write_u8(0);  // last block confirmed
    body.write_u16_le(SERVER_VERSION);
    body.write_u8(0);  // padding
    write_formats(&mut body, formats);
    assert(body@ =~= server_formats_body(views));
    let mut out: Vec<u8> = Vec::new();
    write_header(&mut out, SNDC_FORMATS, body.len());
    out.write_slice(body.as_slice());
    assert(out@ =~= server_formats_wire(views));
    out
}

#[derive(Debug, PartialEq, Eq)]
pub struct ClientAudioFormats {
    pub formats: Vec<AudioFormat>,
}

impl View for ClientAudioFormats {
    type V = Seq<AudioFormatView>;

    open spec fn view(&self) -> Seq<AudioFormatView> {
        model::views(self.formats@)
    }
}

/// A copy of a list of formats.
pub fn copy_formats(formats: &[AudioFormat]) -> (r: Vec<AudioFormat>)
    ensures
        model::views(r@) == model::views(formats@),
{
    let n: usize = formats.len();
    let mut r: Vec<AudioFormat> = Vec::new();
    let mut i: usize = 0;
    while i < n
        invariant
            i <= n,
            n == formats@.len(),
            r@.len() == i,
            forall|j: int| 0 <= j < i ==> (#[trigger] r@[j])@ == formats@[j]@,
        decreases n - i,
    {
        r.push(formats[i].clone());
        i = i + 1;
    }
    assert(model::views(r@) =~= model::views(formats@));
    r
}

impl Clone for ClientAudioFormats {
    fn clone(&self) -> (r: Self)
        ensures
            r@ == self@,
    {
        ClientAudioFormats { formats: copy_formats(self.formats.as_slice()) }
    }
}

/// The formats that a client accepts. One field before them has its high byte
/// first; it is not used.
pub open spec fn parse_client_formats(b: Seq<u8>) -> Result<Seq<AudioFormatView>, DecodeError> {
    if b.len() < 12 {
        Err(cursor::short(b, (b.len() as int) / 4 * 4, 4))
    } else if b.len() < 16 {
        Err(cursor::short(b, (b.len() as int) / 2 * 2, 2))
    } else if b.len() < 17 {
        Err(cursor::short(b, 16, 1))
    } else if b.len() < 19 {
        Err(cursor::short(b, 17, 2))
    } else if b.len() < 20 {
        Err(cursor::short(b, 19, 1))
    } else {
        match parse_formats(b, 20, bytes::u16_le_at(b, 14) as int) {
            Err(e) => Err(e),
            Ok((formats, _)) => Ok(formats),
        }
    }
}

fn decode_client_audio_formats(body: &[u8]) -> (r: Result<ClientAudioFormats, DecodeError>)
    ensures
        cursor::decodes_view(r, parse_client_formats(body@)),
{
    let mut cursor = ReadCursor::new(body);
    let _flags: u32 = cursor.take_u32_le()?;
    let _volume: u32 = cursor.take_u32_le()?;
    let _pitch: u32 = cursor.take_u32_le()?;
    let _dgram_port: u16 = cursor.take_u16_be()?;
    let count: u16 = cursor.take_u16_le()?;
    let _last_block_confirmed: u8 = cursor.take_u8()?;
    let _version: u16 = cursor.take_u16_le()?;
    let _pad: u8 = cursor.take_u8()?;
    let formats: Vec<AudioFormat> = read_formats(&mut cursor, count as u32)?;
    Ok(ClientAudioFormats { formats })
}

pub open spec fn training_wire() -> Seq<u8> {
    header(SNDC_TRAINING, 4) + bytes::le16(0) + bytes::le16(0)
}

/// The training message, with nothing to train on.
pub fn encode_training() -> (out: Vec<u8>)
    ensures
        out@ == training_wire(),
{
    let mut out: Vec<u8> = Vec::new();
    write_header(&mut out, SNDC_TRAINING, 4);
    out.write_u16_le(0);  // time stamp
    out.write_u16_le(0);  // size
    assert(out@ =~= training_wire());
    out
}

pub open spec fn wave2_wire(
    format_no: u16,
    block_no: u8,
    timestamp_ms: u32,
    data: Seq<u8>,
) -> Seq<u8> {
    header(SNDC_WAVE2, 12int + data.len()) + bytes::le16(0) + bytes::le16(format_no)
        + seq![block_no] + bytes::zeros(3) + bytes::le32(timestamp_ms) + data
}

/// A piece of audio.
pub fn encode_wave2(format_no: u16, block_no: u8, timestamp_ms: u32, data: &[u8]) -> (out: Vec<u8>)
    ensures
        out@ == wave2_wire(format_no, block_no, timestamp_ms, data@),
{
    let mut out: Vec<u8> = Vec::new();
    out.write_u8(SNDC_WAVE2);
    out.write_u8(0);  // padding
    out.write_u16_le(bytes::len16_plus(data.len(), 12));
    out.write_u16_le(0);  // time stamp of another message, not used here
    out.write_u16_le(format_no);
    out.write_u8(block_no);
    out.write_u8(0);  // padding
    out.write_u8(0);
    out.write_u8(0);
    out.write_u32_le(timestamp_ms);
    out.write_slice(data);
    assert(out@ =~= wave2_wire(format_no, block_no, timestamp_ms, data@));
    out
}

/// A format both sides have. Its number counts the formats of the client.
#[derive(Debug, PartialEq, Eq)]
pub struct NegotiatedFormat {
    pub format: AudioFormat,
    pub format_no: u16,
}

pub struct NegotiatedFormatView {
    pub format: AudioFormatView,
    pub format_no: u16,
}

impl View for NegotiatedFormat {
    type V = NegotiatedFormatView;

    open spec fn view(&self) -> NegotiatedFormatView {
        NegotiatedFormatView { format: self.format@, format_no: self.format_no }
    }
}

impl Clone for NegotiatedFormat {
    fn clone(&self) -> (r: Self)
        ensures
            r@ == self@,
    {
        NegotiatedFormat { format: self.format.clone(), format_no: self.format_no }
    }
}

/// The first format from `i` on that matches `wanted`.
pub open spec fn first_match(
    formats: Seq<AudioFormatView>,
    wanted: AudioFormatView,
    i: int,
) -> Option<AudioFormatView>
    decreases formats.len() - i,
{
    if i < 0 || i >= formats.len() {
        None
    } else if formats[i].matches(wanted) {
        Some(formats[i])
    } else {
        first_match(formats, wanted, i + 1)
    }
}

/// For each of the first `n` formats of a client that the server has too: the
/// server's entry for it, under the client's number.
pub open spec fn negotiated(
    server: Seq<AudioFormatView>,
    client: Seq<AudioFormatView>,
    n: int,
) -> Seq<NegotiatedFormatView>
    decreases n,
{
    if n <= 0 {
        seq![]
    } else {
        match first_match(server, client[n - 1], 0) {
            Some(format) => negotiated(server, client, n - 1).push(
                NegotiatedFormatView { format, format_no: bytes::low16(n - 1) },
            ),
            None => negotiated(server, client, n - 1),
        }
    }
}

fn find_match(formats: &[AudioFormat], wanted: &AudioFormat) -> (r: Option<AudioFormat>)
    ensures
        model::opt_view(r) == first_match(model::views(formats@), wanted@, 0),
{
    let ghost all = model::views(formats@);
    let n: usize = formats.len();
    let mut i: usize = 0;
    while i < n
        invariant
            i <= n,
            n == formats@.len(),
            all == model::views(formats@),
            first_match(all, wanted@, i as int) == first_match(all, wanted@, 0),
        decreases n - i,
    {
        assert(all[i as int] == formats@[i as int]@);
        if formats[i].negotiation_eq(wanted) {
            return Some(formats[i].clone());
        }
        i = i + 1;
    }
    None
}

/// The formats that both sides have, in the order of the client's list.
pub fn negotiate_formats(
    server_formats: &[AudioFormat],
    client_formats: &[AudioFormat],
) -> (r: Vec<NegotiatedFormat>)
    ensures
        model::views(r@) == negotiated(
            model::views(server_formats@),
            model::views(client_formats@),
            client_formats@.len() as int,
        ),
{
    let ghost server = model::views(server_formats@);
    let ghost client = model::views(client_formats@);
    let n: usize = client_formats.len();
    let mut r: Vec<NegotiatedFormat> = Vec::new();
    let mut i: usize = 0;
    assert(model::views(r@) =~= seq![]);
    while i < n
        invariant
            i <= n,
            n == client_formats@.len(),
            server == model::views(server_formats@),
            client == model::views(client_formats@),
            model::views(r@) == negotiated(server, client, i as int),
        decreases n - i,
    {
        assert(client[i as int] == client_formats@[i as int]@);
        match find_match(server_formats, &client_formats[i]) {
            Some(format) => {
                r.push(NegotiatedFormat { format, format_no: bytes::len16(i) });
            },
            None => {},
        }
        i = i + 1;
    }
    r
}

proof fn lemma_first_match(
    formats: Seq<AudioFormatView>,
    wanted: AudioFormatView,
    i: int,
)
    requires
        0 <= i,
    ensures
        match first_match(formats, wanted, i) {
            Some(f) => f.matches(wanted) && formats.contains(f),
            None => forall|j: int|
                i <= j < formats.len() ==> !(#[trigger] formats[j]).matches(wanted),
        },
    decreases formats.len() - i,
{
    if i < formats.len() && !formats[i].matches(wanted) {
        lemma_first_match(formats, wanted, i + 1);
    }
}

/// Every negotiated format is one of the server's, and matches the format that
/// the client has under its number.
pub proof fn law_negotiated(
    server: Seq<AudioFormatView>,
    client: Seq<AudioFormatView>,
    n: int,
    i: int,
)
    requires
        0 <= n <= client.len(),
        client.len() <= 0x1_0000,
        0 <= i < negotiated(server, client, n).len(),
    ensures
        ({
            let f = negotiated(server, client, n)[i];
            &&& server.contains(f.format)
            &&& f.format_no < n
            &&& f.format.matches(client[f.format_no as int])
        }),
    decreases n,
{
    if n > 0 {
        lemma_first_match(server, client[n - 1], 0);
        let before = negotiated(server, client, n - 1);
        if i < before.len() {
            law_negotiated(server, client, n - 1, i);
        }
    }
}

/// What is read of a client's messages.
#[derive(Debug, Clone, PartialEq, Eq)]
pub enum ClientMessage {
    AudioFormats(ClientAudioFormats),
    TrainingConfirm,
    Other,
}

pub enum ClientMessageView {
    AudioFormats(Seq<AudioFormatView>),
    TrainingConfirm,
    Other,
}

impl View for ClientMessage {
    type V = ClientMessageView;

    open spec fn view(&self) -> ClientMessageView {
        match self {
            ClientMessage::AudioFormats(formats) => ClientMessageView::AudioFormats(formats@),
            ClientMessage::TrainingConfirm => ClientMessageView::TrainingConfirm,
            ClientMessage::Other => ClientMessageView::Other,
        }
    }
}

pub open spec fn parse_client_message(b: Seq<u8>) -> Result<ClientMessageView, DecodeError> {
    if b.len() < 2 {
        Err(cursor::short(b, b.len() as int, 1))
    } else if b.len() < 4 {
        Err(cursor::short(b, 2, 2))
    } else {
        let n = bytes::u16_le_at(b, 2);
        if 4 + n > b.len() {
            Err(cursor::short(b, 4, n as int))
        } else if b[0] == SNDC_FORMATS {
            match parse_client_formats(b.subrange(4, 4 + n)) {
                Err(e) => Err(e),
                Ok(formats) => Ok(ClientMessageView::AudioFormats(formats)),
            }
        } else if b[0] == SNDC_TRAINING {
            Ok(ClientMessageView::TrainingConfirm)
        } else {
            Ok(ClientMessageView::Other)
        }
    }
}

pub fn decode_client_message(input: &[u8]) -> (r: Result<ClientMessage, DecodeError>)
    ensures
        cursor::decodes_view(r, parse_client_message(input@)),
{
    let mut cursor = ReadCursor::new(input);
    let msg_type: u8 = cursor.take_u8()?;
    let _pad: u8 = cursor.take_u8()?;
    let body_len: u16 = cursor.take_u16_le()?;
    let body: &[u8] = cursor.take_slice(body_len as usize)?;
    if msg_type == SNDC_FORMATS {
        Ok(ClientMessage::AudioFormats(decode_client_audio_formats(body)?))
    } else if msg_type == SNDC_TRAINING {
        Ok(ClientMessage::TrainingConfirm)
    } else {
        Ok(ClientMessage::Other)
    }
}

/// A message with formats has the layout in which a client sends its own: read
/// as one, it gives the formats back, where they fit and the message is shorter
/// than 64 KiB.
pub proof fn law_formats_message(formats: Seq<AudioFormatView>)
    requires
        forall|i: int| 0 <= i < formats.len() ==> (#[trigger] formats[i]).fits(),
        formats.len() <= 0xFFFF,
        server_formats_body(formats).len() <= 0xFFFF,
    ensures
        parse_client_message(server_formats_wire(formats)) == Ok::<ClientMessageView, DecodeError>(
            ClientMessageView::AudioFormats(formats),
        ),
{
    let body = server_formats_body(formats);
    let b = server_formats_wire(formats);
    let n = bytes::low16(body.len() as int);
    let t = seq![SNDC_FORMATS] + seq![0u8];
    bytes::lemma_holds_self(b);
    bytes::lemma_holds_add(b, 0, t + bytes::le16(n), body);
    bytes::lemma_holds_add(b, 0, t, bytes::le16(n));
    bytes::lemma_holds_add(b, 0, seq![SNDC_FORMATS], seq![0u8]);
    bytes::lemma_holds_u8(b, 0, SNDC_FORMATS);
    bytes::lemma_holds_le16(b, 2, n);
    bytes::lemma_holds_bounds(b, 4, body);
    lemma_formats_body(formats);
}

proof fn lemma_formats_body(formats: Seq<AudioFormatView>)
    requires
        forall|i: int| 0 <= i < formats.len() ==> (#[trigger] formats[i]).fits(),
        formats.len() <= 0xFFFF,
    ensures
        parse_client_formats(server_formats_body(formats)) == Ok::<
            Seq<AudioFormatView>,
            DecodeError,
        >(formats),
{
    let body = server_formats_body(formats);
    let n = bytes::low16(formats.len() as int);
    let lead = bytes::le32(0) + bytes::le32(0) + bytes::le32(0) + bytes::le16(0);
    let f1 = lead + bytes::le16(n);
    let f2 = f1 + seq![0u8];
    let f3 = f2 + bytes::le16(SERVER_VERSION);
    let f4 = f3 + seq![0u8];
    assert(lead.len() == 14);
    assert(f4.len() == 20);
    bytes::lemma_holds_self(body);
    bytes::lemma_holds_add(body, 0, f4, formats_wire(formats));
    bytes::lemma_holds_bounds(body, 0, f4);
    bytes::lemma_holds_add(body, 0, f3, seq![0u8]);
    bytes::lemma_holds_add(body, 0, f2, bytes::le16(SERVER_VERSION));
    bytes::lemma_holds_add(body, 0, f1, seq![0u8]);
    bytes::lemma_holds_add(body, 0, lead, bytes::le16(n));
    bytes::lemma_holds_le16(body, 14, n);
    law_formats_round_trip(body, 20, formats);
}

/// A format is its kind, the channels, the rate, the bytes in a second, the bytes of one
/// sample of all channels, the bits of one sample, and extra data after its length.
pub proof fn law_format_bytes(f: AudioFormatView, b: Seq<u8>, p: int)
    requires
        f.fits(),
        0 <= p,
    ensures
        bytes::u16_le_at(f.wire(), 0) == f.format_tag,
        bytes::u16_le_at(f.wire(), 2) == f.n_channels,
        bytes::u32_le_at(f.wire(), 4) == f.n_samples_per_sec,
        bytes::u32_le_at(f.wire(), 8) == f.n_avg_bytes_per_sec,
        bytes::u16_le_at(f.wire(), 12) == f.n_block_align,
        bytes::u16_le_at(f.wire(), 14) == f.bits_per_sample,
        f.extra_data is None ==> bytes::u16_le_at(f.wire(), 16) == 0 && f.wire().len() == 18,
        f.extra_data matches Some(x) ==> bytes::u16_le_at(f.wire(), 16) == x.len()
            && f.wire().skip(18) == x,
        parse_format(b, p) matches Ok((v, q)) ==> {
            &&& v.format_tag == bytes::u16_le_at(b, p)
            &&& v.n_channels == bytes::u16_le_at(b, p + 2)
            &&& v.n_samples_per_sec == bytes::u32_le_at(b, p + 4)
            &&& v.n_avg_bytes_per_sec == bytes::u32_le_at(b, p + 8)
            &&& v.n_block_align == bytes::u16_le_at(b, p + 12)
            &&& v.bits_per_sample == bytes::u16_le_at(b, p + 14)
            &&& q == p + 18 + bytes::u16_le_at(b, p + 16) <= b.len()
            &&& bytes::u16_le_at(b, p + 16) == 0 ==> v.extra_data is None
            &&& bytes::u16_le_at(b, p + 16) > 0 ==> v.extra_data == Some(b.subrange(p + 18, q))
        },
{
    if let Some(x) = f.extra_data {
        assert(f.wire().skip(18) =~= x);
    }
}

/// Uncompressed sound has the kind 1; the sizes follow from the others. Two formats are
/// the same where all but these sizes are.
pub proof fn law_pcm(
    n_channels: u16,
    n_samples_per_sec: u32,
    bits_per_sample: u16,
    f: AudioFormat,
    a: &AudioFormat,
    b: &AudioFormat,
    same: bool,
)
    requires
        call_ensures(AudioFormat::pcm, (n_channels, n_samples_per_sec, bits_per_sample), f),
        call_ensures(AudioFormat::negotiation_eq, (a, b), same),
        n_channels * (bits_per_sample / 8) <= u16::MAX,
        n_samples_per_sec * (n_channels * (bits_per_sample / 8)) <= u32::MAX,
    ensures
        f.format_tag == 1,
        f.n_channels == n_channels,
        f.n_samples_per_sec == n_samples_per_sec,
        f.bits_per_sample == bits_per_sample,
        f.n_block_align == n_channels * (bits_per_sample / 8),
        f.n_avg_bytes_per_sec == n_samples_per_sec * f.n_block_align,
        f.extra_data is None,
        same <==> a.format_tag == b.format_tag && a.n_channels == b.n_channels
            && a.n_samples_per_sec == b.n_samples_per_sec && a.bits_per_sample == b.bits_per_sample
            && a@.extra_data == b@.extra_data,
{
    assert(f@ == pcm_format(n_channels, n_samples_per_sec, bits_per_sample));
    let block = n_channels * (bits_per_sample / 8);
    assert(0 <= n_samples_per_sec * block) by (nonlinear_arith)
        requires
            block >= 0,
            n_samples_per_sec >= 0,
    ;
    assert(0 <= block) by (nonlinear_arith)
        requires
            block == n_channels * (bits_per_sample / 8),
    ;
}

/// Formats are offered behind a header of 24 bytes, with how many there are and the
/// version 2; training is eight bytes; and a piece of sound has the number of its
/// format, its own number and a time before it.
pub proof fn law_server_messages(
    formats: &[AudioFormat],
    offer: Vec<u8>,
    training: Vec<u8>,
    format_no: u16,
    block_no: u8,
    timestamp_ms: u32,
    data: &[u8],
    wave: Vec<u8>,
)
    requires
        call_ensures(encode_server_audio_formats, (formats,), offer),
        call_ensures(encode_training, (), training),
        call_ensures(encode_wave2, (format_no, block_no, timestamp_ms, data), wave),
    ensures
        offer@[0] == 7,
        offer@[1] == 0,
        bytes::u16_le_at(offer@, 2) == (offer@.len() - 4) % 65536,
        forall|i: int| 4 <= i < 18 ==> #[trigger] offer@[i] == 0,
        bytes::u16_le_at(offer@, 18) == formats@.len() % 65536,
        offer@[20] == 0,
        bytes::u16_le_at(offer@, 21) == 2,
        offer@[23] == 0,
        offer@.skip(24) == formats_wire(model::views(formats@)),
        training@ == seq![6u8, 0, 4, 0, 0, 0, 0, 0],
        wave@.len() == 16 + data@.len(),
        wave@[0] == 13,
        wave@[1] == 0,
        bytes::u16_le_at(wave@, 2) == (12 + data@.len()) % 65536,
        bytes::u16_le_at(wave@, 4) == 0,
        bytes::u16_le_at(wave@, 6) == format_no,
        wave@[8] == block_no,
        wave@[9] == 0,
        wave@[10] == 0,
        wave@[11] == 0,
        bytes::u32_le_at(wave@, 12) == timestamp_ms,
        wave@.skip(16) == data@,
{
    bytes::law_number_bytes(0, 0, 0);
    reveal(bytes::le16);
    assert(training@ =~= seq![6u8, 0, 4, 0, 0, 0, 0, 0]);
    assert(wave@.skip(16) =~= data@);
    let list = formats_wire(model::views(formats@));
    assert(server_formats_body(model::views(formats@)).len() == 20 + list.len());
    assert(offer@.skip(24) =~= list);
    bytes::lemma_le16(bytes::low16(formats@.len() as int));
    bytes::lemma_le16(bytes::low16(20int + list.len()));
    bytes::lemma_le16(2);
    bytes::lemma_le16(format_no);
    bytes::lemma_le16(bytes::low16(12int + data@.len()));
    bytes::lemma_le16(0);
    bytes::lemma_le32(0);
    reveal(bytes::le32);
    bytes::lemma_le32(timestamp_ms);
}

/// Formats one after the other.
pub proof fn law_formats_wire(formats: Seq<AudioFormatView>)
    ensures
        formats_wire(formats) == model::joined(Seq::new(formats.len(), |i: int| formats[i].wire())),
    decreases formats.len(),
{
    let parts = Seq::new(formats.len(), |i: int| formats[i].wire());
    if formats.len() > 0 {
        let head = formats.drop_last();
        law_formats_wire(head);
        assert(parts.drop_last() =~= Seq::new(head.len(), |i: int| head[i].wire()));
    }
}

/// Of a client's messages the first byte says what they are: 7 with its formats, which
/// are counted in bytes 18 and 19 and follow from the 24th on, and 6 that it is trained.
pub proof fn law_client_message_bytes(input: &[u8], r: Result<ClientMessage, DecodeError>)
    requires
        call_ensures(decode_client_message, (input,), r),
        r is Ok,
    ensures
        r->Ok_0 is AudioFormats <==> input@[0] == 7,
        r->Ok_0 is TrainingConfirm <==> input@[0] == 6,
        r->Ok_0 matches ClientMessage::AudioFormats(f) ==> f.formats@.len() == bytes::u16_le_at(
            input@,
            18,
        ) && (f.formats@.len() >= 1 ==> {
            &&& f.formats@[0].format_tag == bytes::u16_le_at(input@, 24)
            &&& f.formats@[0].n_channels == bytes::u16_le_at(input@, 26)
            &&& f.formats@[0].n_samples_per_sec == bytes::u32_le_at(input@, 28)
            &&& f.formats@[0].n_avg_bytes_per_sec == bytes::u32_le_at(input@, 32)
            &&& f.formats@[0].n_block_align == bytes::u16_le_at(input@, 36)
            &&& f.formats@[0].bits_per_sample == bytes::u16_le_at(input@, 38)
        }),
{
    let b = input@;
    if let ClientMessage::AudioFormats(f) = r->Ok_0 {
        let n = bytes::u16_le_at(b, 2);
        let body = b.subrange(4, 4 + n);
        assert(forall|i: int| 0 <= i < body.len() ==> #[trigger] body[i] == b[4 + i]);
        let count = bytes::u16_le_at(body, 14) as int;
        lemma_formats_from(body, 20, count);
        if count >= 1 {
            assert(model::views(f.formats@)[0] == f.formats@[0]@);
        }
    }
}

proof fn lemma_formats_from(b: Seq<u8>, p: int, n: int)
    requires
        0 <= n,
        parse_formats(b, p, n) is Ok,
    ensures
        parse_formats(b, p, n)->Ok_0.0.len() == n,
        n >= 1 ==> parse_format(b, p) is Ok && parse_formats(b, p, n)->Ok_0.0[0] == parse_format(
            b,
            p,
        )->Ok_0.0,
    decreases n,
{
    if n > 0 {
        lemma_formats_from(b, p, n - 1);
    }
}

/// The formats that both sides have come in the order of the client's list, each under its
/// place in that list and as the server has it: none is left out that any format of the
/// server matches, and none comes that no format matches.
pub proof fn law_agreed_formats(
    server: &[AudioFormat],
    client: &[AudioFormat],
    r: Vec<NegotiatedFormat>,
    k: int,
    i: int,
)
    requires
        call_ensures(negotiate_formats, (server, client), r),
        client@.len() <= 65536,
        0 <= k < r@.len(),
        0 <= i < client@.len(),
    ensures
        ({
            let n = r@[k]@.format_no;
            &&& n < client@.len()
            &&& r@[k]@.format.matches(client@[n as int]@)
            &&& model::views(server@).contains(r@[k]@.format)
            &&& k > 0 ==> r@[k - 1]@.format_no < n
        }),
        (exists|j: int| 0 <= j < server@.len() && (#[trigger] server@[j])@.matches(client@[i]@))
            ==> exists|m: int| 0 <= m < r@.len() && (#[trigger] r@[m])@.format_no == i,
{
    let s = model::views(server@);
    let c = model::views(client@);
    let out = model::views(r@);
    assert(s.len() == server@.len() && c.len() == client@.len() && out.len() == r@.len());
    lemma_agreed_formats(s, c, c.len() as int, k, i);
    assert(out[k] == r@[k]@);
    if k > 0 {
        assert(out[k - 1] == r@[k - 1]@);
    }
    assert(c[out[k].format_no as int] == client@[out[k].format_no as int]@);
    assert(c[i] == client@[i]@);
    if exists|j: int| 0 <= j < server@.len() && (#[trigger] server@[j])@.matches(client@[i]@) {
        let j = choose|j: int|
            0 <= j < server@.len() && (#[trigger] server@[j])@.matches(client@[i]@);
        assert(s[j] == server@[j]@);
        assert(s[j].matches(c[i]));
        let m = choose|m: int| 0 <= m < out.len() && (#[trigger] out[m]).format_no == i;
        assert(out[m] == r@[m]@);
    }
}

proof fn lemma_match_found(formats: Seq<AudioFormatView>, wanted: AudioFormatView, i: int)
    requires
        0 <= i <= formats.len(),
    ensures
        first_match(formats, wanted, i) matches Some(f) ==> f.matches(wanted) && formats.contains(f),
        first_match(formats, wanted, i) is None ==> forall|j: int|
            i <= j < formats.len() ==> !(#[trigger] formats[j]).matches(wanted),
    decreases formats.len() - i,
{
    if i < formats.len() && !formats[i].matches(wanted) {
        lemma_match_found(formats, wanted, i + 1);
    }
}

proof fn lemma_agreed_formats(
    server: Seq<AudioFormatView>,
    client: Seq<AudioFormatView>,
    n: int,
    k: int,
    i: int,
)
    requires
        0 <= n <= client.len() <= 65536,
    ensures
        ({
            let out = negotiated(server, client, n);
            &&& 0 <= k < out.len() ==> {
                &&& out[k].format_no < n
                &&& out[k].format.matches(client[out[k].format_no as int])
                &&& server.contains(out[k].format)
                &&& k > 0 ==> out[k - 1].format_no < out[k].format_no
            }
            &&& 0 <= i < n && (exists|j: int|
                0 <= j < server.len() && (#[trigger] server[j]).matches(client[i])) ==> exists|m: int|
                0 <= m < out.len() && (#[trigger] out[m]).format_no == i
        }),
    decreases n,
{
    if n > 0 {
        let before = negotiated(server, client, n - 1);
        let out = negotiated(server, client, n);
        lemma_agreed_formats(server, client, n - 1, k, i);
        lemma_agreed_formats(server, client, n - 1, k - 1, i);
        lemma_match_found(server, client[n - 1], 0);
        bytes::law_low_bits(n - 1);
        if 0 <= k < before.len() {
            assert(out[k] == before[k]);
        }
        if 0 <= k - 1 < before.len() {
            assert(out[k - 1] == before[k - 1]);
        }
        if 0 <= i < n && exists|j: int|
            0 <= j < server.len() && (#[trigger] server[j]).matches(client[i]) {
            if i < n - 1 {
                let m = choose|m: int| 0 <= m < before.len() && (#[trigger] before[m]).format_no == i;
                assert(out[m] == before[m]);
            } else {
                assert(out[before.len() as int].format_no == i);
            }
        }
    }
}

} // verus!
