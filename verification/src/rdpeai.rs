//! The audio input channel: its messages, and the dynamic channel that takes
//! audio from a client and hands it on.

pub mod pdu;

use vstd::prelude::*;

use crate::bytes;
use crate::dvc::DvcHandler;
use crate::model;
use crate::model::Held;
use crate::rdpsnd::pdu as formats;
use crate::rdpeai::pdu::AudioFormat;

verus! {

broadcast use model::lemma_views_push;

/// Takes audio as it comes in.
pub trait AudioInputBackend: Send {
    fn on_audio_data(&mut self, format: &AudioFormat, data: &[u8]);
}

/// Makes the audio input of one connection.
pub trait AudioInputBackendFactory: Send + Sync {
    fn build_backend(&self) -> Held<Box<dyn AudioInputBackend>>;
}

/// A backend is given audio in a format.
pub open spec fn given<B: AudioInputBackend + ?Sized>(
    b: &mut B,
    format: formats::AudioFormatView,
    data: Seq<u8>,
) -> bool {
    exists|f: &AudioFormat, d: &[u8]|
        f@ == format && d@ == data && #[trigger] call_ensures(B::on_audio_data, (b, f, d), ())
}

fn hand_on<B: AudioInputBackend + ?Sized>(backend: &mut B, format: &AudioFormat, data: &[u8])
    ensures
        exists|b: &mut B|
            &*b == &*old(backend) && &*final(b) == &*final(backend) && #[trigger] given(
                b,
                format@,
                data@,
            ),
{
    backend.on_audio_data(format, data);
    assert(forall|b: &mut B| #[trigger]
        call_ensures(B::on_audio_data, (b, format, data), ()) ==> given(b, format@, data@));
}

/// Whether a format is in a client's list, from `i` on.
pub open spec fn offered(
    client: Seq<formats::AudioFormatView>,
    format: formats::AudioFormatView,
    i: int,
) -> bool {
    exists|j: int| i <= j < client.len() && format.matches(#[trigger] client[j])
}

/// Where the first format of the server stands that the client has too, from
/// `i` on.
pub open spec fn first_offered(
    server: Seq<formats::AudioFormatView>,
    client: Seq<formats::AudioFormatView>,
    i: int,
) -> Option<int>
    decreases server.len() - i,
{
    if i < 0 || i >= server.len() {
        None
    } else if offered(client, server[i], 0) {
        Some(i)
    } else {
        first_offered(server, client, i + 1)
    }
}

fn is_offered(client: &[AudioFormat], format: &AudioFormat) -> (r: bool)
    ensures
        r == offered(model::views(client@), format@, 0),
{
    let ghost views = model::views(client@);
    let n: usize = client.len();
    let mut i: usize = 0;
    while i < n
        invariant
            i <= n,
            n == client@.len(),
            views == model::views(client@),
            forall|j: int| 0 <= j < i ==> !format@.matches(#[trigger] views[j]),
        decreases n - i,
    {
        assert(views[i as int] == client@[i as int]@);
        if format.negotiation_eq(&client[i]) {
            return true;
        }
        i = i + 1;
    }
    false
}

fn find_offered(server: &[AudioFormat], client: &[AudioFormat]) -> (r: Option<usize>)
    ensures
        match first_offered(model::views(server@), model::views(client@), 0) {
            Some(i) => r is Some && r->Some_0 == i && i < server@.len(),
            None => r is None,
        },
{
    let ghost views = model::views(server@);
    let ghost theirs = model::views(client@);
    let n: usize = server.len();
    let mut i: usize = 0;
    while i < n
        invariant
            i <= n,
            n == server@.len(),
            views == model::views(server@),
            theirs == model::views(client@),
            first_offered(views, theirs, i as int) == first_offered(views, theirs, 0),
        decreases n - i,
    {
        assert(views[i as int] == server@[i as int]@);
        if is_offered(client, &server[i]) {
            return Some(i);
        }
        i = i + 1;
    }
    None
}

/// The number of the first format of the server that the client has too.
pub fn negotiate(server_formats: &[AudioFormat], client_formats: &[AudioFormat]) -> (r: Option<u32>)
    ensures
        r == (match first_offered(
            model::views(server_formats@),
            model::views(client_formats@),
            0,
        ) {
            Some(i) => Some(bytes::low32(i)),
            None => None,
        }),
{
    match find_offered(server_formats, client_formats) {
        Some(i) => Some(bytes::len32(i)),
        None => None,
    }
}

/// How far the exchange at the start of the channel has come.
#[derive(Debug, Clone, Copy, PartialEq, Eq, Structural)]
pub enum State {
    WaitVersion,
    WaitFormats,
    WaitOpenReply,
    Streaming,
}

/// The state of the channel.
pub struct InputView {
    pub formats: Seq<formats::AudioFormatView>,
    pub frames_per_packet: u32,
    pub state: State,
    pub negotiated: Option<formats::AudioFormatView>,
}

/// What a message does: the state after it, the answer, and the audio that is
/// handed on. A message that comes out of turn does nothing, and neither does
/// a list of formats none of which the server has.
pub open spec fn after_message(h: InputView, message: pdu::ClientMessageView) -> (
    InputView,
    Seq<Seq<u8>>,
    Option<Seq<u8>>,
) {
    match (h.state, message) {
        (State::WaitVersion, pdu::ClientMessageView::Version { .. }) => (
            InputView { state: State::WaitFormats, ..h },
            seq![pdu::formats_message(h.formats)],
            None,
        ),
        (State::WaitFormats, pdu::ClientMessageView::Formats { formats }) => {
            match first_offered(h.formats, formats, 0) {
                Some(i) => (
                    InputView {
                        state: State::WaitOpenReply,
                        negotiated: Some(h.formats[i]),
                        ..h
                    },
                    seq![pdu::open_wire(h.frames_per_packet, bytes::low32(i), h.formats[i])],
                    None,
                ),
                None => (h, seq![], None),
            }
        },
        (State::WaitOpenReply, pdu::ClientMessageView::OpenReply { .. }) => (
            InputView { state: State::Streaming, ..h },
            seq![],
            None,
        ),
        (State::Streaming, pdu::ClientMessageView::Data { data }) => (
            h,
            seq![],
            match h.negotiated {
                Some(_) => Some(data),
                None => None,
            },
        ),
        _ => (h, seq![], None),
    }
}

/// What received bytes do. Bytes that are no message do nothing.
pub open spec fn after_data(h: InputView, data: Seq<u8>) -> (
    InputView,
    Seq<Seq<u8>>,
    Option<Seq<u8>>,
) {
    match pdu::parse_client_message(data) {
        Err(_) => (h, seq![], None),
        Ok(message) => after_message(h, message),
    }
}

/// The audio input channel: agrees on a format with the client, and then hands
/// on the audio that it sends.
pub struct AudioInputHandler {
    server_formats: Vec<AudioFormat>,
    frames_per_packet: u32,
    state: State,
    negotiated: Option<AudioFormat>,
    backend: Held<Box<dyn AudioInputBackend>>,
}

impl View for AudioInputHandler {
    type V = InputView;

    closed spec fn view(&self) -> InputView {
        InputView {
            formats: model::views(self.server_formats@),
            frames_per_packet: self.frames_per_packet,
            state: self.state,
            negotiated: model::opt_view(self.negotiated),
        }
    }
}

impl AudioInputHandler {
    /// What takes the audio, as it is.
    pub closed spec fn served(&self) -> &Box<dyn AudioInputBackend> {
        &self.backend.value
    }

    /// Offers one format: 48 kHz, two channels, 16 bits. A packet holds 10 ms
    /// of it.
    pub fn new(backend: Box<dyn AudioInputBackend>) -> (h: Self)
        ensures
            h@ == (InputView {
                formats: seq![formats::pcm_format(2, 48_000, 16)],
                frames_per_packet: 480,
                state: State::WaitVersion,
                negotiated: None,
            }),
            h.served() == &backend,
    {
        let held = Held { value: backend };
        let mut server_formats: Vec<AudioFormat> = Vec::new();
        server_formats.push(AudioFormat::pcm(2, 48_000, 16));
        assert(model::views(server_formats@) =~= seq![formats::pcm_format(2, 48_000, 16)]);
        Self {
            server_formats,
            frames_per_packet: 480,
            state: State::WaitVersion,
            negotiated: None,
            backend: held,
        }
    }

    pub fn state(&self) -> (s: State)
        ensures
            s == self@.state,
    {
        self.state
    }

    /// Takes a message, and gives the answer to it and the audio that is to be
    /// handed on.
    pub fn receive(&mut self, data: &[u8]) -> (r: (Vec<Vec<u8>>, Option<Vec<u8>>))
        ensures
            final(self)@ == after_data(old(self)@, data@).0,
            model::views(r.0@) == after_data(old(self)@, data@).1,
            model::opt_view(r.1) == after_data(old(self)@, data@).2,
            final(self).served() == old(self).served(),
    {
        let mut answer: Vec<Vec<u8>> = Vec::new();
        assert(model::views(answer@) =~= seq![]);
        let message: pdu::ClientMessage = match pdu::decode_client_message(data) {
            Ok(message) => message,
            Err(_) => {
                return (answer, None);
            },
        };
        match (message, self.state) {
            (pdu::ClientMessage::Version { .. }, State::WaitVersion) => {
                self.state = State::WaitFormats;
                answer.push(pdu::encode_formats(self.server_formats.as_slice()));
                assert(model::views(answer@) =~= after_data(old(self)@, data@).1);
                (answer, None)
            },
            (pdu::ClientMessage::Formats { formats }, State::WaitFormats) => {
                match find_offered(self.server_formats.as_slice(), formats.as_slice()) {
                    Some(i) => {
                        let format: AudioFormat = self.server_formats[i].clone();
                        assert(format@ == old(self)@.formats[i as int]);
                        answer.push(
                            pdu::encode_open(self.frames_per_packet, bytes::len32(i), &format),
                        );
                        self.negotiated = Some(format);
                        self.state = State::WaitOpenReply;
                        assert(model::views(answer@) =~= after_data(old(self)@, data@).1);
                        (answer, None)
                    },
                    None => (answer, None),
                }
            },
            (pdu::ClientMessage::OpenReply { .. }, State::WaitOpenReply) => {
                self.state = State::Streaming;
                (answer, None)
            },
            (pdu::ClientMessage::Data { data }, State::Streaming) => {
                match &self.negotiated {
                    Some(_) => (answer, Some(data)),
                    None => (answer, None),
                }
            },
            _ => (answer, None),
        }
    }
}

impl DvcHandler for AudioInputHandler {
    fn channel_name(&self) -> (name: &str)
        ensures
            name@ == pdu::CHANNEL_NAME@,
    {
        pdu::CHANNEL_NAME
    }

    /// The server speaks first: it says which version it has.
    fn on_open(&mut self) -> (r: Vec<Vec<u8>>)
        ensures
            final(self)@ == old(self)@,
            final(self).served() == old(self).served(),
            model::views(r@) == seq![pdu::version_wire(pdu::VERSION_2)],
    {
        let mut r: Vec<Vec<u8>> = Vec::new();
        r.push(pdu::encode_version(pdu::VERSION_2));
        assert(model::views(r@) =~= seq![pdu::version_wire(pdu::VERSION_2)]);
        r
    }

    /// Audio is handed on in the format that was agreed on.
    fn on_data(&mut self, data: &[u8]) -> (r: Vec<Vec<u8>>)
        ensures
            final(self)@ == after_data(old(self)@, data@).0,
            model::views(r@) == after_data(old(self)@, data@).1,
            match after_data(old(self)@, data@).2 {
                Some(audio) => exists|
                    b: &mut dyn AudioInputBackend,
                    format: formats::AudioFormatView,
                    piece: Seq<u8>,
                | #[trigger]
                    given(b, format, piece) && old(self)@.negotiated == Some(format) && piece
                        == audio && &*b == &**old(self).served() && &*final(b)
                        == &**final(self).served(),
                None => final(self).served() == old(self).served(),
            },
    {
        let (answer, audio) = self.receive(data);
        match (audio, &self.negotiated) {
            (Some(audio), Some(format)) => {
                hand_on(&mut *self.backend.value, format, audio.as_slice());
            },
            _ => {},
        }
        answer
    }
}

/// A format is agreed on before any audio is handed on, and audio is handed on
/// only in the last state.
pub proof fn law_streaming(h: InputView, message: pdu::ClientMessageView)
    requires
        h.state == State::WaitOpenReply || h.state == State::Streaming ==> h.negotiated is Some,
    ensures
        ({
            let (next, answer, audio) = after_message(h, message);
            &&& next.state == State::WaitOpenReply || next.state == State::Streaming
                ==> next.negotiated is Some
            &&& audio is Some <==> h.state == State::Streaming && message is Data
            &&& audio matches Some(data) ==> message == (pdu::ClientMessageView::Data { data })
        }),
{
}

/// The format that is agreed on is the first of the server's that the client has too, in
/// the order of the server's list.
pub proof fn law_negotiate(server: &[AudioFormat], client: &[AudioFormat], r: Option<u32>, i: int)
    requires
        call_ensures(negotiate, (server, client), r),
        server@.len() <= 0xffff_ffff,
    ensures
        r is None ==> forall|k: int, j: int|
            0 <= k < server@.len() && 0 <= j < client@.len() ==> !(#[trigger] server@[k])@.matches(
                (#[trigger] client@[j])@,
            ),
        r matches Some(n) ==> {
            &&& n < server@.len()
            &&& exists|j: int|
                0 <= j < client@.len() && server@[n as int]@.matches((#[trigger] client@[j])@)
            &&& forall|k: int, j: int|
                0 <= k < n && 0 <= j < client@.len() ==> !(#[trigger] server@[k])@.matches(
                    (#[trigger] client@[j])@,
                )
        },
{
    let s = model::views(server@);
    let c = model::views(client@);
    assert(s.len() == server@.len() && c.len() == client@.len());
    assert forall|k: int| 0 <= k < s.len() implies s[k] == (#[trigger] server@[k])@ by {}
    assert forall|k: int| 0 <= k < c.len() implies c[k] == (#[trigger] client@[k])@ by {}
    lemma_first_offered(s, c, 0);
    if let Some(n) = r {
        bytes::law_low_bits(n as int);
    }
}

proof fn lemma_first_offered(
    server: Seq<formats::AudioFormatView>,
    client: Seq<formats::AudioFormatView>,
    i: int,
)
    requires
        0 <= i <= server.len(),
    ensures
        first_offered(server, client, i) is None ==> forall|k: int, j: int|
            i <= k < server.len() && 0 <= j < client.len() ==> !(#[trigger] server[k]).matches(
                #[trigger] client[j],
            ),
        first_offered(server, client, i) matches Some(n) ==> {
            &&& i <= n < server.len()
            &&& exists|j: int| 0 <= j < client.len() && server[n].matches(#[trigger] client[j])
            &&& forall|k: int, j: int|
                i <= k < n && 0 <= j < client.len() ==> !(#[trigger] server[k]).matches(
                    #[trigger] client[j],
                )
        },
    decreases server.len() - i,
{
    if i < server.len() && !offered(client, server[i], 0) {
        lemma_first_offered(server, client, i + 1);
    }
}

/// A version is answered with the formats, formats with the opening of the one agreed on,
/// and audio is handed on as it comes.
pub proof fn law_exchange(
    a: &mut AudioInputHandler,
    data: &[u8],
    r: (Vec<Vec<u8>>, Option<Vec<u8>>),
)
    requires
        call_ensures(AudioInputHandler::receive, (a, data), r),
    ensures
        final(a)@.formats == old(a)@.formats,
        final(a)@.frames_per_packet == old(a)@.frames_per_packet,
        ({
            let out = model::views(r.0@);
            match (pdu::parse_client_message(data@), old(a)@.state) {
                (Ok(pdu::ClientMessageView::Version { .. }), State::WaitVersion) => {
                    &&& out == seq![pdu::formats_message(old(a)@.formats)]
                    &&& final(a)@.state == State::WaitFormats
                    &&& r.1 is None
                },
                (Ok(pdu::ClientMessageView::OpenReply { .. }), State::WaitOpenReply) => {
                    &&& out.len() == 0
                    &&& final(a)@.state == State::Streaming
                    &&& final(a)@.negotiated == old(a)@.negotiated
                    &&& r.1 is None
                },
                (Ok(pdu::ClientMessageView::Data { data }), State::Streaming) => {
                    &&& out.len() == 0
                    &&& final(a)@.state == State::Streaming
                    &&& old(a)@.negotiated is Some ==> r.1 is Some && r.1->Some_0@ == data
                    &&& old(a)@.negotiated is None ==> r.1 is None
                },
                (Ok(pdu::ClientMessageView::Formats { formats }), State::WaitFormats) => {
                    &&& r.1 is None
                    &&& out.len() <= 1
                    &&& out.len() == 0 ==> final(a)@ == old(a)@
                    &&& out.len() == 1 ==> exists|n: int|
                        #![trigger old(a)@.formats[n]]
                        0 <= n < old(a)@.formats.len() && final(a)@.negotiated == Some(
                            old(a)@.formats[n],
                        ) && final(a)@.state == State::WaitOpenReply && out[0] == pdu::open_wire(
                            old(a)@.frames_per_packet,
                            bytes::low32(n),
                            old(a)@.formats[n],
                        )
                },
                _ => {
                    &&& out.len() == 0
                    &&& final(a)@ == old(a)@
                    &&& r.1 is None
                },
            }
        }),
{
    if let Ok(pdu::ClientMessageView::Formats { formats }) = pdu::parse_client_message(data@) {
        lemma_first_offered(old(a)@.formats, formats, 0);
    }
}

} // verus!
