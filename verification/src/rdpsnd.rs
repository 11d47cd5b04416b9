//! The audio output channel: its messages, the state of the channel on one
//! connection, and what a server has to provide for it.

pub mod pdu;

use vstd::prelude::*;

use crate::bytes;
use crate::model;
use crate::model::Held;
use crate::svc;
use crate::DecodeError;

verus! {

/// Why a source of audio could not be started.
pub trait RdpsndError: Send {

}

/// What a source of audio has to send.
pub enum RdpsndServerMessage {
    /// A piece of audio, and its time in milliseconds.
    Wave(Vec<u8>, u32),
}

/// A source of audio.
pub trait RdpsndServerHandler: Send {
    /// The formats that it can produce.
    fn get_formats(&self) -> &[pdu::AudioFormat];

    /// Picks one of the formats that the client has too.
    fn choose_format(&mut self, common: &[pdu::NegotiatedFormat]) -> Option<pdu::NegotiatedFormat>;

    fn start(&mut self, format: &pdu::NegotiatedFormat) -> Result<(), Box<dyn RdpsndError>>;

    fn stop(&mut self);
}

/// How far the exchange at the start of the channel has come.
#[derive(Debug, Clone, Copy, PartialEq, Eq, Structural)]
pub enum State {
    WaitFormats,
    WaitTrainingConfirm,
    Ready,
}

/// What a received message makes a source of audio do.
pub enum HandlerCall {
    /// Pick one of the formats that are also in the client's list.
    ChooseFrom(Vec<pdu::AudioFormat>),
    Start,
}

/// The message in one chunk: every message of a client fits one.
pub open spec fn received(payload: Seq<u8>) -> Result<pdu::ClientMessageView, DecodeError> {
    match svc::parse_chunk(payload) {
        Err(e) => Err(e),
        Ok((_, _, body)) => pdu::parse_client_message(body),
    }
}

/// The state after a message. A message that comes out of turn changes nothing.
pub open spec fn next_state(state: State, message: pdu::ClientMessageView) -> State {
    match (state, message) {
        (State::WaitFormats, pdu::ClientMessageView::AudioFormats(_)) => State::WaitTrainingConfirm,
        (State::WaitTrainingConfirm, pdu::ClientMessageView::TrainingConfirm) => State::Ready,
        _ => state,
    }
}

/// The answer to a message: formats are answered with training.
pub open spec fn answer_to(
    state: State,
    message: pdu::ClientMessageView,
    user_channel_id: u16,
    channel_id: u16,
) -> Seq<Seq<u8>> {
    match (state, message) {
        (State::WaitFormats, pdu::ClientMessageView::AudioFormats(_)) => svc::frames(
            user_channel_id,
            channel_id,
            pdu::training_wire(),
        ),
        _ => seq![],
    }
}

/// Whether a call is the one that a message gives rise to.
pub open spec fn call_fits(
    call: Option<HandlerCall>,
    state: State,
    message: pdu::ClientMessageView,
) -> bool {
    match (state, message) {
        (State::WaitFormats, pdu::ClientMessageView::AudioFormats(formats)) => {
            call matches Some(HandlerCall::ChooseFrom(list)) && model::views(list@) == formats
        },
        (State::WaitTrainingConfirm, pdu::ClientMessageView::TrainingConfirm) => {
            call == Some(HandlerCall::Start)
        },
        _ => call is None,
    }
}

/// A source of audio says that it can produce these formats.
pub open spec fn produces<H: RdpsndServerHandler + ?Sized>(
    h: &H,
    formats: Seq<pdu::AudioFormatView>,
) -> bool {
    exists|list: &[pdu::AudioFormat]|
        model::views(list@) == formats && #[trigger] call_ensures(H::get_formats, (h,), list)
}

/// A source of audio is asked to pick one of these formats, and picks `chosen`.
pub open spec fn picked<H: RdpsndServerHandler + ?Sized>(
    h: &mut H,
    common: Seq<pdu::NegotiatedFormatView>,
    chosen: Option<pdu::NegotiatedFormat>,
) -> bool {
    exists|list: &[pdu::NegotiatedFormat]|
        model::views(list@) == common && #[trigger] call_ensures(
            H::choose_format,
            (h, list),
            chosen,
        )
}

/// A source of audio is told to start on a format.
pub open spec fn started<H: RdpsndServerHandler + ?Sized>(
    h: &mut H,
    format: pdu::NegotiatedFormatView,
) -> bool {
    exists|f: &pdu::NegotiatedFormat, outcome: Result<(), Box<dyn RdpsndError>>|
        f@ == format && #[trigger] call_ensures(H::start, (h, f), outcome)
}

/// A source of audio is told to stop.
pub open spec fn stopped<H: RdpsndServerHandler + ?Sized>(h: &mut H) -> bool {
    call_ensures(H::stop, (h,), ())
}

fn formats_of<H: RdpsndServerHandler + ?Sized>(handler: &H) -> (r: &[pdu::AudioFormat])
    ensures
        produces(handler, model::views(r@)),
{
    handler.get_formats()
}

fn pick<H: RdpsndServerHandler + ?Sized>(
    handler: &mut H,
    common: &[pdu::NegotiatedFormat],
) -> (chosen: Option<pdu::NegotiatedFormat>)
    ensures
        exists|h: &mut H|
            &*h == &*old(handler) && &*final(h) == &*final(handler) && #[trigger] picked(
                h,
                model::views(common@),
                chosen,
            ),
{
    let ghost list = model::views(common@);
    let chosen: Option<pdu::NegotiatedFormat> = handler.choose_format(common);
    assert(forall|h: &mut H| #[trigger]
        call_ensures(H::choose_format, (h, common), chosen) ==> picked(h, list, chosen));
    chosen
}

fn start_on<H: RdpsndServerHandler + ?Sized>(handler: &mut H, format: &pdu::NegotiatedFormat)
    ensures
        exists|h: &mut H|
            &*h == &*old(handler) && &*final(h) == &*final(handler) && #[trigger] started(
                h,
                format@,
            ),
{
    let outcome: Result<(), Box<dyn RdpsndError>> = handler.start(format);
    assert(forall|h: &mut H| #[trigger]
        call_ensures(H::start, (h, format), outcome) ==> started(h, format@));
}

fn halt<H: RdpsndServerHandler + ?Sized>(handler: &mut H)
    ensures
        exists|h: &mut H|
            &*h == &*old(handler) && &*final(h) == &*final(handler) && #[trigger] stopped(h),
{
    handler.stop();
    assert(forall|h: &mut H| #[trigger] call_ensures(H::stop, (h,), ()) ==> stopped(h));
}

/// The audio output channel of one connection. Whatever it sends comes back as
/// whole packets.
pub struct RdpsndChannel {
    channel_id: u16,
    user_channel_id: u16,
    handler: Held<Box<dyn RdpsndServerHandler>>,
    state: State,
    negotiated: Option<pdu::NegotiatedFormat>,
    block_no: u8,
}

impl RdpsndChannel {
    pub closed spec fn id(&self) -> u16 {
        self.channel_id
    }

    pub closed spec fn user(&self) -> u16 {
        self.user_channel_id
    }

    pub closed spec fn state(&self) -> State {
        self.state
    }

    /// The format that audio is sent in, once one was picked.
    pub closed spec fn format(&self) -> Option<pdu::NegotiatedFormatView> {
        model::opt_view(self.negotiated)
    }

    /// The number of the next piece of audio.
    pub closed spec fn block(&self) -> u8 {
        self.block_no
    }

    /// The source of audio of the channel, as it is.
    pub closed spec fn source(&self) -> &Box<dyn RdpsndServerHandler> {
        &self.handler.value
    }

    /// The channel, and the packets that open it: they offer the formats of the
    /// source of audio.
    pub fn new(
        channel_id: u16,
        user_channel_id: u16,
        handler: Box<dyn RdpsndServerHandler>,
    ) -> (r: (Self, Vec<Vec<u8>>))
        ensures
            r.0.id() == channel_id,
            r.0.user() == user_channel_id,
            r.0.state() == State::WaitFormats,
            r.0.format() is None,
            r.0.block() == 0,
            r.0.source() == &handler,
            exists|formats: Seq<pdu::AudioFormatView>| #[trigger]
                produces(&*handler, formats) && model::views(r.1@) == svc::frames(
                    user_channel_id,
                    channel_id,
                    pdu::server_formats_wire(formats),
                ),
    {
        let offer: Vec<u8> = pdu::encode_server_audio_formats(formats_of(&*handler));
        let initial: Vec<Vec<u8>> = svc::wrap_indication(user_channel_id, channel_id, offer);
        let held = Held { value: handler };
        (
            Self {
                channel_id,
                user_channel_id,
                handler: held,
                state: State::WaitFormats,
                negotiated: None,
                block_no: 0,
            },
            initial,
        )
    }

    pub fn channel_id(&self) -> (id: u16)
        ensures
            id == self.id(),
    {
        self.channel_id
    }

    /// Takes one message, and gives the packets that answer it and the call
    /// that it makes on the source of audio.
    pub fn receive(&mut self, payload: &[u8]) -> (r: Result<
        (Vec<Vec<u8>>, Option<HandlerCall>),
        DecodeError,
    >)
        ensures
            final(self).id() == old(self).id(),
            final(self).user() == old(self).user(),
            final(self).format() == old(self).format(),
            final(self).block() == old(self).block(),
            final(self).source() == old(self).source(),
            match received(payload@) {
                Err(e) => {
                    &&& r == Err::<(Vec<Vec<u8>>, Option<HandlerCall>), DecodeError>(e)
                    &&& final(self).state() == old(self).state()
                },
                Ok(m) => {
                    &&& r is Ok
                    &&& final(self).state() == next_state(old(self).state(), m)
                    &&& model::views(r->Ok_0.0@) == answer_to(
                        old(self).state(),
                        m,
                        old(self).user(),
                        old(self).id(),
                    )
                    &&& call_fits(r->Ok_0.1, old(self).state(), m)
                },
            },
    {
        let (_total_length, _flags, body) = svc::dechunkify(payload)?;
        let message: pdu::ClientMessage = pdu::decode_client_message(body)?;
        let none: Vec<Vec<u8>> = Vec::new();
        assert(model::views(none@) =~= seq![]);
        match (message, self.state) {
            (pdu::ClientMessage::AudioFormats(client_formats), State::WaitFormats) => {
                self.state = State::WaitTrainingConfirm;
                let frames: Vec<Vec<u8>> = svc::wrap_indication(
                    self.user_channel_id,
                    self.channel_id,
                    pdu::encode_training(),
                );
                Ok((frames, Some(HandlerCall::ChooseFrom(client_formats.formats))))
            },
            (pdu::ClientMessage::TrainingConfirm, State::WaitTrainingConfirm) => {
                self.state = State::Ready;
                Ok((none, Some(HandlerCall::Start)))
            },
            _ => Ok((none, None)),
        }
    }

    /// Takes one chunk of the channel, its header included. Formats are put to
    /// the source of audio for a choice, and once the client is trained the
    /// source is started on the chosen format, if there is one; that it could
    /// not be started is passed over.
    pub fn on_channel_data(&mut self, payload: &[u8]) -> (r: Result<Vec<Vec<u8>>, DecodeError>)
        ensures
            final(self).id() == old(self).id(),
            final(self).user() == old(self).user(),
            final(self).block() == old(self).block(),
            match received(payload@) {
                Err(e) => {
                    &&& r == Err::<Vec<Vec<u8>>, DecodeError>(e)
                    &&& final(self).state() == old(self).state()
                    &&& final(self).format() == old(self).format()
                    &&& final(self).source() == old(self).source()
                },
                Ok(m) => {
                    &&& r is Ok
                    &&& final(self).state() == next_state(old(self).state(), m)
                    &&& model::views(r->Ok_0@) == answer_to(
                        old(self).state(),
                        m,
                        old(self).user(),
                        old(self).id(),
                    )
                    &&& match (old(self).state(), m) {
                        (State::WaitFormats, pdu::ClientMessageView::AudioFormats(client)) => {
                            exists|
                                server: Seq<pdu::AudioFormatView>,
                                h: &mut dyn RdpsndServerHandler,
                                common: Seq<pdu::NegotiatedFormatView>,
                                chosen: Option<pdu::NegotiatedFormat>,
                            |
                                #[trigger] produces(&**old(self).source(), server) && common
                                    == pdu::negotiated(server, client, client.len() as int)
                                    && #[trigger] picked(h, common, chosen) && &*h
                                    == &**old(self).source() && &*final(h)
                                    == &**final(self).source() && final(self).format()
                                    == model::opt_view(chosen)
                        },
                        (State::WaitTrainingConfirm, pdu::ClientMessageView::TrainingConfirm) => {
                            &&& final(self).format() == old(self).format()
                            &&& match old(self).format() {
                                Some(format) => exists|
                                    h: &mut dyn RdpsndServerHandler,
                                    on: pdu::NegotiatedFormatView,
                                | #[trigger]
                                    started(h, on) && on == format && &*h
                                        == &**old(self).source() && &*final(h)
                                        == &**final(self).source(),
                                None => final(self).source() == old(self).source(),
                            }
                        },
                        _ => {
                            &&& final(self).format() == old(self).format()
                            &&& final(self).source() == old(self).source()
                        },
                    }
                },
            },
    {
        let (frames, call) = self.receive(payload)?;
        match call {
            Some(HandlerCall::ChooseFrom(client_formats)) => {
                let common: Vec<pdu::NegotiatedFormat> = pdu::negotiate_formats(
                    formats_of(&*self.handler.value),
                    client_formats.as_slice(),
                );
                let chosen: Option<pdu::NegotiatedFormat> = pick(
                    &mut *self.handler.value,
                    common.as_slice(),
                );
                self.use_format(chosen);
            },
            Some(HandlerCall::Start) => {
                match &self.negotiated {
                    Some(format) => {
                        let format: pdu::NegotiatedFormat = format.clone();
                        start_on(&mut *self.handler.value, &format);
                    },
                    None => {},
                }
            },
            None => {},
        }
        Ok(frames)
    }

    /// Sends audio in a format from now on, or none.
    pub fn use_format(&mut self, format: Option<pdu::NegotiatedFormat>)
        ensures
            final(self).id() == old(self).id(),
            final(self).user() == old(self).user(),
            final(self).state() == old(self).state(),
            final(self).format() == model::opt_view(format),
            final(self).block() == old(self).block(),
            final(self).source() == old(self).source(),
    {
        self.negotiated = format;
    }

    /// The packets for a piece of audio: none before the channel is ready, nor
    /// where no format was chosen.
    pub fn encode_wave(&mut self, pcm: Vec<u8>, timestamp_ms: u32) -> (frames: Vec<Vec<u8>>)
        ensures
            final(self).id() == old(self).id(),
            final(self).user() == old(self).user(),
            final(self).state() == old(self).state(),
            final(self).format() == old(self).format(),
            final(self).source() == old(self).source(),
            match (old(self).state(), old(self).format()) {
                (State::Ready, Some(format)) => {
                    &&& model::views(frames@) == svc::frames(
                        old(self).user(),
                        old(self).id(),
                        pdu::wave2_wire(format.format_no, old(self).block(), timestamp_ms, pcm@),
                    )
                    &&& final(self).block() == bytes::low8(old(self).block() + 1)
                },
                _ => frames@.len() == 0 && final(self).block() == old(self).block(),
            },
    {
        match self.state {
            State::Ready => {},
            _ => {
                return Vec::new();
            },
        }
        let format_no: u16 = match &self.negotiated {
            Some(format) => format.format_no,
            None => {
                return Vec::new();
            },
        };
        let body: Vec<u8> = pdu::encode_wave2(
            format_no,
            self.block_no,
            timestamp_ms,
            pcm.as_slice(),
        );
        self.block_no = if self.block_no == 255 {
            0
        } else {
            self.block_no + 1
        };
        svc::wrap_indication(self.user_channel_id, self.channel_id, body)
    }

    /// Stops the source of audio, for when the channel goes away.
    pub fn stop(&mut self)
        ensures
            final(self).id() == old(self).id(),
            final(self).user() == old(self).user(),
            final(self).state() == old(self).state(),
            final(self).format() == old(self).format(),
            final(self).block() == old(self).block(),
            exists|h: &mut dyn RdpsndServerHandler| #[trigger]
                stopped(h) && &*h == &**old(self).source() && &*final(h)
                    == &**final(self).source(),
    {
        halt(&mut *self.handler.value);
    }
}

/// The channel becomes ready by formats followed by a confirmation of training,
/// and by nothing shorter.
pub proof fn law_ready(state: State, message: pdu::ClientMessageView)
    ensures
        next_state(state, message) == State::Ready <==> (state == State::Ready || (state
            == State::WaitTrainingConfirm && message is TrainingConfirm)),
        next_state(state, message) == State::WaitTrainingConfirm && state
            != State::WaitTrainingConfirm ==> state == State::WaitFormats
            && message is AudioFormats,
        next_state(state, message) == State::WaitFormats ==> state == State::WaitFormats,
{
}

/// A channel is opened by the formats that the source of audio has. The formats of a
/// client are answered with training, and only the first time; audio goes out once the
/// client is trained and a format was picked, each piece under the number after that of
/// the one before, and none of it otherwise.
pub proof fn law_audio(
    a: &mut RdpsndChannel,
    pcm: Vec<u8>,
    timestamp_ms: u32,
    frames: Vec<Vec<u8>>,
    z: &mut RdpsndChannel,
    payload: &[u8],
    r: Result<(Vec<Vec<u8>>, Option<HandlerCall>), DecodeError>,
)
    requires
        call_ensures(RdpsndChannel::encode_wave, (a, pcm, timestamp_ms), frames),
        call_ensures(RdpsndChannel::receive, (z, payload), r),
    ensures
        ({
            let ready = old(a).state() == State::Ready && old(a).format() is Some;
            &&& !ready ==> frames@.len() == 0 && final(a).block() == old(a).block()
            &&& ready ==> {
                &&& model::views(frames@) == svc::frames(
                    old(a).user(),
                    old(a).id(),
                    pdu::wave2_wire(
                        old(a).format()->Some_0.format_no,
                        old(a).block(),
                        timestamp_ms,
                        pcm@,
                    ),
                )
                &&& final(a).block() == (if old(a).block() == 255 {
                    0
                } else {
                    old(a).block() + 1
                })
            }
        }),
        received(payload@) matches Ok(m) ==> {
            let first = old(z).state() == State::WaitFormats && m is AudioFormats;
            let trained = old(z).state() == State::WaitTrainingConfirm && m is TrainingConfirm;
            &&& first ==> {
                &&& final(z).state() == State::WaitTrainingConfirm
                &&& model::views(r->Ok_0.0@) == svc::frames(
                    old(z).user(),
                    old(z).id(),
                    pdu::training_wire(),
                )
                &&& r->Ok_0.1 is Some
                &&& r->Ok_0.1->Some_0 is ChooseFrom
            }
            &&& trained ==> {
                &&& final(z).state() == State::Ready
                &&& r->Ok_0.0@.len() == 0
                &&& r->Ok_0.1 is Some
                &&& r->Ok_0.1->Some_0 is Start
            }
            &&& !first && !trained ==> {
                &&& final(z).state() == old(z).state()
                &&& r->Ok_0.0@.len() == 0
                &&& r->Ok_0.1 is None
            }
        },
{
    if received(payload@) is Ok {
        assert(model::views(r->Ok_0.0@).len() == r->Ok_0.0@.len());
    }
}

} // verus!
