//! The clipboard channel, for text: its messages, the state of the channel on
//! one connection, and what a server has to provide for it.

pub mod pdu;

use vstd::prelude::*;

use crate::model;
use crate::model::Held;
use crate::svc;
use crate::DecodeError;

verus! {

broadcast use model::lemma_views_push;

/// A clipboard format by its number.
#[derive(Debug, Clone, Copy, PartialEq, Eq, Structural)]
pub struct ClipboardFormat {
    pub id: u32,
}

impl ClipboardFormat {
    pub fn unicode_text() -> (f: Self)
        ensures
            f.id == pdu::CF_UNICODETEXT,
    {
        Self { id: pdu::CF_UNICODETEXT }
    }
}

#[derive(Debug, Clone, Copy, PartialEq, Eq, Structural)]
pub struct FormatDataRequest {
    pub format: u32,
}

/// Clipboard text, or that there is none to be had.
#[derive(Debug, PartialEq, Eq)]
pub struct FormatDataResponse(Result<String, ()>);

impl View for FormatDataResponse {
    type V = Result<Seq<char>, ()>;

    closed spec fn view(&self) -> Result<Seq<char>, ()> {
        pdu::text_view(self.0)
    }
}

impl Clone for FormatDataResponse {
    fn clone(&self) -> (r: Self)
        ensures
            r@ == self@,
    {
        match &self.0 {
            Ok(text) => FormatDataResponse(Ok(text.clone())),
            Err(_) => FormatDataResponse(Err(())),
        }
    }
}

impl FormatDataResponse {
    pub fn new_unicode_string(text: &str) -> (r: Self)
        ensures
            r@ == Ok::<Seq<char>, ()>(text@),
    {
        Self(Ok(text.to_owned()))
    }

    pub fn new_error() -> (r: Self)
        ensures
            r@ == Err::<Seq<char>, ()>(()),
    {
        Self(Err(()))
    }

    pub fn is_error(&self) -> (r: bool)
        ensures
            r == self@ is Err,
    {
        match &self.0 {
            Ok(_) => false,
            Err(_) => true,
        }
    }

    pub fn to_unicode_string(&self) -> (r: Option<String>)
        ensures
            match self@ {
                Ok(text) => r is Some && r->Some_0@ == text,
                Err(_) => r is None,
            },
    {
        match &self.0 {
            Ok(text) => Some(text.clone()),
            Err(_) => None,
        }
    }
}

/// What a backend wants sent.
pub enum ClipboardMessage {
    /// Offer the formats of the local clipboard.
    SendInitiateCopy(Vec<ClipboardFormat>),
    /// Ask for the remote clipboard in a format.
    SendInitiatePaste(u32),
    /// Answer a request for the local clipboard.
    SendFormatData(FormatDataResponse),
}

/// The local clipboard.
pub trait CliprdrBackend: Send {
    /// The channel is there.
    fn on_ready(&mut self);

    /// The remote side offers formats.
    fn on_remote_copy(&mut self, formats: &[ClipboardFormat]);

    /// The remote side asks for data in a format that was offered to it.
    fn on_format_data_request(&mut self, request: FormatDataRequest);

    /// The remote side answers a request for its data.
    fn on_format_data_response(&mut self, response: FormatDataResponse);
}

/// What a received message makes a backend do.
pub enum BackendCall {
    RemoteCopy(Vec<ClipboardFormat>),
    DataRequest(FormatDataRequest),
    DataResponse(FormatDataResponse),
}

pub enum BackendCallView {
    RemoteCopy(Seq<ClipboardFormat>),
    DataRequest(FormatDataRequest),
    DataResponse(Result<Seq<char>, ()>),
}

impl View for BackendCall {
    type V = BackendCallView;

    open spec fn view(&self) -> BackendCallView {
        match self {
            BackendCall::RemoteCopy(formats) => BackendCallView::RemoteCopy(formats@),
            BackendCall::DataRequest(request) => BackendCallView::DataRequest(*request),
            BackendCall::DataResponse(response) => BackendCallView::DataResponse(response@),
        }
    }
}

/// A backend is told that the channel is there.
pub open spec fn readied<B: CliprdrBackend + ?Sized>(b: &mut B) -> bool {
    call_ensures(B::on_ready, (b,), ())
}

/// A backend is told of formats.
pub open spec fn offered<B: CliprdrBackend + ?Sized>(
    b: &mut B,
    formats: Seq<ClipboardFormat>,
) -> bool {
    exists|list: &[ClipboardFormat]|
        list@ == formats && #[trigger] call_ensures(B::on_remote_copy, (b, list), ())
}

/// The method that a call is for is called, with what belongs to it.
pub open spec fn called<B: CliprdrBackend + ?Sized>(b: &mut B, call: BackendCall) -> bool {
    match call {
        BackendCall::RemoteCopy(formats) => offered(b, formats@),
        BackendCall::DataRequest(request) => call_ensures(
            B::on_format_data_request,
            (b, request),
            (),
        ),
        BackendCall::DataResponse(response) => call_ensures(
            B::on_format_data_response,
            (b, response),
            (),
        ),
    }
}

fn make_ready<B: CliprdrBackend + ?Sized>(backend: &mut B)
    ensures
        exists|b: &mut B|
            &*b == &*old(backend) && &*final(b) == &*final(backend) && #[trigger] readied(b),
{
    backend.on_ready();
    assert(forall|b: &mut B| #[trigger] call_ensures(B::on_ready, (b,), ()) ==> readied(b));
}

/// Makes a call on a backend.
fn hand_on<B: CliprdrBackend + ?Sized>(backend: &mut B, call: BackendCall)
    ensures
        exists|b: &mut B|
            &*b == &*old(backend) && &*final(b) == &*final(backend) && #[trigger] called(b, call),
{
    let ghost whole = call;
    match call {
        BackendCall::RemoteCopy(formats) => {
            let list: &[ClipboardFormat] = formats.as_slice();
            backend.on_remote_copy(list);
            assert forall|b: &mut B| #[trigger]
                call_ensures(B::on_remote_copy, (b, list), ()) implies called(b, whole) by {
                assert(offered(b, list@));
            }
        },
        BackendCall::DataRequest(request) => {
            backend.on_format_data_request(request);
            assert(forall|b: &mut B| #[trigger]
                call_ensures(B::on_format_data_request, (b, request), ()) ==> called(b, whole));
        },
        BackendCall::DataResponse(response) => {
            let ghost given = response;
            backend.on_format_data_response(response);
            assert(forall|b: &mut B| #[trigger]
                call_ensures(B::on_format_data_response, (b, given), ()) ==> called(b, whole));
        },
    }
}

/// Formats by their numbers.
pub open spec fn formats_of(ids: Seq<u32>) -> Seq<ClipboardFormat> {
    Seq::new(ids.len(), |i: int| ClipboardFormat { id: ids[i] })
}

/// The call that a message gives rise to.
pub open spec fn call_for(message: pdu::ClientMessageView) -> Option<BackendCallView> {
    match message {
        pdu::ClientMessageView::FormatList(ids) => Some(
            BackendCallView::RemoteCopy(formats_of(ids)),
        ),
        pdu::ClientMessageView::FormatDataRequest(format) => Some(
            BackendCallView::DataRequest(FormatDataRequest { format }),
        ),
        pdu::ClientMessageView::FormatDataResponse(text) => Some(
            BackendCallView::DataResponse(text),
        ),
        _ => None,
    }
}

/// The answer to a message: a list of formats is acknowledged at once, and
/// nothing else is.
pub open spec fn answer_to(
    message: pdu::ClientMessageView,
    user_channel_id: u16,
    channel_id: u16,
) -> Seq<Seq<u8>> {
    match message {
        pdu::ClientMessageView::FormatList(_) => svc::frames(
            user_channel_id,
            channel_id,
            pdu::format_list_response_wire(),
        ),
        _ => seq![],
    }
}

/// What a chunk does to the bytes held of a message: the bytes then held, and
/// the message where the chunk was its last.
pub open spec fn received(held: Seq<u8>, payload: Seq<u8>) -> (
    Seq<u8>,
    Result<Option<pdu::ClientMessageView>, DecodeError>,
) {
    match svc::reassembled(held, payload, usize::MAX as int, "cliprdr.incoming_buffer") {
        (h, Err(e)) => (h, Err(e)),
        (h, Ok(None)) => (h, Ok(None)),
        (h, Ok(Some(message))) => match pdu::parse_client_message(message) {
            Err(e) => (h, Err(e)),
            Ok(m) => (h, Ok(Some(m))),
        },
    }
}

/// Taking in the chunks of a message one after the other gives the message with
/// the last of them, leaves nothing behind, and gives nothing before.
pub proof fn law_received(data: Seq<u8>, i: int, held: Seq<u8>)
    requires
        0 <= i < svc::chunk_count(data.len() as int),
        data.len() <= usize::MAX,
        i > 0 ==> held == data.subrange(0, 1600 * i),
    ensures
        received(held, svc::chunk(data, i)) == (if i < svc::chunk_count(data.len() as int) - 1 {
            (
                data.subrange(0, 1600 * (i + 1)),
                Ok::<Option<pdu::ClientMessageView>, DecodeError>(None),
            )
        } else {
            (
                Seq::<u8>::empty(),
                match pdu::parse_client_message(data) {
                    Err(e) => Err(e),
                    Ok(m) => Ok(Some(m)),
                },
            )
        }),
{
    svc::law_reassemble(data, i, held, usize::MAX as int, "cliprdr.incoming_buffer");
}

/// The frames that go out for something a backend wants sent.
pub open spec fn frames_for(
    message: ClipboardMessage,
    user_channel_id: u16,
    channel_id: u16,
) -> Seq<Seq<u8>> {
    match message {
        ClipboardMessage::SendInitiateCopy(formats) => if exists|i: int|
            0 <= i < formats@.len() && (#[trigger] formats@[i]).id == pdu::CF_UNICODETEXT {
            svc::frames(user_channel_id, channel_id, pdu::format_list_wire())
        } else {
            seq![]
        },
        ClipboardMessage::SendInitiatePaste(format_id) => svc::frames(
            user_channel_id,
            channel_id,
            pdu::data_request_wire(format_id),
        ),
        ClipboardMessage::SendFormatData(response) => svc::frames(
            user_channel_id,
            channel_id,
            pdu::data_response_wire(response@),
        ),
    }
}

/// The clipboard channel of one connection. Whatever it sends comes back as
/// whole packets.
pub struct CliprdrChannel {
    channel_id: u16,
    user_channel_id: u16,
    backend: Held<Box<dyn CliprdrBackend>>,
    /// The chunks so far of a message that is not complete.
    incoming_buffer: Vec<u8>,
}

impl CliprdrChannel {
    pub closed spec fn id(&self) -> u16 {
        self.channel_id
    }

    pub closed spec fn user(&self) -> u16 {
        self.user_channel_id
    }

    /// The bytes held of a message that is not complete.
    pub closed spec fn held(&self) -> Seq<u8> {
        self.incoming_buffer@
    }

    /// The clipboard that the channel has, as it is.
    pub closed spec fn served(&self) -> &Box<dyn CliprdrBackend> {
        &self.backend.value
    }

    /// The channel, and the packets that open it: the server speaks first. The
    /// clipboard is told that the channel is there.
    pub fn new(
        channel_id: u16,
        user_channel_id: u16,
        backend: Box<dyn CliprdrBackend>,
    ) -> (r: (Self, Vec<Vec<u8>>))
        ensures
            r.0.id() == channel_id,
            r.0.user() == user_channel_id,
            r.0.held() == Seq::<u8>::empty(),
            model::views(r.1@) == svc::frames(
                user_channel_id,
                channel_id,
                pdu::capabilities_wire(),
            ) + svc::frames(user_channel_id, channel_id, pdu::monitor_ready_wire()),
            exists|b: &mut dyn CliprdrBackend| #[trigger]
                readied(b) && &*b == &*backend && &*final(b) == &**r.0.served(),
    {
        let held = Held { value: backend };
        let mut channel = Self {
            channel_id,
            user_channel_id,
            backend: held,
            incoming_buffer: Vec::new(),
        };
        make_ready(&mut *channel.backend.value);
        let mut initial: Vec<Vec<u8>> = svc::wrap_indication(
            user_channel_id,
            channel_id,
            pdu::encode_capabilities(),
        );
        let ghost first = model::views(initial@);
        let mut ready: Vec<Vec<u8>> = svc::wrap_indication(
            user_channel_id,
            channel_id,
            pdu::encode_monitor_ready(),
        );
        let ghost second = model::views(ready@);
        initial.append(&mut ready);
        assert(model::views(initial@) =~= first + second);
        (channel, initial)
    }

    pub fn channel_id(&self) -> (id: u16)
        ensures
            id == self.id(),
    {
        self.channel_id
    }

    /// Takes one chunk, and gives the packets that answer it and the call that
    /// it makes on the backend.
    pub fn receive(&mut self, payload: &[u8]) -> (r: Result<
        (Vec<Vec<u8>>, Option<BackendCall>),
        DecodeError,
    >)
        ensures
            final(self).id() == old(self).id(),
            final(self).user() == old(self).user(),
            final(self).held() == received(old(self).held(), payload@).0,
            final(self).served() == old(self).served(),
            match received(old(self).held(), payload@).1 {
                Err(e) => r == Err::<(Vec<Vec<u8>>, Option<BackendCall>), DecodeError>(e),
                Ok(None) => r is Ok && r->Ok_0.0@.len() == 0 && r->Ok_0.1 is None,
                Ok(Some(m)) => {
                    &&& r is Ok
                    &&& model::views(r->Ok_0.0@) == answer_to(m, old(self).user(), old(self).id())
                    &&& model::opt_view(r->Ok_0.1) == call_for(m)
                },
            },
    {
        let message: Vec<u8> = match svc::reassemble(
            &mut self.incoming_buffer,
            payload,
            usize::MAX,
            "cliprdr.incoming_buffer",
        )? {
            Some(message) => message,
            None => {
                return Ok((Vec::new(), None));
            },
        };
        let none: Vec<Vec<u8>> = Vec::new();
        assert(model::views(none@) =~= seq![]);
        match pdu::decode_client_message(message.as_slice())? {
            pdu::ClientMessage::FormatList(ids) => {
                let n: usize = ids.len();
                let mut formats: Vec<ClipboardFormat> = Vec::new();
                let mut i: usize = 0;
                while i < n
                    invariant
                        i <= n,
                        n == ids@.len(),
                        formats@.len() == i,
                        forall|j: int| 0 <= j < i ==> (#[trigger] formats@[j]).id == ids@[j],
                    decreases n - i,
                {
                    formats.push(ClipboardFormat { id: ids[i] });
                    i = i + 1;
                }
                assert(formats@ =~= formats_of(ids@));
                let frames: Vec<Vec<u8>> = svc::wrap_indication(
                    self.user_channel_id,
                    self.channel_id,
                    pdu::encode_format_list_response_ok(),
                );
                Ok((frames, Some(BackendCall::RemoteCopy(formats))))
            },
            pdu::ClientMessage::FormatListResponse => Ok((none, None)),
            pdu::ClientMessage::FormatDataRequest(format) => Ok(
                (none, Some(BackendCall::DataRequest(FormatDataRequest { format }))),
            ),
            pdu::ClientMessage::FormatDataResponse(result) => {
                let response: FormatDataResponse = match result {
                    Ok(text) => FormatDataResponse::new_unicode_string(text.as_str()),
                    Err(_) => FormatDataResponse::new_error(),
                };
                Ok((none, Some(BackendCall::DataResponse(response))))
            },
            pdu::ClientMessage::Other => Ok((none, None)),
        }
    }

    /// Takes one chunk of the channel, its header included. The backend is told
    /// of what it brings, and of nothing else; the packets that come back answer it.
    pub fn on_channel_data(&mut self, payload: &[u8]) -> (r: Result<Vec<Vec<u8>>, DecodeError>)
        ensures
            final(self).id() == old(self).id(),
            final(self).user() == old(self).user(),
            final(self).held() == received(old(self).held(), payload@).0,
            match received(old(self).held(), payload@).1 {
                Err(e) => {
                    &&& r == Err::<Vec<Vec<u8>>, DecodeError>(e)
                    &&& final(self).served() == old(self).served()
                },
                Ok(None) => {
                    &&& r is Ok
                    &&& r->Ok_0@.len() == 0
                    &&& final(self).served() == old(self).served()
                },
                Ok(Some(m)) => {
                    &&& r is Ok
                    &&& model::views(r->Ok_0@) == answer_to(m, old(self).user(), old(self).id())
                    &&& match call_for(m) {
                        Some(told) => exists|b: &mut dyn CliprdrBackend, call: BackendCall|
                            #[trigger] called(b, call) && call@ == told && &*b
                                == &**old(self).served() && &*final(b) == &**final(self).served(),
                        None => final(self).served() == old(self).served(),
                    }
                },
            },
    {
        let (frames, call) = self.receive(payload)?;
        if let Some(call) = call {
            hand_on(&mut *self.backend.value, call);
        }
        Ok(frames)
    }

    /// The packets for something that the backend wants sent. Formats are
    /// offered only where Unicode text is one of them.
    pub fn encode_message(&mut self, message: ClipboardMessage) -> (frames: Vec<Vec<u8>>)
        ensures
            final(self).id() == old(self).id(),
            final(self).user() == old(self).user(),
            final(self).held() == old(self).held(),
            final(self).served() == old(self).served(),
            model::views(frames@) == frames_for(message, old(self).user(), old(self).id()),
    {
        let body: Vec<u8> = match &message {
            ClipboardMessage::SendInitiateCopy(formats) => {
                if !offers_text(formats.as_slice()) {
                    let none: Vec<Vec<u8>> = Vec::new();
                    assert(model::views(none@) =~= seq![]);
                    return none;
                }
                pdu::encode_format_list_unicode_text()
            },
            ClipboardMessage::SendInitiatePaste(format_id) => pdu::encode_format_data_request(
                *format_id,
            ),
            ClipboardMessage::SendFormatData(response) => match response.to_unicode_string() {
                Some(text) => pdu::encode_format_data_response_text(text.as_str()),
                None => {
                    assert(response@ is Err);
                    assert(response@->Err_0 == ());
                    pdu::encode_format_data_response_error()
                },
            },
        };
        svc::wrap_indication(self.user_channel_id, self.channel_id, body)
    }
}

fn offers_text(formats: &[ClipboardFormat]) -> (r: bool)
    ensures
        r == exists|i: int|
            0 <= i < formats@.len() && (#[trigger] formats@[i]).id == pdu::CF_UNICODETEXT,
{
    let n: usize = formats.len();
    let mut i: usize = 0;
    while i < n
        invariant
            i <= n,
            n == formats@.len(),
            forall|j: int| 0 <= j < i ==> (#[trigger] formats@[j]).id != pdu::CF_UNICODETEXT,
        decreases n - i,
    {
        if formats[i].id == pdu::CF_UNICODETEXT {
            assert(formats@[i as int].id == pdu::CF_UNICODETEXT);
            return true;
        }
        i = i + 1;
    }
    false
}

/// The text of a clipboard is the format 13, and formats are offered to a client only
/// where that is one of them. What a backend asks for is asked for by its number, and
/// what it answers goes out as it is.
pub proof fn law_sent(
    a: &mut CliprdrChannel,
    message: ClipboardMessage,
    frames: Vec<Vec<u8>>,
    text: ClipboardFormat,
)
    requires
        call_ensures(CliprdrChannel::encode_message, (a, message), frames),
        call_ensures(ClipboardFormat::unicode_text, (), text),
    ensures
        text.id == 13,
        message matches ClipboardMessage::SendInitiateCopy(formats) ==> {
            &&& (forall|i: int| 0 <= i < formats@.len() ==> (#[trigger] formats@[i]).id != 13)
                ==> frames@.len() == 0
            &&& (exists|i: int| 0 <= i < formats@.len() && (#[trigger] formats@[i]).id == 13)
                ==> model::views(frames@) == svc::frames(
                old(a).user(),
                old(a).id(),
                pdu::format_list_wire(),
            )
        },
        message matches ClipboardMessage::SendInitiatePaste(id) ==> model::views(frames@)
            == svc::frames(old(a).user(), old(a).id(), pdu::data_request_wire(id)),
        message matches ClipboardMessage::SendFormatData(response) ==> model::views(frames@)
            == svc::frames(old(a).user(), old(a).id(), pdu::data_response_wire(response@)),
{
    assert(model::views(frames@).len() == frames@.len());
}

/// The formats that a client lists are acknowledged at once and told to the backend, one
/// by one and in their order; a request and an answer are told to it and not answered
/// here; and nothing else does anything.
pub proof fn law_told(
    a: &mut CliprdrChannel,
    payload: &[u8],
    r: Result<(Vec<Vec<u8>>, Option<BackendCall>), DecodeError>,
)
    requires
        call_ensures(CliprdrChannel::receive, (a, payload), r),
    ensures
        received(old(a).held(), payload@).1 matches Ok(Some(m)) ==> {
            let out = model::views(r->Ok_0.0@);
            let call = model::opt_view(r->Ok_0.1);
            &&& r is Ok
            &&& m matches pdu::ClientMessageView::FormatList(ids) ==> {
                &&& out == svc::frames(
                    old(a).user(),
                    old(a).id(),
                    pdu::format_list_response_wire(),
                )
                &&& call is Some
                &&& call->Some_0 is RemoteCopy
                &&& call->Some_0->RemoteCopy_0.len() == ids.len()
                &&& forall|i: int|
                    0 <= i < ids.len() ==> (#[trigger] call->Some_0->RemoteCopy_0[i]).id == ids[i]
            }
            &&& m matches pdu::ClientMessageView::FormatDataRequest(format) ==> {
                &&& out.len() == 0
                &&& call is Some
                &&& call->Some_0 is DataRequest
                &&& call->Some_0->DataRequest_0.format == format
            }
            &&& m matches pdu::ClientMessageView::FormatDataResponse(text) ==> {
                &&& out.len() == 0
                &&& call is Some
                &&& call->Some_0 is DataResponse
                &&& call->Some_0->DataResponse_0 == text
            }
            &&& !(m is FormatList) && !(m is FormatDataRequest) && !(m is FormatDataResponse)
                ==> out.len() == 0 && call is None
        },
        received(old(a).held(), payload@).1 matches Ok(None) ==> r is Ok && r->Ok_0.0@.len() == 0
            && r->Ok_0.1 is None,
        received(old(a).held(), payload@).1 matches Err(e) ==> r is Err && r->Err_0 == e,
{
}

} // verus!
