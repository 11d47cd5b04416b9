//! The connection sequence as a server sees it, from the first request to the
//! point where input and updates flow. There are no sockets here and no TLS:
//! [`Acceptor::step`] takes one framed message after the other, and says what to
//! send and what has happened, until it reports [`AcceptorEvent::Accepted`].

pub mod error;

pub use crate::connector::error::ConnectorError;
pub use crate::x224::SecurityProtocol;

use vstd::prelude::*;
use vstd::string::*;

use crate::bytes;
use crate::capability_sets;
use crate::capability_sets::{
    BitmapCapability, BitmapCodecsCapability, ConfirmActive, ConfirmActiveView, DeactivateAllPdu,
    DemandActive, GeneralCapability, InputCapability, MultiFragmentUpdateCapability,
    OrderCapability, PointerCapability, ServerCapabilities, ShareControlHeader,
    ShareControlPduType, VirtualChannelCapability,
};
use crate::client_info;
use crate::client_info::{ClientInfoPdu, ClientInfoView};
use crate::cursor;
use crate::cursor::ReadCursor;
use crate::finalization;
use crate::finalization::{
    ControlPdu, DataPdu, DataPduView, FontPdu, ShareDataPduType, SynchronizePdu, STREAM_UNDEFINED,
};
use crate::gcc;
use crate::gcc::{
    ClientGccBlocks, ClientGccBlocksView, ConferenceCreateRequest, ConferenceCreateResponse,
    ConferenceCreateResponseView, ServerCoreData, ServerGccBlocks, ServerGccBlocksView,
    ServerMessageChannelData, ServerNetworkData, ServerNetworkView, ServerSecurityData,
};
use crate::licensing;
use crate::mcs;
use crate::mcs::{
    AttachUserConfirm, AttachUserRequest, ChannelJoinConfirm, ChannelJoinRequest, ConnectInitial,
    ConnectResponse, ConnectResponseView, DisconnectProviderUltimatum, DomainMcsPdu,
    DomainParameters, ErectDomainRequest, SendData, SendDataView,
};
use crate::model;
use crate::render;
use crate::tpdu::TpduCode;
use crate::x224;
use crate::x224::{ConnectionConfirm, ConnectionRequest, FailureCode, ResponseFlags};
use crate::DecodeError;

verus! {

broadcast use model::lemma_views_push;

/// The user that the server is. There is one connection for each acceptor, so
/// the number is always the same.
pub const USER_CHANNEL_ID: u16 = 1002;

/// The channel for updates and input.
pub const IO_CHANNEL_ID: u16 = 1003;

pub const SHARE_ID: u32 = 0x0001_0000;

/// How long a Confirm Active message may be that comes in parts.
pub const MAX_CONFIRM_ACTIVE_LEN: usize = 1024 * 1024;

/// The longest update that a client may put together from parts.
pub const MAX_UPDATE_LEN: u32 = 8 * 1024 * 1024;

/// What a client logs on with. There is no way to print the password.
#[derive(Clone, PartialEq, Eq)]
pub struct ClientCredentials {
    pub domain: String,
    pub username: String,
    pub password: String,
}

#[verifier::ext_equal]
pub struct ClientCredentialsView {
    pub domain: Seq<char>,
    pub username: Seq<char>,
    pub password: Seq<char>,
}

impl View for ClientCredentials {
    type V = ClientCredentialsView;

    open spec fn view(&self) -> ClientCredentialsView {
        ClientCredentialsView {
            domain: self.domain@,
            username: self.username@,
            password: self.password@,
        }
    }
}

impl ClientCredentials {
    /// What to print: domain and name, and that there is a password.
    pub fn debug_text(&self) -> (s: String)
        ensures
            s@ == "ClientCredentials { domain: "@ + render::quoted(self.domain@) + ", username: "@
                + render::quoted(self.username@) + ", password: \"[REDACTED]\" }"@,
    {
        let mut s: String = "ClientCredentials { domain: ".to_owned();
        s.append(render::quote(self.domain.as_str()).as_str());
        s.append(", username: ");
        s.append(render::quote(self.username.as_str()).as_str());
        s.append(", password: \"[REDACTED]\" }");
        s
    }
}

/// What there is to know once a connection stands.
#[derive(Debug, Clone, PartialEq, Eq)]
pub struct AcceptedConnection {
    pub io_channel_id: u16,
    pub user_channel_id: u16,
    /// The static channels by name, in the order in which the client listed
    /// them, with their numbers.
    pub static_channels: Vec<(String, u16)>,
    pub share_id: u32,
    pub desktop_width: u16,
    pub desktop_height: u16,
    pub client_name: String,
    /// How long an update the client can put together from parts, where it said
    /// so.
    pub max_request_size: Option<u32>,
}

#[verifier::ext_equal]
pub struct AcceptedView {
    pub io_channel_id: u16,
    pub user_channel_id: u16,
    pub static_channels: Seq<(Seq<char>, u16)>,
    pub share_id: u32,
    pub desktop_width: u16,
    pub desktop_height: u16,
    pub client_name: Seq<char>,
    pub max_request_size: Option<u32>,
}

/// Channels with their names as text.
pub open spec fn channels_view(s: Seq<(String, u16)>) -> Seq<(Seq<char>, u16)> {
    Seq::new(s.len(), |i: int| (s[i].0@, s[i].1))
}

impl View for AcceptedConnection {
    type V = AcceptedView;

    open spec fn view(&self) -> AcceptedView {
        AcceptedView {
            io_channel_id: self.io_channel_id,
            user_channel_id: self.user_channel_id,
            static_channels: channels_view(self.static_channels@),
            share_id: self.share_id,
            desktop_width: self.desktop_width,
            desktop_height: self.desktop_height,
            client_name: self.client_name@,
            max_request_size: self.max_request_size,
        }
    }
}

/// What a step has brought about, besides what there is to send.
#[derive(Clone, PartialEq, Eq)]
pub enum AcceptorEvent {
    Nothing,
    /// The client offers no protocol that will do: it is told so, and the
    /// connection is to be closed.
    Rejected,
    /// After the response comes the TLS handshake, and all else within it.
    TlsUpgrade,
    /// The client wants to log on. It is to be let in or not, by
    /// [`Acceptor::approve_client_info`] or [`Acceptor::reject_client_info`].
    ClientInfoReceived(ClientCredentials),
    /// The connection stands.
    Accepted(AcceptedConnection),
}

#[verifier::ext_equal]
pub enum EventView {
    Nothing,
    Rejected,
    TlsUpgrade,
    ClientInfoReceived(ClientCredentialsView),
    Accepted(AcceptedView),
}

impl View for AcceptorEvent {
    type V = EventView;

    open spec fn view(&self) -> EventView {
        match self {
            AcceptorEvent::Nothing => EventView::Nothing,
            AcceptorEvent::Rejected => EventView::Rejected,
            AcceptorEvent::TlsUpgrade => EventView::TlsUpgrade,
            AcceptorEvent::ClientInfoReceived(c) => EventView::ClientInfoReceived(c@),
            AcceptorEvent::Accepted(a) => EventView::Accepted(a@),
        }
    }
}

/// The outcome of a step.
pub struct StepResult {
    /// The bytes to send. There may be none.
    pub response: Vec<u8>,
    pub event: AcceptorEvent,
}

#[verifier::ext_equal]
pub struct StepView {
    pub response: Seq<u8>,
    pub event: EventView,
}

impl View for StepResult {
    type V = StepView;

    open spec fn view(&self) -> StepView {
        StepView { response: self.response@, event: self.event@ }
    }
}

impl StepResult {
    fn just(response: Vec<u8>) -> (r: Self)
        ensures
            r@ == (StepView { response: response@, event: EventView::Nothing }),
    {
        Self { response, event: AcceptorEvent::Nothing }
    }

    fn with_event(response: Vec<u8>, event: AcceptorEvent) -> (r: Self)
        ensures
            r@ == (StepView { response: response@, event: event@ }),
    {
        Self { response, event }
    }
}

/// Where the sequence stands: what it waits for.
#[derive(Debug, Clone, Copy, PartialEq, Eq, Structural)]
pub enum State {
    WaitConnectionRequest,
    WaitConnectInitial,
    WaitErectDomainRequest,
    WaitAttachUserRequest,
    WaitChannelJoinRequest { remaining: u32 },
    WaitClientInfo,
    WaitAuthApproval,
    WaitConfirmActive,
    WaitFinalization { granted_control_sent: bool },
    Accepted,
    Rejected,
}

/// What an acceptor knows.
#[verifier::ext_equal]
pub struct AcceptorView {
    pub state: State,
    pub desktop_width: u16,
    pub desktop_height: u16,
    pub static_channel_names: Seq<Seq<char>>,
    pub message_channel_id: Option<u16>,
    pub client_name: Seq<char>,
    pub client_requested_protocols: u32,
    pub selected_protocol: SecurityProtocol,
    pub require_nla: bool,
    /// The parts so far of a Confirm Active message.
    pub confirm_active: Seq<u8>,
    pub max_request_size: Option<u32>,
}

impl AcceptorView {
    /// Only so many channels, and only so much of a message in parts.
    pub open spec fn wf(self) -> bool {
        &&& self.static_channel_names.len() <= gcc::CHANNELS_MAX
        &&& self.confirm_active.len() <= MAX_CONFIRM_ACTIVE_LEN
    }

    pub open spec fn at(self, state: State) -> AcceptorView {
        AcceptorView { state, ..self }
    }
}

/// What a step does: what is then known, and what comes of it.
pub type Outcome = (AcceptorView, Result<StepView, DecodeError>);

/// A step that changes nothing, and has nothing to send.
pub open spec fn ignored(s: AcceptorView) -> Outcome {
    (s, Ok(StepView { response: seq![], event: EventView::Nothing }))
}

/// A message to the client on the channel for updates and input.
pub open spec fn io_message(body: Seq<u8>) -> Seq<u8> {
    x224::data_message(
        mcs::send_data_wire(DomainMcsPdu::SendDataIndication, USER_CHANNEL_ID, IO_CHANNEL_ID, body),
    )
}

/// The number of the static channel that the client listed as the `i`th.
pub open spec fn channel_number(i: int) -> u16 {
    (IO_CHANNEL_ID + 1 + i) as u16
}

/// The protocol to go on with: network level authentication where it is
/// offered, TLS alone where that is allowed.
pub open spec fn chosen_protocol(offered: SecurityProtocol, require_nla: bool) -> Option<
    SecurityProtocol,
> {
    if offered.contains(SecurityProtocol::hybrid()) {
        Some(SecurityProtocol::hybrid())
    } else if !require_nla && offered.contains(SecurityProtocol::ssl()) {
        Some(SecurityProtocol::ssl())
    } else {
        None
    }
}

/// What a client is told that offers no protocol that will do.
pub open spec fn refusal(require_nla: bool) -> ConnectionConfirm {
    ConnectionConfirm::Failure {
        code: if require_nla {
            FailureCode::hybrid_required_by_server()
        } else {
            FailureCode::ssl_required_by_server()
        },
    }
}

pub open spec fn confirm_message(confirm: ConnectionConfirm) -> Seq<u8> {
    x224::header_message(TpduCode::connection_confirm(), confirm.body())
}

/// The first request: a protocol is chosen, or the client turned away.
pub open spec fn connection_request_step(s: AcceptorView, input: Seq<u8>) -> Outcome {
    match x224::parse_request(input) {
        Err(e) => (s, Err(e)),
        Ok(request) => match chosen_protocol(request.protocol, s.require_nla) {
            None => (
                s.at(State::Rejected),
                Ok(
                    StepView {
                        response: confirm_message(refusal(s.require_nla)),
                        event: EventView::Rejected,
                    },
                ),
            ),
            Some(protocol) => (
                AcceptorView {
                    state: State::WaitConnectInitial,
                    client_requested_protocols: request.protocol.0,
                    selected_protocol: protocol,
                    ..s
                },
                Ok(
                    StepView {
                        response: confirm_message(
                            ConnectionConfirm::Response { flags: ResponseFlags(0), protocol },
                        ),
                        event: EventView::TlsUpgrade,
                    },
                ),
            ),
        },
    }
}

/// The names of the static channels that a client lists.
pub open spec fn listed_names(blocks: ClientGccBlocksView) -> Seq<Seq<char>> {
    match blocks.network {
        Some(channels) => Seq::new(channels.len(), |i: int| channels[i].name),
        None => seq![],
    }
}

/// The blocks that a client sends in its Connect-Initial.
pub open spec fn parse_initial_blocks(input: Seq<u8>) -> Result<ClientGccBlocksView, DecodeError> {
    match x224::parse_data(input) {
        Err(e) => Err(e),
        Ok(payload) => match mcs::parse_connect_initial(payload) {
            Err(e) => Err(e),
            Ok(initial) => match gcc::parse_conference_request(initial.user_data) {
                Err(e) => Err(e),
                Ok(blocks) => gcc::parse_client_blocks(blocks),
            },
        },
    }
}

/// The blocks that the server answers with: the protocols that the client asked
/// for, and a number for each channel.
pub open spec fn server_blocks(s: AcceptorView) -> ServerGccBlocksView {
    ServerGccBlocksView {
        core: ServerCoreData {
            version: 0x0008_0004,
            client_requested_protocols: Some(s.client_requested_protocols),
            early_capability_flags: None,
        },
        network: ServerNetworkView {
            io_channel_id: IO_CHANNEL_ID,
            channel_ids: Seq::new(s.static_channel_names.len(), |i: int| channel_number(i)),
        },
        security: ServerSecurityData,
        message_channel: match s.message_channel_id {
            Some(mcs_channel_id) => Some(ServerMessageChannelData { mcs_channel_id }),
            None => None,
        },
    }
}

pub open spec fn connect_response_message(s: AcceptorView) -> Seq<u8> {
    x224::data_message(
        ConnectResponseView {
            called_connect_id: 0,
            domain_parameters: DomainParameters::target(),
            user_data: ConferenceCreateResponseView {
                node_id: USER_CHANNEL_ID,
                server_gcc_blocks: server_blocks(s).wire(),
            }.wire(),
        }.wire(),
    )
}

/// The Connect-Initial: the channels get their numbers.
pub open spec fn connect_initial_step(s: AcceptorView, input: Seq<u8>) -> Outcome {
    match parse_initial_blocks(input) {
        Err(e) => (s, Err(e)),
        Ok(blocks) => {
            let names = listed_names(blocks);
            let after = AcceptorView {
                state: State::WaitErectDomainRequest,
                client_name: blocks.core.client_name,
                static_channel_names: names,
                message_channel_id: match blocks.message_channel {
                    Some(_) => Some(channel_number(names.len() as int)),
                    None => None,
                },
                ..s
            };
            (
                after,
                Ok(StepView { response: connect_response_message(after), event: EventView::Nothing }),
            )
        },
    }
}

/// How many channels a client has to join: its own, the one for updates and
/// input, the static ones, and the one for messages where there is one.
pub open spec fn joins_due(s: AcceptorView) -> u32 {
    (2 + s.static_channel_names.len() + (if s.message_channel_id is Some {
        1int
    } else {
        0
    })) as u32
}

/// One message of the setup of the domain, at offset `p`: what is then known,
/// what to send, and where the next one starts.
pub open spec fn domain_step(s: AcceptorView, b: Seq<u8>, p: int) -> Result<
    ((AcceptorView, Seq<u8>), int),
    DecodeError,
> {
    match s.state {
        State::WaitErectDomainRequest => match mcs::parse_erect_domain(b, p) {
            Err(e) => Err(e),
            Ok((_, q)) => Ok(((s.at(State::WaitAttachUserRequest), seq![]), q)),
        },
        State::WaitAttachUserRequest => match mcs::parse_attach_user(b, p) {
            Err(e) => Err(e),
            Ok((_, q)) => Ok(
                (
                    (
                        s.at(State::WaitChannelJoinRequest { remaining: joins_due(s) }),
                        x224::data_message(
                            AttachUserConfirm { result: 0, initiator: USER_CHANNEL_ID }.wire(),
                        ),
                    ),
                    q,
                ),
            ),
        },
        State::WaitChannelJoinRequest { remaining } => match mcs::parse_channel_join(b, p) {
            Err(e) => Err(e),
            Ok((request, q)) => Ok(
                (
                    (
                        s.at(
                            if remaining <= 1 {
                                State::WaitClientInfo
                            } else {
                                State::WaitChannelJoinRequest { remaining: (remaining - 1) as u32 }
                            },
                        ),
                        x224::data_message(
                            ChannelJoinConfirm {
                                result: 0,
                                initiator: request.initiator,
                                requested_channel_id: request.channel_id,
                                channel_id: request.channel_id,
                            }.wire(),
                        ),
                    ),
                    q,
                ),
            ),
        },
        _ => Ok(((s, seq![]), b.len() as int)),
    }
}

/// Every message of the setup takes some of the bytes.
pub proof fn lemma_domain_step_moves(s: AcceptorView, b: Seq<u8>, p: int)
    requires
        0 <= p < b.len(),
    ensures
        domain_step(s, b, p) matches Ok((_, q)) ==> p < q <= b.len(),
{
}

/// Whether the message at offset `p` says that the client leaves.
pub open spec fn leaves(b: Seq<u8>, p: int) -> bool {
    b[p] / 4 == DomainMcsPdu::DisconnectProviderUltimatum.code()
}

/// The messages of the setup of the domain from offset `p` on, after what is to
/// be sent already. Several of them may come together. Where one of them cannot
/// be read the sequence is over.
pub open spec fn domain_steps(s: AcceptorView, b: Seq<u8>, p: int, response: Seq<u8>) -> Outcome
    decreases b.len() - p,
{
    if !(0 <= p < b.len()) {
        (s, Ok(StepView { response, event: EventView::Nothing }))
    } else if leaves(b, p) {
        (
            s.at(State::Rejected),
            Err(
                cursor::invalid("mcs.domain_pdu", "client disconnected during MCS domain setup"),
            ),
        )
    } else {
        proof {
            lemma_domain_step_moves(s, b, p);
        }
        match domain_step(s, b, p) {
            Err(e) => (s.at(State::Rejected), Err(e)),
            Ok(((after, reply), q)) => if after.state == State::WaitClientInfo {
                (after, Ok(StepView { response: response + reply, event: EventView::Nothing }))
            } else {
                domain_steps(after, b, q, response + reply)
            },
        }
    }
}

/// What a client says of itself.
#[verifier::opaque]
pub open spec fn parse_client_info(input: Seq<u8>) -> Result<ClientInfoView, DecodeError> {
    match x224::parse_data(input) {
        Err(e) => Err(e),
        Ok(payload) => match mcs::parse_send_data(payload, 0, DomainMcsPdu::SendDataRequest) {
            Err(e) => Err(e),
            Ok((data, _)) => client_info::parse_pdu(data.data),
        },
    }
}

/// The client wants to log on: it needs no license.
pub open spec fn client_info_step(s: AcceptorView, input: Seq<u8>) -> Outcome {
    match parse_client_info(input) {
        Err(e) => (s, Err(e)),
        Ok(info) => (
            s.at(State::WaitAuthApproval),
            Ok(
                StepView {
                    response: io_message(licensing::valid_client_wire()),
                    event: EventView::ClientInfoReceived(
                        ClientCredentialsView {
                            domain: info.domain,
                            username: info.username,
                            password: info.password,
                        },
                    ),
                },
            ),
        ),
    }
}

/// What the server can do, for a desktop of a size. The size may change later.
pub open spec fn server_capabilities(width: u16, height: u16) -> ServerCapabilities {
    ServerCapabilities {
        general: GeneralCapability {
            extra_flags: GeneralCapability::FASTPATH_OUTPUT_SUPPORTED,
            refresh_rect_support: true,
            suppress_output_support: true,
        },
        bitmap: BitmapCapability {
            preferred_bits_per_pixel: 32,
            desktop_width: width,
            desktop_height: height,
            desktop_resize_flag: true,
        },
        order: OrderCapability,
        pointer: PointerCapability { color_pointer_cache_size: 2048, pointer_cache_size: 2048 },
        input: InputCapability {
            input_flags: InputCapability::SCANCODES | InputCapability::FASTPATH_INPUT
                | InputCapability::FASTPATH_INPUT_2 | InputCapability::UNICODE,
            keyboard_layout: 0,
            keyboard_type: 0,
            keyboard_subtype: 0,
            keyboard_function_key: 0,
        },
        virtual_channel: VirtualChannelCapability { flags: 0 },
        multifragment_update: MultiFragmentUpdateCapability { max_request_size: MAX_UPDATE_LEN },
        bitmap_codecs: BitmapCodecsCapability,
    }
}

/// The message that says what the server can do.
pub open spec fn demand_active_wire(width: u16, height: u16) -> Seq<u8> {
    DemandActive {
        share_id: SHARE_ID,
        pdu_source: IO_CHANNEL_ID,
        capabilities: &server_capabilities(width, height),
    }.wire()
}

/// What a client confirms. Four bytes may come before it.
pub open spec fn parse_confirm(b: Seq<u8>) -> Result<ConfirmActiveView, DecodeError> {
    match capability_sets::parse_confirm_active(b) {
        Ok(c) => Ok(c),
        Err(first) => if b.len() >= 14 && capability_sets::parse_confirm_active(b.skip(4)) is Ok {
            capability_sets::parse_confirm_active(b.skip(4))
        } else {
            Err(first)
        },
    }
}

/// A message of the finalization.
pub open spec fn data_wire(pdu_type2: ShareDataPduType, body: Seq<u8>) -> Seq<u8> {
    DataPduView {
        share_id: SHARE_ID,
        pdu_source: IO_CHANNEL_ID,
        stream_id: STREAM_UNDEFINED,
        pdu_type2,
        body,
    }.wire()
}

pub open spec fn synchronize_wire() -> Seq<u8> {
    data_wire(
        ShareDataPduType::Synchronize,
        SynchronizePdu { target_user: USER_CHANNEL_ID }.wire(),
    )
}

pub open spec fn cooperate_wire() -> Seq<u8> {
    data_wire(
        ShareDataPduType::Control,
        ControlPdu { action: ControlPdu::COOPERATE, grant_id: 0, control_id: 0 }.wire(),
    )
}

pub open spec fn granted_control_wire() -> Seq<u8> {
    data_wire(
        ShareDataPduType::Control,
        ControlPdu {
            action: ControlPdu::GRANTED_CONTROL,
            grant_id: USER_CHANNEL_ID,
            control_id: USER_CHANNEL_ID as u32,
        }.wire(),
    )
}

pub open spec fn font_map_wire() -> Seq<u8> {
    data_wire(
        ShareDataPduType::FontMap,
        FontPdu { number_fonts: 0, total_num_fonts: 0, flags: 3, entry_size: 4 }.wire(),
    )
}

pub open spec fn session_info_wire() -> Seq<u8> {
    data_wire(ShareDataPduType::SaveSessionInfo, finalization::plain_notify_wire())
}

/// Whether data is, by its header, a message of another kind than `pdu_type`.
pub open spec fn is_other(data: Seq<u8>, pdu_type: ShareControlPduType) -> bool {
    match capability_sets::parse_header(data, 0) {
        Ok(((header, _), _)) => header.pdu_type != pdu_type,
        Err(_) => false,
    }
}

/// Data while a Confirm Active message is due. Only the channel for updates and
/// input matters, and there only what is, or may be part of, such a message.
/// When it is complete the server goes first with the finalization.
pub open spec fn confirm_active_step(s: AcceptorView, sent: SendDataView) -> Outcome {
    if sent.channel_id != IO_CHANNEL_ID || is_other(sent.data, ShareControlPduType::ConfirmActive) {
        ignored(s)
    } else if s.confirm_active.len() + sent.data.len() > MAX_CONFIRM_ACTIVE_LEN {
        (
            AcceptorView { confirm_active: seq![], ..s },
            Err(
                cursor::invalid(
                    "confirm_active.reassembly",
                    "exceeded maximum allowed reassembled size",
                ),
            ),
        )
    } else if !sent.complete {
        ignored(AcceptorView { confirm_active: s.confirm_active + sent.data, ..s })
    } else {
        match parse_confirm(s.confirm_active + sent.data) {
            Err(e) => (AcceptorView { confirm_active: seq![], ..s }, Err(e)),
            Ok(confirm) => (
                AcceptorView {
                    state: State::WaitFinalization { granted_control_sent: false },
                    confirm_active: seq![],
                    max_request_size: capability_sets::max_request_size(confirm.capabilities),
                    ..s
                },
                Ok(
                    StepView {
                        response: io_message(synchronize_wire()) + io_message(cooperate_wire()),
                        event: EventView::Nothing,
                    },
                ),
            ),
        }
    }
}

/// What there is to know of a connection that stands.
pub open spec fn accepted(s: AcceptorView) -> AcceptedView {
    AcceptedView {
        io_channel_id: IO_CHANNEL_ID,
        user_channel_id: USER_CHANNEL_ID,
        static_channels: Seq::new(
            s.static_channel_names.len(),
            |i: int| (s.static_channel_names[i], channel_number(i)),
        ),
        share_id: SHARE_ID,
        desktop_width: s.desktop_width,
        desktop_height: s.desktop_height,
        client_name: s.client_name,
        max_request_size: s.max_request_size,
    }
}

/// Data during the finalization. A request for control is granted once, a font
/// list ends the sequence, and all else is let pass.
pub open spec fn finalization_step(
    s: AcceptorView,
    sent: SendDataView,
    granted_control_sent: bool,
) -> Outcome {
    if sent.channel_id != IO_CHANNEL_ID || is_other(sent.data, ShareControlPduType::Data) {
        ignored(s)
    } else {
        match finalization::parse_data_pdu(sent.data) {
            Err(_) => ignored(s),
            Ok(data) => if data.pdu_type2 == ShareDataPduType::Control {
                match ControlPdu::parse(data.body) {
                    Ok(control) => if control.action == ControlPdu::REQUEST_CONTROL
                        && !granted_control_sent {
                        (
                            s.at(State::WaitFinalization { granted_control_sent: true }),
                            Ok(
                                StepView {
                                    response: io_message(granted_control_wire()),
                                    event: EventView::Nothing,
                                },
                            ),
                        )
                    } else {
                        ignored(s)
                    },
                    Err(_) => ignored(s),
                }
            } else if data.pdu_type2 == ShareDataPduType::FontList {
                (
                    s.at(State::Accepted),
                    Ok(
                        StepView {
                            response: io_message(font_map_wire()) + io_message(session_info_wire()),
                            event: EventView::Accepted(accepted(s)),
                        },
                    ),
                )
            } else {
                ignored(s)
            },
        }
    }
}

/// Data in the last part of the sequence.
pub open spec fn share_step(s: AcceptorView, sent: SendDataView) -> Outcome {
    match s.state {
        State::WaitFinalization { granted_control_sent } => finalization_step(
            s,
            sent,
            granted_control_sent,
        ),
        _ => confirm_active_step(s, sent),
    }
}

/// Every data message takes some of the bytes.
pub proof fn lemma_send_data_moves(b: Seq<u8>, p: int)
    requires
        0 <= p < b.len(),
    ensures
        mcs::parse_send_data(b, p, DomainMcsPdu::SendDataRequest) matches Ok((_, q)) ==> p < q
            <= b.len(),
{
}

/// The data messages from offset `p` on, after what is to be sent already.
/// Several of them may come together. What follows the end of the sequence is
/// not looked at.
pub open spec fn share_steps(s: AcceptorView, b: Seq<u8>, p: int, response: Seq<u8>) -> Outcome
    decreases b.len() - p,
{
    if !(0 <= p < b.len()) {
        (s, Ok(StepView { response, event: EventView::Nothing }))
    } else {
        proof {
            lemma_send_data_moves(b, p);
        }
        match mcs::parse_send_data(b, p, DomainMcsPdu::SendDataRequest) {
            Err(e) => (s, Err(e)),
            Ok((sent, q)) => match share_step(s, sent) {
                (after, Err(e)) => (after, Err(e)),
                (after, Ok(step)) => if step.event is Accepted {
                    (
                        after,
                        Ok(
                            StepView { response: response + step.response, event: step.event },
                        ),
                    )
                } else {
                    share_steps(after, b, q, response + step.response)
                },
            },
        }
    }
}

/// The error of a step.
pub open spec fn decoded(o: Outcome) -> (AcceptorView, Result<StepView, ConnectorError>) {
    match o {
        (s, Ok(step)) => (s, Ok(step)),
        (s, Err(e)) => (s, Err(ConnectorError::Decode(e))),
    }
}

/// What a step does with a message.
pub open spec fn stepped(s: AcceptorView, input: Seq<u8>) -> (
    AcceptorView,
    Result<StepView, ConnectorError>,
) {
    match s.state {
        State::Accepted => (s, Err(ConnectorError::AlreadyFinished)),
        State::Rejected => (s, Err(ConnectorError::AlreadyFinished)),
        State::WaitAuthApproval => (s, Err(ConnectorError::NotReady)),
        State::WaitConnectionRequest => decoded(connection_request_step(s, input)),
        State::WaitConnectInitial => decoded(connect_initial_step(s, input)),
        State::WaitClientInfo => decoded(client_info_step(s, input)),
        State::WaitConfirmActive | State::WaitFinalization { .. } => decoded(
            match x224::parse_data(input) {
                Err(e) => (s, Err(e)),
                Ok(payload) => share_steps(s, payload, 0, seq![]),
            },
        ),
        _ => decoded(
            match x224::parse_data(input) {
                Err(e) => (s, Err(e)),
                Ok(payload) => domain_steps(s, payload, 0, seq![]),
            },
        ),
    }
}

/// Whether what was done and returned is the outcome.
pub open spec fn comes_to(o: Outcome, after: AcceptorView, r: Result<StepResult, DecodeError>) -> bool {
    &&& after == o.0
    &&& cursor::decodes_view(r, o.1)
}

/// Takes a connection from the first request to where it stands.
pub struct Acceptor {
    state: State,
    desktop_width: u16,
    desktop_height: u16,
    static_channel_names: Vec<String>,
    message_channel_id: Option<u16>,
    client_name: String,
    client_requested_protocols: u32,
    selected_protocol: SecurityProtocol,
    require_nla: bool,
    confirm_active_buf: Vec<u8>,
    max_request_size: Option<u32>,
}

impl View for Acceptor {
    type V = AcceptorView;

    closed spec fn view(&self) -> AcceptorView {
        AcceptorView {
            state: self.state,
            desktop_width: self.desktop_width,
            desktop_height: self.desktop_height,
            static_channel_names: model::views(self.static_channel_names@),
            message_channel_id: self.message_channel_id,
            client_name: self.client_name@,
            client_requested_protocols: self.client_requested_protocols,
            selected_protocol: self.selected_protocol,
            require_nla: self.require_nla,
            confirm_active: self.confirm_active_buf@,
            max_request_size: self.max_request_size,
        }
    }
}

impl Acceptor {
    pub fn new(desktop_width: u16, desktop_height: u16) -> (r: Self)
        ensures
            r@ == (AcceptorView {
                state: State::WaitConnectionRequest,
                desktop_width,
                desktop_height,
                static_channel_names: seq![],
                message_channel_id: None,
                client_name: seq![],
                client_requested_protocols: SecurityProtocol::ssl().0,
                selected_protocol: SecurityProtocol::ssl(),
                require_nla: false,
                confirm_active: seq![],
                max_request_size: None,
            }),
            r@.wf(),
    {
        let acceptor = Self {
            state: State::WaitConnectionRequest,
            desktop_width,
            desktop_height,
            static_channel_names: Vec::new(),
            message_channel_id: None,
            client_name: String::new(),
            client_requested_protocols: SecurityProtocol::ssl().0,
            selected_protocol: SecurityProtocol::ssl(),
            require_nla: false,
            confirm_active_buf: Vec::new(),
            max_request_size: None,
        };
        assert(model::views(acceptor.static_channel_names@) =~= seq![]);
        assert(acceptor.client_name@ =~= seq![]);
        acceptor
    }

    /// Whether to turn away clients that do not offer network level
    /// authentication.
    pub fn with_require_nla(self, require_nla: bool) -> (r: Self)
        ensures
            r@ == (AcceptorView { require_nla, ..self@ }),
    {
        let mut acceptor = self;
        acceptor.require_nla = require_nla;
        acceptor
    }

    /// The protocol that was chosen.
    pub fn selected_protocol(&self) -> (r: SecurityProtocol)
        ensures
            r == self@.selected_protocol,
    {
        self.selected_protocol
    }

    /// Whether the client has to authenticate itself after the TLS handshake,
    /// before the sequence goes on.
    pub fn requires_credssp(&self) -> (r: bool)
        ensures
            r == self@.selected_protocol.contains(SecurityProtocol::hybrid()),
    {
        self.selected_protocol.contains(SecurityProtocol::hybrid())
    }

    /// Whether the sequence is over, one way or the other.
    pub fn is_finished(&self) -> (r: bool)
        ensures
            r == (self@.state == State::Accepted || self@.state == State::Rejected),
    {
        match self.state {
            State::Accepted => true,
            State::Rejected => true,
            _ => false,
        }
    }

    /// What the sequence waits for, in a word.
    pub fn handshake_phase(&self) -> (r: &'static str)
        ensures
            r@ == (match self@.state {
                State::WaitConnectionRequest => "connection-request"@,
                State::WaitConnectInitial => "connect-initial"@,
                State::WaitErectDomainRequest => "erect-domain"@,
                State::WaitAttachUserRequest => "attach-user"@,
                State::WaitChannelJoinRequest { .. } => "channel-join"@,
                State::WaitClientInfo => "client-info"@,
                State::WaitAuthApproval => "auth-approval"@,
                State::WaitConfirmActive => "confirm-active"@,
                State::WaitFinalization { .. } => "finalization"@,
                State::Accepted => "accepted"@,
                State::Rejected => "rejected"@,
            }),
    {
        match self.state {
            State::WaitConnectionRequest => "connection-request",
            State::WaitConnectInitial => "connect-initial",
            State::WaitErectDomainRequest => "erect-domain",
            State::WaitAttachUserRequest => "attach-user",
            State::WaitChannelJoinRequest { .. } => "channel-join",
            State::WaitClientInfo => "client-info",
            State::WaitAuthApproval => "auth-approval",
            State::WaitConfirmActive => "confirm-active",
            State::WaitFinalization { .. } => "finalization",
            State::Accepted => "accepted",
            State::Rejected => "rejected",
        }
    }

    /// Lets in a client that wants to log on, and says what the server can do.
    pub fn approve_client_info(&mut self) -> (r: Result<Vec<u8>, ConnectorError>)
        ensures
            if old(self)@.state == State::WaitAuthApproval {
                &&& r is Ok
                &&& r->Ok_0@ == io_message(
                    demand_active_wire(old(self)@.desktop_width, old(self)@.desktop_height),
                )
                &&& final(self)@ == old(self)@.at(State::WaitConfirmActive)
            } else {
                r == Err::<Vec<u8>, ConnectorError>(ConnectorError::NotReady) && final(self)@
                    == old(self)@
            },
    {
        match self.state {
            State::WaitAuthApproval => {},
            _ => {
                return Err(ConnectorError::NotReady);
            },
        }
        self.state = State::WaitConfirmActive;
        Ok(send_io_indication(self.demand_active()))
    }

    /// Turns away a client that wants to log on.
    pub fn reject_client_info(&mut self)
        ensures
            final(self)@ == (if old(self)@.state == State::WaitAuthApproval {
                old(self)@.at(State::Rejected)
            } else {
                old(self)@
            }),
    {
        match self.state {
            State::WaitAuthApproval => {
                self.state = State::Rejected;
            },
            _ => {},
        }
    }

    /// Changes the size of the desktop of a connection that stands: the client
    /// is deactivated, told anew what the server can do, and the sequence goes
    /// on from there until the connection stands again.
    pub fn begin_resize(&mut self, desktop_width: u16, desktop_height: u16) -> (r: Result<
        Vec<u8>,
        ConnectorError,
    >)
        ensures
            if old(self)@.state == State::Accepted {
                &&& r is Ok
                &&& r->Ok_0@ == io_message(
                    DeactivateAllPdu { share_id: SHARE_ID, pdu_source: IO_CHANNEL_ID }.wire(),
                ) + io_message(demand_active_wire(desktop_width, desktop_height))
                &&& final(self)@ == (AcceptorView {
                    state: State::WaitConfirmActive,
                    desktop_width,
                    desktop_height,
                    confirm_active: seq![],
                    ..old(self)@
                })
            } else {
                r == Err::<Vec<u8>, ConnectorError>(ConnectorError::NotReady) && final(self)@
                    == old(self)@
            },
    {
        match self.state {
            State::Accepted => {},
            _ => {
                return Err(ConnectorError::NotReady);
            },
        }
        self.desktop_width = desktop_width;
        self.desktop_height = desktop_height;
        let mut response: Vec<u8> = send_io_indication(
            DeactivateAllPdu { share_id: SHARE_ID, pdu_source: IO_CHANNEL_ID }.encode(),
        );
        let mut demand: Vec<u8> = send_io_indication(self.demand_active());
        response.append(&mut demand);
        // No part of an earlier message is left over.
        self.confirm_active_buf = Vec::new();
        self.state = State::WaitConfirmActive;
        Ok(response)
    }

    /// Takes one framed message, and says what to send and what has happened.
    pub fn step(&mut self, input: &[u8]) -> (r: Result<StepResult, ConnectorError>)
        requires
            old(self)@.wf(),
        ensures
            final(self)@.wf(),
            final(self)@ == stepped(old(self)@, input@).0,
            match stepped(old(self)@, input@).1 {
                Ok(step) => r is Ok && r->Ok_0@ == step,
                Err(e) => r == Err::<StepResult, ConnectorError>(e),
            },
    {
        let result: Result<StepResult, DecodeError> = match self.state {
            State::Accepted => {
                return Err(ConnectorError::AlreadyFinished);
            },
            State::Rejected => {
                return Err(ConnectorError::AlreadyFinished);
            },
            State::WaitAuthApproval => {
                return Err(ConnectorError::NotReady);
            },
            State::WaitConnectionRequest => self.on_connection_request(input),
            State::WaitConnectInitial => self.on_connect_initial(input),
            State::WaitClientInfo => self.on_client_info(input),
            State::WaitConfirmActive => self.step_reactivation(input),
            State::WaitFinalization { .. } => self.step_reactivation(input),
            State::WaitErectDomainRequest => self.step_mcs_domain_pdus(input),
            State::WaitAttachUserRequest => self.step_mcs_domain_pdus(input),
            State::WaitChannelJoinRequest { .. } => self.step_mcs_domain_pdus(input),
        };
        match result {
            Ok(step) => Ok(step),
            Err(e) => Err(ConnectorError::Decode(e)),
        }
    }

    fn step_reactivation(&mut self, input: &[u8]) -> (r: Result<StepResult, DecodeError>)
        requires
            old(self)@.wf(),
            old(self)@.state == State::WaitConfirmActive || old(self)@.state is WaitFinalization,
        ensures
            final(self)@.wf(),
            comes_to(
                match x224::parse_data(input@) {
                    Err(e) => (old(self)@, Err(e)),
                    Ok(payload) => share_steps(old(self)@, payload, 0, seq![]),
                },
                final(self)@,
                r,
            ),
    {
        let payload: &[u8] = x224::unwrap_data(input)?;
        let ghost start = self@;
        let mut cursor = ReadCursor::new(payload);
        let mut response: Vec<u8> = Vec::new();
        assert(response@ =~= seq![]);
        while cursor.remaining() > 0
            invariant
                self@.wf(),
                self@.state == State::WaitConfirmActive || self@.state is WaitFinalization,
                cursor.wf(),
                cursor.data() == payload@,
                start == old(self)@,
                x224::parse_data(input@) == Ok::<Seq<u8>, DecodeError>(payload@),
                share_steps(start, payload@, 0, seq![]) == share_steps(
                    self@,
                    payload@,
                    cursor.offset(),
                    response@,
                ),
            decreases payload@.len() - cursor.offset(),
        {
            let ghost p = cursor.offset();
            proof {
                lemma_send_data_moves(payload@, p);
            }
            let send_data: SendData = SendData::decode_request_from_cursor(&mut cursor)?;
            let mut step: StepResult = match self.state {
                State::WaitFinalization { granted_control_sent } => self.on_finalization_send_data(
                    send_data,
                    granted_control_sent,
                ),
                _ => self.on_confirm_active_send_data(send_data)?,
            };
            response.append(&mut step.response);
            match step.event {
                AcceptorEvent::Accepted(connection) => {
                    return Ok(
                        StepResult { response, event: AcceptorEvent::Accepted(connection) },
                    );
                },
                _ => {},
            }
        }
        Ok(StepResult { response, event: AcceptorEvent::Nothing })
    }

    fn step_mcs_domain_pdus(&mut self, input: &[u8]) -> (r: Result<StepResult, DecodeError>)
        requires
            old(self)@.wf(),
            old(self)@.state == State::WaitErectDomainRequest || old(self)@.state
                == State::WaitAttachUserRequest || old(self)@.state is WaitChannelJoinRequest,
        ensures
            final(self)@.wf(),
            comes_to(
                match x224::parse_data(input@) {
                    Err(e) => (old(self)@, Err(e)),
                    Ok(payload) => domain_steps(old(self)@, payload, 0, seq![]),
                },
                final(self)@,
                r,
            ),
    {
        let payload: &[u8] = x224::unwrap_data(input)?;
        let ghost start = self@;
        let mut cursor = ReadCursor::new(payload);
        let mut response: Vec<u8> = Vec::new();
        assert(response@ =~= seq![]);
        while cursor.remaining() > 0
            invariant
                self@.wf(),
                self@.state == State::WaitErectDomainRequest || self@.state
                    == State::WaitAttachUserRequest || self@.state is WaitChannelJoinRequest,
                cursor.wf(),
                cursor.data() == payload@,
                start == old(self)@,
                x224::parse_data(input@) == Ok::<Seq<u8>, DecodeError>(payload@),
                domain_steps(start, payload@, 0, seq![]) == domain_steps(
                    self@,
                    payload@,
                    cursor.offset(),
                    response@,
                ),
            decreases payload@.len() - cursor.offset(),
        {
            let ghost p = cursor.offset();
            proof {
                lemma_domain_step_moves(self@, payload@, p);
            }
            if client_leaves(&cursor) {
                self.state = State::Rejected;
                return Err(
                    DecodeError::InvalidValue {
                        field: "mcs.domain_pdu",
                        reason: "client disconnected during MCS domain setup",
                    },
                );
            }
            let mut reply: Vec<u8> = match self.handle_domain_pdu(&mut cursor) {
                Ok(reply) => reply,
                Err(e) => {
                    self.state = State::Rejected;
                    return Err(e);
                },
            };
            response.append(&mut reply);
            if let State::WaitClientInfo = self.state {
                return Ok(StepResult::just(response));
            }
        }
        Ok(StepResult::just(response))
    }

    fn handle_domain_pdu(&mut self, cursor: &mut ReadCursor<'_>) -> (r: Result<
        Vec<u8>,
        DecodeError,
    >)
        requires
            old(self)@.wf(),
            old(self)@.state == State::WaitErectDomainRequest || old(self)@.state
                == State::WaitAttachUserRequest || old(self)@.state is WaitChannelJoinRequest,
            old(cursor).wf(),
        ensures
            final(self)@.wf(),
            final(cursor).wf(),
            final(cursor).data() == old(cursor).data(),
            match domain_step(old(self)@, old(cursor).data(), old(cursor).offset()) {
                Ok(((after, reply), q)) => {
                    &&& r is Ok
                    &&& r->Ok_0@ == reply
                    &&& final(self)@ == after
                    &&& final(cursor).offset() == q
                },
                Err(e) => r == Err::<Vec<u8>, DecodeError>(e) && final(self)@ == old(self)@,
            },
    {
        match self.state {
            State::WaitErectDomainRequest => self.handle_erect_domain_request(cursor),
            State::WaitAttachUserRequest => self.handle_attach_user_request(cursor),
            State::WaitChannelJoinRequest { remaining } => self.handle_channel_join_request(
                cursor,
                remaining,
            ),
            _ => Ok(Vec::new()),
        }
    }

    fn handle_erect_domain_request(&mut self, cursor: &mut ReadCursor<'_>) -> (r: Result<
        Vec<u8>,
        DecodeError,
    >)
        requires
            old(cursor).wf(),
            old(self)@.state == State::WaitErectDomainRequest,
        ensures
            final(cursor).wf(),
            final(cursor).data() == old(cursor).data(),
            match domain_step(old(self)@, old(cursor).data(), old(cursor).offset()) {
                Ok(((after, reply), q)) => {
                    &&& r is Ok
                    &&& r->Ok_0@ == reply
                    &&& final(self)@ == after
                    &&& final(cursor).offset() == q
                },
                Err(e) => r == Err::<Vec<u8>, DecodeError>(e) && final(self)@ == old(self)@,
            },
    {
        let _request: ErectDomainRequest = ErectDomainRequest::decode_from_cursor(cursor)?;
        self.state = State::WaitAttachUserRequest;
        let none: Vec<u8> = Vec::new();
        assert(none@ =~= seq![]);
        Ok(none)
    }

    fn handle_attach_user_request(&mut self, cursor: &mut ReadCursor<'_>) -> (r: Result<
        Vec<u8>,
        DecodeError,
    >)
        requires
            old(self)@.wf(),
            old(cursor).wf(),
            old(self)@.state == State::WaitAttachUserRequest,
        ensures
            final(cursor).wf(),
            final(cursor).data() == old(cursor).data(),
            match domain_step(old(self)@, old(cursor).data(), old(cursor).offset()) {
                Ok(((after, reply), q)) => {
                    &&& r is Ok
                    &&& r->Ok_0@ == reply
                    &&& final(self)@ == after
                    &&& final(cursor).offset() == q
                },
                Err(e) => r == Err::<Vec<u8>, DecodeError>(e) && final(self)@ == old(self)@,
            },
    {
        let _request: AttachUserRequest = AttachUserRequest::decode_from_cursor(cursor)?;
        let confirm = AttachUserConfirm { result: 0, initiator: USER_CHANNEL_ID };
        let mut remaining: u32 = 2 + self.static_channel_names.len() as u32;
        if self.message_channel_id.is_some() {
            remaining = remaining + 1;
        }
        self.state = State::WaitChannelJoinRequest { remaining };
        Ok(x224::wrap_data(confirm.encode().as_slice()))
    }

    fn handle_channel_join_request(&mut self, cursor: &mut ReadCursor<'_>, remaining: u32) -> (r:
        Result<Vec<u8>, DecodeError>)
        requires
            old(cursor).wf(),
            old(self)@.state == (State::WaitChannelJoinRequest { remaining }),
        ensures
            final(cursor).wf(),
            final(cursor).data() == old(cursor).data(),
            match domain_step(old(self)@, old(cursor).data(), old(cursor).offset()) {
                Ok(((after, reply), q)) => {
                    &&& r is Ok
                    &&& r->Ok_0@ == reply
                    &&& final(self)@ == after
                    &&& final(cursor).offset() == q
                },
                Err(e) => r == Err::<Vec<u8>, DecodeError>(e) && final(self)@ == old(self)@,
            },
    {
        let request: ChannelJoinRequest = ChannelJoinRequest::decode_from_cursor(cursor)?;
        let confirm = ChannelJoinConfirm {
            result: 0,
            initiator: request.initiator,
            requested_channel_id: request.channel_id,
            channel_id: request.channel_id,
        };
        self.state = if remaining <= 1 {
            State::WaitClientInfo
        } else {
            State::WaitChannelJoinRequest { remaining: remaining - 1 }
        };
        Ok(x224::wrap_data(confirm.encode().as_slice()))
    }

    fn on_connection_request(&mut self, input: &[u8]) -> (r: Result<StepResult, DecodeError>)
        ensures
            comes_to(connection_request_step(old(self)@, input@), final(self)@, r),
    {
        let request: ConnectionRequest = ConnectionRequest::decode(input)?;
        let selected: SecurityProtocol = if request.protocol.contains(SecurityProtocol::hybrid()) {
            SecurityProtocol::hybrid()
        } else if !self.require_nla && request.protocol.contains(SecurityProtocol::ssl()) {
            SecurityProtocol::ssl()
        } else {
            self.state = State::Rejected;
            let code: FailureCode = if self.require_nla {
                FailureCode::hybrid_required_by_server()
            } else {
                FailureCode::ssl_required_by_server()
            };
            let response: Vec<u8> = ConnectionConfirm::Failure { code }.encode();
            return Ok(StepResult::with_event(response, AcceptorEvent::Rejected));
        };
        self.client_requested_protocols = request.protocol.0;
        self.selected_protocol = selected;
        let response: Vec<u8> = ConnectionConfirm::Response {
            flags: ResponseFlags(0),
            protocol: selected,
        }.encode();
        self.state = State::WaitConnectInitial;
        Ok(StepResult::with_event(response, AcceptorEvent::TlsUpgrade))
    }

    fn on_connect_initial(&mut self, input: &[u8]) -> (r: Result<StepResult, DecodeError>)
        requires
            old(self)@.wf(),
        ensures
            final(self)@.wf(),
            comes_to(connect_initial_step(old(self)@, input@), final(self)@, r),
    {
        let payload: &[u8] = x224::unwrap_data(input)?;
        let connect_initial: ConnectInitial = ConnectInitial::decode(payload)?;
        let request: ConferenceCreateRequest = ConferenceCreateRequest::decode(
            connect_initial.user_data.as_slice(),
        )?;
        let client_blocks: ClientGccBlocks = ClientGccBlocks::decode(
            request.client_gcc_blocks.as_slice(),
        )?;
        proof {
            gcc::law_channels_are_few(request.client_gcc_blocks@);
        }
        let names: Vec<String> = channel_names(&client_blocks);
        let count: u16 = names.len() as u16;
        self.client_name = client_blocks.core.client_name.clone();
        self.static_channel_names = names;
        self.message_channel_id = match client_blocks.message_channel {
            Some(_) => Some(IO_CHANNEL_ID + 1 + count),
            None => None,
        };
        self.state = State::WaitErectDomainRequest;
        Ok(StepResult::just(self.connect_response()))
    }

    /// The answer to the Connect-Initial.
    fn connect_response(&self) -> (out: Vec<u8>)
        requires
            self@.wf(),
        ensures
            out@ == connect_response_message(self@),
    {
        let count: u16 = self.static_channel_names.len() as u16;
        let mut channel_ids: Vec<u16> = Vec::new();
        let mut i: u16 = 0;
        while i < count
            invariant
                i <= count,
                count <= 31,
                channel_ids@.len() == i,
                forall|j: int| 0 <= j < i ==> channel_ids@[j] == channel_number(j),
            decreases count - i,
        {
            channel_ids.push(IO_CHANNEL_ID + 1 + i);
            i = i + 1;
        }
        assert(channel_ids@ =~= server_blocks(self@).network.channel_ids);
        let blocks = ServerGccBlocks {
            core: ServerCoreData {
                version: 0x0008_0004,
                client_requested_protocols: Some(self.client_requested_protocols),
                early_capability_flags: None,
            },
            network: ServerNetworkData { io_channel_id: IO_CHANNEL_ID, channel_ids },
            security: ServerSecurityData,
            message_channel: match self.message_channel_id {
                Some(mcs_channel_id) => Some(ServerMessageChannelData { mcs_channel_id }),
                None => None,
            },
        };
        assert(blocks@ == server_blocks(self@));
        let response = ConferenceCreateResponse {
            node_id: USER_CHANNEL_ID,
            server_gcc_blocks: blocks.encode(),
        };
        assert(blocks@.wire().len() < 1000) by {
            broadcast use bytes::group_bytes;

            assert(blocks@.network.wire().len() <= 6 + 2 * 31);
            assert(blocks@.core.wire().len() == 8);
        }
        let connect_response = ConnectResponse {
            called_connect_id: 0,
            domain_parameters: DomainParameters::target(),
            user_data: response.encode(),
        };
        x224::wrap_data(connect_response.encode().as_slice())
    }

    fn on_client_info(&mut self, input: &[u8]) -> (r: Result<StepResult, DecodeError>)
        ensures
            comes_to(client_info_step(old(self)@, input@), final(self)@, r),
    {
        proof {
            reveal(parse_client_info);
        }
        let payload: &[u8] = x224::unwrap_data(input)?;
        let send_data: SendData = SendData::decode_request(payload)?;
        let client_info: ClientInfoPdu = ClientInfoPdu::decode(send_data.data.as_slice())?;
        let credentials = ClientCredentials {
            domain: client_info.info.domain,
            username: client_info.info.username,
            password: client_info.info.password,
        };
        let response: Vec<u8> = send_io_indication(licensing::encode_valid_client());
        self.state = State::WaitAuthApproval;
        Ok(StepResult::with_event(response, AcceptorEvent::ClientInfoReceived(credentials)))
    }

    fn demand_active(&self) -> (out: Vec<u8>)
        ensures
            out@ == demand_active_wire(self@.desktop_width, self@.desktop_height),
    {
        let capabilities = ServerCapabilities {
            general: GeneralCapability {
                extra_flags: GeneralCapability::FASTPATH_OUTPUT_SUPPORTED,
                refresh_rect_support: true,
                suppress_output_support: true,
            },
            bitmap: BitmapCapability {
                preferred_bits_per_pixel: 32,
                desktop_width: self.desktop_width,
                desktop_height: self.desktop_height,
                // Without this a client need not expect another size later on.
                desktop_resize_flag: true,
            },
            order: OrderCapability,
            pointer: PointerCapability { color_pointer_cache_size: 2048, pointer_cache_size: 2048 },
            input: InputCapability {
                input_flags: InputCapability::SCANCODES | InputCapability::FASTPATH_INPUT
                    | InputCapability::FASTPATH_INPUT_2 | InputCapability::UNICODE,
                keyboard_layout: 0,
                keyboard_type: 0,
                keyboard_subtype: 0,
                keyboard_function_key: 0,
            },
            virtual_channel: VirtualChannelCapability { flags: 0 },
            multifragment_update: MultiFragmentUpdateCapability {
                max_request_size: MAX_UPDATE_LEN,
            },
            bitmap_codecs: BitmapCodecsCapability,
        };
        assert(capabilities == server_capabilities(self.desktop_width, self.desktop_height));
        DemandActive {
            share_id: SHARE_ID,
            pdu_source: IO_CHANNEL_ID,
            capabilities: &capabilities,
        }.encode()
    }

    fn on_confirm_active_send_data(&mut self, send_data: SendData) -> (r: Result<
        StepResult,
        DecodeError,
    >)
        requires
            old(self)@.wf(),
            old(self)@.state == State::WaitConfirmActive,
        ensures
            final(self)@.wf(),
            comes_to(confirm_active_step(old(self)@, send_data@), final(self)@, r),
            r is Ok ==> final(self)@.state == State::WaitConfirmActive
                || final(self)@.state is WaitFinalization,
    {
        let none: Vec<u8> = Vec::new();
        assert(none@ =~= seq![]);
        // Other channels may be in use already.
        if send_data.channel_id != IO_CHANNEL_ID {
            return Ok(StepResult::just(none));
        }
        // A client whose desktop changes its size may still be sending.
        if is_other_pdu(send_data.data.as_slice(), ShareControlPduType::ConfirmActive) {
            return Ok(StepResult::just(none));
        }
        if send_data.data.len() > MAX_CONFIRM_ACTIVE_LEN - self.confirm_active_buf.len() {
            self.confirm_active_buf = Vec::new();
            assert(self.confirm_active_buf@ =~= seq![]);
            return Err(
                DecodeError::InvalidValue {
                    field: "confirm_active.reassembly",
                    reason: "exceeded maximum allowed reassembled size",
                },
            );
        }
        let ghost whole = self.confirm_active_buf@ + send_data.data@;
        let mut data: Vec<u8> = send_data.data;
        self.confirm_active_buf.append(&mut data);
        assert(self.confirm_active_buf@ =~= whole);
        if !send_data.complete {
            return Ok(StepResult::just(none));
        }
        let mut taken: Vec<u8> = Vec::new();
        core::mem::swap(&mut self.confirm_active_buf, &mut taken);
        assert(self.confirm_active_buf@ =~= seq![]);
        let confirm: ConfirmActive = try_decode_confirm_active(taken.as_slice())?;
        self.max_request_size = capability_sets::parse_client_max_request_size(
            confirm.capabilities.as_slice(),
        );
        // Some clients send nothing more before they have heard these two.
        let mut response: Vec<u8> = send_io_indication(server_synchronize_pdu());
        let mut cooperate: Vec<u8> = send_io_indication(server_cooperate_pdu());
        response.append(&mut cooperate);
        self.state = State::WaitFinalization { granted_control_sent: false };
        Ok(StepResult::just(response))
    }

    fn on_finalization_send_data(&mut self, send_data: SendData, granted_control_sent: bool) -> (r:
        StepResult)
        requires
            old(self)@.wf(),
            old(self)@.state == (State::WaitFinalization { granted_control_sent }),
        ensures
            final(self)@.wf(),
            (final(self)@, Ok::<StepView, DecodeError>(r@)) == finalization_step(
                old(self)@,
                send_data@,
                granted_control_sent,
            ),
            final(self)@.state is WaitFinalization || r@.event is Accepted,
    {
        let none: Vec<u8> = Vec::new();
        assert(none@ =~= seq![]);
        // Other channels stay in use while the desktop changes its size.
        if send_data.channel_id != IO_CHANNEL_ID {
            return StepResult::just(none);
        }
        if is_other_pdu(send_data.data.as_slice(), ShareControlPduType::Data) {
            return StepResult::just(none);
        }
        let data_pdu: DataPdu = match DataPdu::decode(send_data.data.as_slice()) {
            Ok(data_pdu) => data_pdu,
            Err(_) => {
                return StepResult::just(none);
            },
        };
        if data_pdu.pdu_type2 == ShareDataPduType::Control {
            match ControlPdu::decode_body(data_pdu.body.as_slice()) {
                Ok(control) => {
                    if control.action == ControlPdu::REQUEST_CONTROL && !granted_control_sent {
                        self.state = State::WaitFinalization { granted_control_sent: true };
                        return StepResult::just(send_io_indication(server_granted_control_pdu()));
                    }
                },
                Err(_) => {},
            }
            return StepResult::just(none);
        }
        if data_pdu.pdu_type2 == ShareDataPduType::FontList {
            let mut response: Vec<u8> = send_io_indication(server_font_map_pdu());
            let mut session_info: Vec<u8> = send_io_indication(
                server_save_session_info_plain_notify(),
            );
            response.append(&mut session_info);
            let connection: AcceptedConnection = self.accepted_connection();
            self.state = State::Accepted;
            return StepResult::with_event(response, AcceptorEvent::Accepted(connection));
        }
        StepResult::just(none)
    }

    fn accepted_connection(&self) -> (r: AcceptedConnection)
        requires
            self@.wf(),
        ensures
            r@ == accepted(self@),
    {
        let count: usize = self.static_channel_names.len();
        let mut static_channels: Vec<(String, u16)> = Vec::new();
        let mut i: usize = 0;
        while i < count
            invariant
                i <= count,
                count <= 31,
                count == self.static_channel_names@.len(),
                static_channels@.len() == i,
                forall|j: int|
                    0 <= j < i ==> (#[trigger] static_channels@[j]).0@
                        == self.static_channel_names@[j]@ && static_channels@[j].1
                        == channel_number(j),
            decreases count - i,
        {
            static_channels.push(
                (self.static_channel_names[i].clone(), IO_CHANNEL_ID + 1 + i as u16),
            );
            i = i + 1;
        }
        assert(channels_view(static_channels@) =~= accepted(self@).static_channels);
        AcceptedConnection {
            io_channel_id: IO_CHANNEL_ID,
            user_channel_id: USER_CHANNEL_ID,
            static_channels,
            share_id: SHARE_ID,
            desktop_width: self.desktop_width,
            desktop_height: self.desktop_height,
            client_name: self.client_name.clone(),
            max_request_size: self.max_request_size,
        }
    }
}

fn channel_names(blocks: &ClientGccBlocks) -> (names: Vec<String>)
    ensures
        model::views(names@) == listed_names(blocks@),
{
    let mut names: Vec<String> = Vec::new();
    assert(model::views(names@) =~= seq![]);
    match &blocks.network {
        Some(network) => {
            let ghost channels = network@;
            let n: usize = network.channels.len();
            let mut i: usize = 0;
            while i < n
                invariant
                    i <= n,
                    n == network.channels@.len(),
                    channels == network@,
                    model::views(names@) =~= Seq::new(i as nat, |j: int| channels[j].name),
                decreases n - i,
            {
                names.push(network.channels[i].name.clone());
                i = i + 1;
            }
        },
        None => {},
    }
    names
}

/// Whether the next message says that the client leaves.
fn client_leaves(cursor: &ReadCursor<'_>) -> (r: bool)
    requires
        cursor.wf(),
        cursor.offset() < cursor.data().len(),
    ensures
        r == leaves(cursor.data(), cursor.offset()),
{
    match cursor.peek_slice(1) {
        Ok(head) => match DomainMcsPdu::from_u8(head[0] / 4) {
            Some(DomainMcsPdu::DisconnectProviderUltimatum) => true,
            _ => false,
        },
        Err(_) => false,
    }
}

fn is_other_pdu(data: &[u8], pdu_type: ShareControlPduType) -> (r: bool)
    ensures
        r == is_other(data@, pdu_type),
{
    let mut cursor = ReadCursor::new(data);
    match ShareControlHeader::decode(&mut cursor) {
        Ok((header, _)) => header.pdu_type != pdu_type,
        Err(_) => false,
    }
}

fn send_io_indication(body: Vec<u8>) -> (out: Vec<u8>)
    ensures
        out@ == io_message(body@),
{
    let data = SendData {
        initiator: USER_CHANNEL_ID,
        channel_id: IO_CHANNEL_ID,
        data: body,
        complete: true,
    };
    x224::wrap_data(data.encode_indication().as_slice())
}

fn try_decode_confirm_active(data: &[u8]) -> (r: Result<ConfirmActive, DecodeError>)
    ensures
        cursor::decodes_view(r, parse_confirm(data@)),
{
    match ConfirmActive::decode(data) {
        Ok(c) => Ok(c),
        Err(first) => {
            if data.len() >= 14 {
                let rest: &[u8] = vstd::slice::slice_subrange(data, 4, data.len());
                assert(rest@ =~= data@.skip(4));
                match ConfirmActive::decode(rest) {
                    Ok(c) => {
                        return Ok(c);
                    },
                    Err(_) => {},
                }
            }
            Err(first)
        },
    }
}

fn server_synchronize_pdu() -> (out: Vec<u8>)
    ensures
        out@ == synchronize_wire(),
{
    data_pdu_bytes(
        ShareDataPduType::Synchronize,
        SynchronizePdu { target_user: USER_CHANNEL_ID }.encode_body(),
    )
}

fn server_cooperate_pdu() -> (out: Vec<u8>)
    ensures
        out@ == cooperate_wire(),
{
    data_pdu_bytes(
        ShareDataPduType::Control,
        ControlPdu { action: ControlPdu::COOPERATE, grant_id: 0, control_id: 0 }.encode_body(),
    )
}

fn server_granted_control_pdu() -> (out: Vec<u8>)
    ensures
        out@ == granted_control_wire(),
{
    data_pdu_bytes(
        ShareDataPduType::Control,
        ControlPdu {
            action: ControlPdu::GRANTED_CONTROL,
            grant_id: USER_CHANNEL_ID,
            control_id: USER_CHANNEL_ID as u32,
        }.encode_body(),
    )
}

fn server_font_map_pdu() -> (out: Vec<u8>)
    ensures
        out@ == font_map_wire(),
{
    data_pdu_bytes(ShareDataPduType::FontMap, FontPdu::font_map_default().encode_body())
}

fn server_save_session_info_plain_notify() -> (out: Vec<u8>)
    ensures
        out@ == session_info_wire(),
{
    data_pdu_bytes(
        ShareDataPduType::SaveSessionInfo,
        finalization::encode_save_session_info_plain_notify(),
    )
}

/// A message of the finalization, from the server or to it.
pub fn data_pdu_bytes(pdu_type2: ShareDataPduType, body: Vec<u8>) -> (out: Vec<u8>)
    ensures
        out@ == data_wire(pdu_type2, body@),
{
    DataPdu {
        share_id: SHARE_ID,
        pdu_source: IO_CHANNEL_ID,
        stream_id: STREAM_UNDEFINED,
        pdu_type2,
        body,
    }.encode()
}

/// Once the sequence is over, a step changes nothing.
pub proof fn law_finished(s: AcceptorView, input: Seq<u8>)
    requires
        s.state == State::Accepted || s.state == State::Rejected,
    ensures
        stepped(s, input) == (s, Err::<StepView, ConnectorError>(ConnectorError::AlreadyFinished)),
{
}

/// A message that cannot be read leaves the sequence where it was, but during
/// the setup of the domain and the last part: the client may try again.
pub proof fn law_may_try_again(s: AcceptorView, input: Seq<u8>)
    requires
        s.state == State::WaitConnectionRequest || s.state == State::WaitConnectInitial || s.state
            == State::WaitClientInfo || s.state == State::WaitAuthApproval,
    ensures
        stepped(s, input).1 is Err ==> stepped(s, input).0 == s,
{
}

/// A client that offers what will do is told which protocol was chosen, and one
/// that does not is told what is missing, and the sequence is over.
pub proof fn law_negotiation(s: AcceptorView, input: Seq<u8>, offered: SecurityProtocol)
    requires
        s.state == State::WaitConnectionRequest,
        x224::parse_request(input) is Ok,
        x224::parse_request(input)->Ok_0.protocol == offered,
    ensures
        stepped(s, input).1 is Ok,
        ({
            let (after, r) = stepped(s, input);
            let step = r->Ok_0;
            match chosen_protocol(offered, s.require_nla) {
                Some(protocol) => {
                    &&& x224::parse_confirm(step.response) == Ok::<ConnectionConfirm, DecodeError>(
                        ConnectionConfirm::Response { flags: ResponseFlags(0), protocol },
                    )
                    &&& step.event == EventView::TlsUpgrade
                    &&& after.selected_protocol == protocol
                    &&& after.state == State::WaitConnectInitial
                },
                None => {
                    &&& x224::parse_confirm(step.response) == Ok::<ConnectionConfirm, DecodeError>(
                        refusal(s.require_nla),
                    )
                    &&& step.event == EventView::Rejected
                    &&& after.state == State::Rejected
                },
            }
        }),
{
    match chosen_protocol(offered, s.require_nla) {
        Some(protocol) => {
            x224::law_confirm_round_trip(
                ConnectionConfirm::Response { flags: ResponseFlags(0), protocol },
            );
        },
        None => {
            x224::law_confirm_round_trip(refusal(s.require_nla));
        },
    }
}

/// Whether a connection is in the last part of its sequence, or stands.
pub open spec fn near_the_end(s: AcceptorView) -> bool {
    s.state == State::WaitConfirmActive || s.state is WaitFinalization || s.state
        == State::Accepted
}

proof fn lemma_share_steps_stay(s: AcceptorView, b: Seq<u8>, p: int, response: Seq<u8>)
    requires
        s.state == State::WaitConfirmActive || s.state is WaitFinalization,
    ensures
        near_the_end(share_steps(s, b, p, response).0),
    decreases b.len() - p,
{
    if 0 <= p < b.len() {
        lemma_send_data_moves(b, p);
        match mcs::parse_send_data(b, p, DomainMcsPdu::SendDataRequest) {
            Err(_) => {},
            Ok((sent, q)) => match share_step(s, sent) {
                (_, Err(_)) => {},
                (after, Ok(step)) => {
                    if !(step.event is Accepted) {
                        lemma_share_steps_stay(after, b, q, response + step.response);
                    }
                },
            },
        }
    }
}

/// In the last part of the sequence nothing that a client sends makes the
/// connection fail for good, be it at first or while the size changes: the
/// client can still end it.
pub proof fn law_can_still_be_ended(s: AcceptorView, input: Seq<u8>)
    requires
        s.state == State::WaitConfirmActive || s.state is WaitFinalization,
    ensures
        near_the_end(stepped(s, input).0),
{
    match x224::parse_data(input) {
        Err(_) => {},
        Ok(payload) => {
            lemma_share_steps_stay(s, payload, 0, seq![]);
        },
    }
}

/// What a client offered in its first message is repeated to it in the answer to
/// the next one.
pub proof fn law_offer_is_repeated(
    s: AcceptorView,
    first: Seq<u8>,
    second: Seq<u8>,
    offered: SecurityProtocol,
)
    requires
        s.state == State::WaitConnectionRequest,
        x224::parse_request(first) is Ok,
        x224::parse_request(first)->Ok_0.protocol == offered,
        chosen_protocol(offered, s.require_nla) is Some,
        stepped(stepped(s, first).0, second).1 is Ok,
    ensures
        ({
            let (after, r) = stepped(stepped(s, first).0, second);
            &&& r->Ok_0.response == connect_response_message(after)
            &&& server_blocks(after).core.client_requested_protocols == Some(offered.0)
        }),
{
}

/// The static channels get numbers one after the other, in the order in which
/// the client listed them: those that it is told are those that are reported.
pub proof fn law_channel_numbers(s: AcceptorView, i: int, j: int)
    requires
        s.wf(),
        0 <= i < j < s.static_channel_names.len(),
    ensures
        accepted(s).static_channels[i].0 == s.static_channel_names[i],
        accepted(s).static_channels[i].1 == IO_CHANNEL_ID + 1 + i,
        accepted(s).static_channels[i].1 < accepted(s).static_channels[j].1,
        server_blocks(s).network.channel_ids[i] == accepted(s).static_channels[i].1,
{
}

/// Join requests one after the other.
pub open spec fn joins_wire(joins: Seq<ChannelJoinRequest>) -> Seq<u8>
    decreases joins.len(),
{
    if joins.len() == 0 {
        seq![]
    } else {
        joins[0].wire() + joins_wire(joins.skip(1))
    }
}

/// The answers to join requests, one after the other.
pub open spec fn join_answers(joins: Seq<ChannelJoinRequest>) -> Seq<u8>
    decreases joins.len(),
{
    if joins.len() == 0 {
        seq![]
    } else {
        x224::data_message(
            ChannelJoinConfirm {
                result: 0,
                initiator: joins[0].initiator,
                requested_channel_id: joins[0].channel_id,
                channel_id: joins[0].channel_id,
            }.wire(),
        ) + join_answers(joins.skip(1))
    }
}

/// However many of the join requests that are due come together, each of them
/// is answered, and the last one due ends the setup of the domain.
pub proof fn law_joins(
    s: AcceptorView,
    remaining: u32,
    b: Seq<u8>,
    p: int,
    joins: Seq<ChannelJoinRequest>,
    response: Seq<u8>,
)
    requires
        s.state == (State::WaitChannelJoinRequest { remaining }),
        0 < joins.len() <= remaining,
        bytes::holds_at(b, p, joins_wire(joins)),
        p + joins_wire(joins).len() == b.len(),
    ensures
        domain_steps(s, b, p, response) == (
            s.at(
                if joins.len() == remaining {
                    State::WaitClientInfo
                } else {
                    State::WaitChannelJoinRequest { remaining: (remaining - joins.len()) as u32 }
                },
            ),
            Ok::<StepView, DecodeError>(
                StepView { response: response + join_answers(joins), event: EventView::Nothing },
            ),
        ),
    decreases joins.len(),
{
    let first = joins[0];
    let rest = joins.skip(1);
    let answer = x224::data_message(
        ChannelJoinConfirm {
            result: 0,
            initiator: first.initiator,
            requested_channel_id: first.channel_id,
            channel_id: first.channel_id,
        }.wire(),
    );
    bytes::lemma_holds_add(b, p, first.wire(), joins_wire(rest));
    mcs::law_channel_join_round_trip(b, p, first);
    assert(first.wire().len() == 5) by {
        broadcast use bytes::group_bytes;

    }
    bytes::lemma_holds_bounds(b, p, first.wire());
    assert(!leaves(b, p)) by {
        assert(b.subrange(p, p + 5)[0] == b[p]);
        assert(first.wire()[0] == mcs::choice(DomainMcsPdu::ChannelJoinRequest, 0));
    }
    lemma_domain_step_moves(s, b, p);
    let after = domain_step(s, b, p)->Ok_0.0.0;
    assert(domain_step(s, b, p)->Ok_0 == ((after, answer), p + 5));
    if rest.len() == 0 {
        assert(join_answers(rest) =~= seq![]);
        assert(response + join_answers(joins) =~= response + answer);
        assert(joins_wire(rest).len() == 0);
        if remaining > 1 {
            assert(domain_steps(s, b, p, response) == domain_steps(
                after,
                b,
                p + 5,
                response + answer,
            ));
        }
    } else {
        law_joins(after, (remaining - 1) as u32, b, p + 5, rest, response + answer);
        assert(response + answer + join_answers(rest) =~= response + join_answers(joins));
    }
}

/// The whole setup of the domain may come in one message.
pub proof fn law_domain_setup(
    s: AcceptorView,
    erect: ErectDomainRequest,
    joins: Seq<ChannelJoinRequest>,
)
    requires
        s.wf(),
        s.state == State::WaitErectDomainRequest,
        joins.len() == joins_due(s),
    ensures
        stepped(s, x224::data_message(erect.wire() + AttachUserRequest.wire() + joins_wire(joins)))
            == (
            s.at(State::WaitClientInfo),
            Ok::<StepView, ConnectorError>(
                StepView {
                    response: x224::data_message(
                        AttachUserConfirm { result: 0, initiator: USER_CHANNEL_ID }.wire(),
                    ) + join_answers(joins),
                    event: EventView::Nothing,
                },
            ),
        ),
{
    let b = erect.wire() + AttachUserRequest.wire() + joins_wire(joins);
    let confirm = x224::data_message(
        AttachUserConfirm { result: 0, initiator: USER_CHANNEL_ID }.wire(),
    );
    x224::law_data_round_trip(b);
    bytes::lemma_holds_self(b);
    bytes::lemma_holds_add(b, 0, erect.wire() + AttachUserRequest.wire(), joins_wire(joins));
    bytes::lemma_holds_add(b, 0, erect.wire(), AttachUserRequest.wire());
    mcs::law_erect_domain_round_trip(b, 0, erect);
    let n = erect.wire().len() as int;
    mcs::law_attach_user_round_trip(b, n, AttachUserRequest);
    bytes::lemma_holds_bounds(b, 0, erect.wire());
    bytes::lemma_holds_bounds(b, n, AttachUserRequest.wire());
    assert(!leaves(b, 0)) by {
        assert(b[0] == erect.wire()[0]);
        assert(erect.wire()[0] == mcs::choice(DomainMcsPdu::ErectDomainRequest, 0));
    }
    assert(!leaves(b, n)) by {
        assert(b.subrange(n, n + 1)[0] == b[n]);
        assert(AttachUserRequest.wire()[0] == mcs::choice(DomainMcsPdu::AttachUserRequest, 0));
    }
    let s1 = s.at(State::WaitAttachUserRequest);
    let s2 = s.at(State::WaitChannelJoinRequest { remaining: joins_due(s) });
    lemma_domain_step_moves(s, b, 0);
    lemma_domain_step_moves(s1, b, n);
    assert(domain_steps(s, b, 0, seq![]) == domain_steps(s1, b, n, seq![] + seq![]));
    assert(domain_steps(s1, b, n, seq![] + seq![]) == domain_steps(
        s2,
        b,
        n + 1,
        (seq![] + seq![]) + confirm,
    ));
    law_joins(s2, joins_due(s), b, n + 1, joins, (seq![] + seq![]) + confirm);
    assert((seq![] + seq![]) + confirm + join_answers(joins) =~= confirm + join_answers(joins));
}

proof fn lemma_info_is_read(initiator: u16, channel_id: u16, data: Seq<u8>)
    requires
        data.len() <= 0x7FFF,
    ensures
        parse_client_info(
            x224::data_message(
                mcs::send_data_wire(DomainMcsPdu::SendDataRequest, initiator, channel_id, data),
            ),
        ) == client_info::parse_pdu(data),
{
    reveal(parse_client_info);
    let payload = mcs::send_data_wire(DomainMcsPdu::SendDataRequest, initiator, channel_id, data);
    x224::law_data_round_trip(payload);
    bytes::lemma_holds_self(payload);
    mcs::law_send_data_round_trip(
        payload,
        0,
        DomainMcsPdu::SendDataRequest,
        initiator,
        channel_id,
        data,
    );
}

/// The name and password that a client sends are those that are reported: the
/// client information in `data` is read as `info`.
pub proof fn law_credentials(
    s: AcceptorView,
    initiator: u16,
    channel_id: u16,
    data: Seq<u8>,
    info: ClientInfoView,
)
    requires
        s.state == State::WaitClientInfo,
        data.len() <= 0x7FFF,
        client_info::parse_pdu(data) == Ok::<ClientInfoView, DecodeError>(info),
    ensures
        ({
            let input = x224::data_message(
                mcs::send_data_wire(DomainMcsPdu::SendDataRequest, initiator, channel_id, data),
            );
            &&& stepped(s, input).0 == s.at(State::WaitAuthApproval)
            &&& stepped(s, input).1 is Ok
            &&& stepped(s, input).1->Ok_0.event == EventView::ClientInfoReceived(
                ClientCredentialsView {
                    domain: info.domain,
                    username: info.username,
                    password: info.password,
                },
            )
        }),
{
    lemma_info_is_read(initiator, channel_id, data);
}

/// What comes on other channels does not disturb the last part of the sequence.
pub proof fn law_other_channels(s: AcceptorView, sent: SendDataView)
    requires
        sent.channel_id != IO_CHANNEL_ID,
    ensures
        share_step(s, sent) == ignored(s),
{
}

/// Once a client has confirmed, a font list is enough for the connection to
/// stand, with the size that the desktop has been given: so it is at first, and
/// so it is after every change of the size.
pub proof fn law_activation(s: AcceptorView, confirm: SendDataView, fonts: SendDataView)
    requires
        s.state == State::WaitConfirmActive,
        s.confirm_active.len() == 0,
        confirm.channel_id == IO_CHANNEL_ID,
        confirm.complete,
        confirm.data.len() <= MAX_CONFIRM_ACTIVE_LEN,
        !is_other(confirm.data, ShareControlPduType::ConfirmActive),
        parse_confirm(confirm.data) is Ok,
        fonts.channel_id == IO_CHANNEL_ID,
        finalization::parse_data_pdu(fonts.data) is Ok,
        finalization::parse_data_pdu(fonts.data)->Ok_0.pdu_type2 == ShareDataPduType::FontList,
    ensures
        ({
            let (after, first) = share_step(s, confirm);
            let (end, second) = share_step(after, fonts);
            &&& first is Ok
            &&& first->Ok_0.response == io_message(synchronize_wire()) + io_message(
                cooperate_wire(),
            )
            &&& second is Ok
            &&& second->Ok_0.event == EventView::Accepted(accepted(after))
            &&& accepted(after).desktop_width == s.desktop_width
            &&& accepted(after).desktop_height == s.desktop_height
            &&& accepted(after).static_channels == accepted(s).static_channels
            &&& end.state == State::Accepted
        }),
{
    assert(s.confirm_active + confirm.data =~= confirm.data);
}

/// Data messages one after the other.
pub open spec fn sends_wire(sends: Seq<SendDataView>) -> Seq<u8>
    decreases sends.len(),
{
    if sends.len() == 0 {
        seq![]
    } else {
        mcs::send_data_wire(
            DomainMcsPdu::SendDataRequest,
            sends[0].initiator,
            sends[0].channel_id,
            sends[0].data,
        ) + sends_wire(sends.skip(1))
    }
}

/// Data messages handled one by one.
pub open spec fn share_run(s: AcceptorView, sends: Seq<SendDataView>, response: Seq<u8>) -> Outcome
    decreases sends.len(),
{
    if sends.len() == 0 {
        (s, Ok(StepView { response, event: EventView::Nothing }))
    } else {
        match share_step(s, sends[0]) {
            (after, Err(e)) => (after, Err(e)),
            (after, Ok(step)) => if step.event is Accepted {
                (after, Ok(StepView { response: response + step.response, event: step.event }))
            } else {
                share_run(after, sends.skip(1), response + step.response)
            },
        }
    }
}

/// Data messages that come together are handled as if they had come one by one.
pub proof fn law_batch(
    s: AcceptorView,
    b: Seq<u8>,
    p: int,
    sends: Seq<SendDataView>,
    response: Seq<u8>,
)
    requires
        forall|i: int|
            0 <= i < sends.len() ==> (#[trigger] sends[i]).data.len() <= 0x7FFF
                && sends[i].complete,
        bytes::holds_at(b, p, sends_wire(sends)),
        p + sends_wire(sends).len() == b.len(),
    ensures
        share_steps(s, b, p, response) == share_run(s, sends, response),
    decreases sends.len(),
{
    if sends.len() > 0 {
        let first = sends[0];
        let rest = sends.skip(1);
        let wire = mcs::send_data_wire(
            DomainMcsPdu::SendDataRequest,
            first.initiator,
            first.channel_id,
            first.data,
        );
        bytes::lemma_holds_add(b, p, wire, sends_wire(rest));
        mcs::law_send_data_round_trip(
            b,
            p,
            DomainMcsPdu::SendDataRequest,
            first.initiator,
            first.channel_id,
            first.data,
        );
        bytes::lemma_holds_bounds(b, p, wire);
        assert(wire.len() > 0);
        lemma_send_data_moves(b, p);
        match share_step(s, first) {
            (after, Err(_)) => {},
            (after, Ok(step)) => {
                if !(step.event is Accepted) {
                    law_batch(after, b, p + wire.len(), rest, response + step.response);
                }
            },
        }
    }
}

/// A message that may come during the setup of the domain.
pub enum DomainMessage {
    Erect(ErectDomainRequest),
    Attach,
    Join(ChannelJoinRequest),
    Leave(DisconnectProviderUltimatum),
}

impl DomainMessage {
    pub open spec fn wire(self) -> Seq<u8> {
        match self {
            DomainMessage::Erect(m) => m.wire(),
            DomainMessage::Attach => AttachUserRequest.wire(),
            DomainMessage::Join(m) => m.wire(),
            DomainMessage::Leave(m) => m.wire(),
        }
    }
}

/// Messages of the setup of the domain, one after the other.
pub open spec fn setup_wire(messages: Seq<DomainMessage>) -> Seq<u8>
    decreases messages.len(),
{
    if messages.len() == 0 {
        seq![]
    } else {
        messages[0].wire() + setup_wire(messages.skip(1))
    }
}

/// Messages of the setup of the domain that come one by one, up to the end of the
/// setup or the first that does not do.
pub open spec fn setup_run(
    s: AcceptorView,
    messages: Seq<DomainMessage>,
    response: Seq<u8>,
) -> (AcceptorView, Result<StepView, ConnectorError>)
    decreases messages.len(),
{
    if messages.len() == 0 {
        (s, Ok(StepView { response, event: EventView::Nothing }))
    } else {
        match stepped(s, x224::data_message(messages[0].wire())) {
            (after, Err(e)) => (after, Err(e)),
            (after, Ok(step)) => if after.state == State::WaitClientInfo {
                (after, Ok(StepView { response: response + step.response, event: step.event }))
            } else {
                setup_run(after, messages.skip(1), response + step.response)
            },
        }
    }
}

/// Whether the setup of the domain is under way.
pub open spec fn in_setup(s: AcceptorView) -> bool {
    s.state == State::WaitErectDomainRequest || s.state == State::WaitAttachUserRequest
        || s.state is WaitChannelJoinRequest
}

/// What a message does that stands at `p`: the same wherever it stands.
proof fn lemma_setup_message(s: AcceptorView, b: Seq<u8>, p: int, m: DomainMessage)
    requires
        in_setup(s),
        bytes::holds_at(b, p, m.wire()),
    ensures
        m.wire().len() > 0,
        leaves(b, p) == leaves(m.wire(), 0),
        !leaves(b, p) ==> match domain_step(s, m.wire(), 0) {
            Ok((did, q)) => q == m.wire().len() && domain_step(s, b, p) == Ok::<
                ((AcceptorView, Seq<u8>), int),
                DecodeError,
            >((did, p + q)) && (did.0.state == State::WaitClientInfo || in_setup(did.0)),
            Err(e) => domain_step(s, b, p) == Err::<((AcceptorView, Seq<u8>), int), DecodeError>(e),
        },
{
    let w = m.wire();
    bytes::lemma_holds_bounds(b, p, w);
    bytes::lemma_holds_self(w);
    match m {
        DomainMessage::Erect(r) => {
            assert(w[0] == mcs::choice(DomainMcsPdu::ErectDomainRequest, 0));
            mcs::law_erect_domain_round_trip(b, p, r);
            mcs::law_erect_domain_round_trip(w, 0, r);
        },
        DomainMessage::Attach => {
            assert(w[0] == mcs::choice(DomainMcsPdu::AttachUserRequest, 0));
            mcs::law_attach_user_round_trip(b, p, AttachUserRequest);
            mcs::law_attach_user_round_trip(w, 0, AttachUserRequest);
        },
        DomainMessage::Join(r) => {
            assert(w[0] == mcs::choice(DomainMcsPdu::ChannelJoinRequest, 0));
            mcs::law_channel_join_round_trip(b, p, r);
            mcs::law_channel_join_round_trip(w, 0, r);
            assert(w.len() == 5) by {
                broadcast use bytes::group_bytes;

            }
        },
        DomainMessage::Leave(r) => {
            assert(w[0] == mcs::choice(
                DomainMcsPdu::DisconnectProviderUltimatum,
                (r.reason / 2) % 4,
            ));
        },
    }
    assert(b.subrange(p, p + w.len())[0] == b[p]);
}

/// What a message does that comes alone.
proof fn lemma_setup_alone(s: AcceptorView, m: DomainMessage)
    requires
        in_setup(s),
    ensures
        ({
            let alone = stepped(s, x224::data_message(m.wire()));
            if leaves(m.wire(), 0) {
                alone == decoded(domain_steps(s, m.wire(), 0, seq![])) && alone.1 is Err
                    && alone.0 == s.at(State::Rejected)
            } else {
                match domain_step(s, m.wire(), 0) {
                    Ok(((after, reply), _)) => alone == (
                        after,
                        Ok::<StepView, ConnectorError>(
                            StepView { response: reply, event: EventView::Nothing },
                        ),
                    ),
                    Err(e) => alone == (
                        s.at(State::Rejected),
                        Err::<StepView, ConnectorError>(ConnectorError::Decode(e)),
                    ),
                }
            }
        }),
{
    let w = m.wire();
    x224::law_data_round_trip(w);
    bytes::lemma_holds_self(w);
    lemma_setup_message(s, w, 0, m);
    lemma_domain_step_moves(s, w, 0);
    if !leaves(w, 0) {
        match domain_step(s, w, 0) {
            Ok(((after, reply), q)) => {
                assert(Seq::<u8>::empty() + reply =~= reply);
                if after.state != State::WaitClientInfo {
                    assert(domain_steps(s, w, 0, seq![]) == domain_steps(
                        after,
                        w,
                        q,
                        seq![] + reply,
                    ));
                }
            },
            Err(_) => {},
        }
    }
}

proof fn lemma_setup_batch(
    s: AcceptorView,
    b: Seq<u8>,
    p: int,
    messages: Seq<DomainMessage>,
    response: Seq<u8>,
)
    requires
        in_setup(s),
        0 <= p,
        bytes::holds_at(b, p, setup_wire(messages)),
        p + setup_wire(messages).len() == b.len(),
    ensures
        decoded(domain_steps(s, b, p, response)) == setup_run(s, messages, response),
    decreases messages.len(),
{
    if messages.len() > 0 {
        let m = messages[0];
        let rest = messages.skip(1);
        bytes::lemma_holds_add(b, p, m.wire(), setup_wire(rest));
        bytes::lemma_holds_bounds(b, p, m.wire());
        lemma_setup_message(s, b, p, m);
        lemma_setup_alone(s, m);
        lemma_domain_step_moves(s, b, p);
        if !leaves(b, p) {
            match domain_step(s, m.wire(), 0) {
                Ok(((after, reply), q)) => {
                    if after.state != State::WaitClientInfo {
                        lemma_setup_batch(after, b, p + q, rest, response + reply);
                    }
                },
                Err(_) => {},
            }
        }
    }
}

/// Messages of the setup of the domain that come together are handled as if they
/// had come one by one, whatever they are and in whatever order.
pub proof fn law_setup_batch(s: AcceptorView, messages: Seq<DomainMessage>)
    requires
        in_setup(s),
    ensures
        stepped(s, x224::data_message(setup_wire(messages))) == setup_run(s, messages, seq![]),
{
    let b = setup_wire(messages);
    x224::law_data_round_trip(b);
    bytes::lemma_holds_self(b);
    lemma_setup_batch(s, b, 0, messages, seq![]);
}

/// What is held of a Confirm Active message that comes in parts never grows over
/// the limit, whatever a client sends.
pub proof fn law_confirm_active_bound(s: AcceptorView, input: Seq<u8>)
    requires
        s.confirm_active.len() <= MAX_CONFIRM_ACTIVE_LEN,
    ensures
        stepped(s, input).0.confirm_active.len() <= MAX_CONFIRM_ACTIVE_LEN,
{
    match x224::parse_data(input) {
        Err(_) => {},
        Ok(payload) => {
            lemma_share_steps_bound(s, payload, 0, seq![]);
            lemma_domain_steps_bound(s, payload, 0, seq![]);
        },
    }
}

proof fn lemma_share_steps_bound(s: AcceptorView, b: Seq<u8>, p: int, response: Seq<u8>)
    requires
        s.confirm_active.len() <= MAX_CONFIRM_ACTIVE_LEN,
    ensures
        share_steps(s, b, p, response).0.confirm_active.len() <= MAX_CONFIRM_ACTIVE_LEN,
    decreases b.len() - p,
{
    if 0 <= p < b.len() {
        lemma_send_data_moves(b, p);
        match mcs::parse_send_data(b, p, DomainMcsPdu::SendDataRequest) {
            Err(_) => {},
            Ok((sent, q)) => match share_step(s, sent) {
                (_, Err(_)) => {},
                (after, Ok(step)) => {
                    if !(step.event is Accepted) {
                        lemma_share_steps_bound(after, b, q, response + step.response);
                    }
                },
            },
        }
    }
}

proof fn lemma_domain_steps_bound(s: AcceptorView, b: Seq<u8>, p: int, response: Seq<u8>)
    ensures
        domain_steps(s, b, p, response).0.confirm_active == s.confirm_active,
    decreases b.len() - p,
{
    if 0 <= p < b.len() && !leaves(b, p) {
        lemma_domain_step_moves(s, b, p);
        match domain_step(s, b, p) {
            Err(_) => {},
            Ok(((after, reply), q)) => {
                if after.state != State::WaitClientInfo {
                    lemma_domain_steps_bound(after, b, q, response + reply);
                }
            },
        }
    }
}

/// Whether data is a message of the finalization of this kind.
pub open spec fn is_data(sent: SendDataView, pdu_type2: ShareDataPduType) -> bool {
    &&& sent.channel_id == IO_CHANNEL_ID
    &&& !is_other(sent.data, ShareControlPduType::Data)
    &&& finalization::parse_data_pdu(sent.data) matches Ok(data) && data.pdu_type2 == pdu_type2
}

/// Whether data asks for control.
pub open spec fn asks_for_control(sent: SendDataView) -> bool {
    &&& is_data(sent, ShareDataPduType::Control)
    &&& finalization::parse_data_pdu(sent.data) matches Ok(data) && ControlPdu::parse(
        data.body,
    ) matches Ok(control) && control.action == ControlPdu::REQUEST_CONTROL
}

/// During the finalization nothing fails. A request for control is granted where
/// none was yet, a font list ends the sequence, and whatever else comes is let
/// pass: it changes nothing, and nothing is sent.
pub proof fn law_finalization(s: AcceptorView, sent: SendDataView, granted_control_sent: bool)
    requires
        s.state == (State::WaitFinalization { granted_control_sent }),
    ensures
        share_step(s, sent) == (if asks_for_control(sent) && !granted_control_sent {
            (
                s.at(State::WaitFinalization { granted_control_sent: true }),
                Ok::<StepView, DecodeError>(
                    StepView {
                        response: io_message(granted_control_wire()),
                        event: EventView::Nothing,
                    },
                ),
            )
        } else if is_data(sent, ShareDataPduType::FontList) {
            (
                s.at(State::Accepted),
                Ok(
                    StepView {
                        response: io_message(font_map_wire()) + io_message(session_info_wire()),
                        event: EventView::Accepted(accepted(s)),
                    },
                ),
            )
        } else {
            ignored(s)
        }),
{
}

/// Control is granted once: after that, whatever comes up to the end of the
/// sequence is answered with nothing, and its end as it always is.
pub proof fn law_control_once(s: AcceptorView, sends: Seq<SendDataView>, response: Seq<u8>)
    requires
        s.state == (State::WaitFinalization { granted_control_sent: true }),
    ensures
        share_run(s, sends, response) == (if exists|i: int|
            0 <= i < sends.len() && is_data(#[trigger] sends[i], ShareDataPduType::FontList) {
            (
                s.at(State::Accepted),
                Ok::<StepView, DecodeError>(
                    StepView {
                        response: response + (io_message(font_map_wire()) + io_message(
                            session_info_wire(),
                        )),
                        event: EventView::Accepted(accepted(s)),
                    },
                ),
            )
        } else {
            (s, Ok(StepView { response, event: EventView::Nothing }))
        }),
    decreases sends.len(),
{
    if sends.len() > 0 {
        let first = sends[0];
        let rest = sends.skip(1);
        law_finalization(s, first, true);
        if !is_data(first, ShareDataPduType::FontList) {
            assert(response + Seq::<u8>::empty() =~= response);
            law_control_once(s, rest, response);
            assert forall|i: int|
                0 <= i < rest.len() && is_data(
                    #[trigger] rest[i],
                    ShareDataPduType::FontList,
                ) implies is_data(sends[i + 1], ShareDataPduType::FontList) by {}
            assert forall|i: int|
                0 <= i < sends.len() && is_data(
                    #[trigger] sends[i],
                    ShareDataPduType::FontList,
                ) implies is_data(rest[i - 1], ShareDataPduType::FontList) by {}
        }
    }
}

/// A message on the channel for the session as a whole is fifteen bytes of framing,
/// where its body is as long as that of a Demand Active, and the body.
proof fn lemma_io_message(body: Seq<u8>)
    requires
        128 <= body.len() < 30000,
    ensures
        io_message(body).len() == 15 + body.len(),
        io_message(body)[0] == 3,
        256 * io_message(body)[2] + io_message(body)[3] == 15 + body.len(),
        io_message(body)[7] == 104,
        256 * io_message(body)[8] + io_message(body)[9] == 1,
        256 * io_message(body)[10] + io_message(body)[11] == 1003,
        256 * (io_message(body)[13] - 128) + io_message(body)[14] == body.len(),
        io_message(body).skip(15) == body,
{
    reveal(bytes::be16);
    crate::per::law_length_bytes(body, 0, body.len() as usize);
    let w = mcs::send_data_wire(DomainMcsPdu::SendDataIndication, USER_CHANNEL_ID, IO_CHANNEL_ID, body);
    let u = crate::per::u16_bytes(USER_CHANNEL_ID, 1001);
    let c = crate::per::u16_bytes(IO_CHANNEL_ID, 0);
    assert(u.len() == 2 && c.len() == 2);
    assert(w.len() == 8 + body.len());
    assert(io_message(body).skip(15) =~= body);
}

/// A Demand Active message advertises the size of the desktop that the acceptor has
/// been given, width before height, at their place in the bitmap capability set, and
/// the other capabilities at theirs. It is the size that the connection is reported
/// with once it stands.
pub proof fn law_approved_size(a: &mut Acceptor, r: Result<Vec<u8>, ConnectorError>)
    requires
        call_ensures(Acceptor::approve_client_info, (a,), r),
        old(a)@.state == State::WaitAuthApproval,
    ensures
        r is Ok,
        r->Ok_0@.len() == 298,
        bytes::u16_le_at(r->Ok_0@, 17) == 17,
        bytes::u16_le_at(r->Ok_0@, 58) == 2,
        bytes::u16_le_at(r->Ok_0@, 62) == 32,
        bytes::u16_le_at(r->Ok_0@, 70) == old(a)@.desktop_width,
        bytes::u16_le_at(r->Ok_0@, 72) == old(a)@.desktop_height,
        final(a)@.state == State::WaitConfirmActive,
        accepted(final(a)@).desktop_width == old(a)@.desktop_width,
        accepted(final(a)@).desktop_height == old(a)@.desktop_height,
{
    lemma_demand_active(old(a)@.desktop_width, old(a)@.desktop_height);
}

/// What the server says of the desktop is its width as the width and its height as the
/// height.
pub proof fn law_advertised_size(width: u16, height: u16)
    ensures
        server_capabilities(width, height).bitmap.desktop_width == width,
        server_capabilities(width, height).bitmap.desktop_height == height,
{
}

proof fn lemma_demand_active(width: u16, height: u16)
    ensures
        ({
            let b = io_message(demand_active_wire(width, height));
            &&& b.len() == 298
            &&& bytes::u16_le_at(b, 17) == 17
            &&& bytes::u16_le_at(b, 58) == 2
            &&& bytes::u16_le_at(b, 62) == 32
            &&& bytes::u16_le_at(b, 70) == width
            &&& bytes::u16_le_at(b, 72) == height
        }),
{
    let c = server_capabilities(width, height);
    let d = DemandActive {
        share_id: SHARE_ID,
        pdu_source: IO_CHANNEL_ID,
        capabilities: &c,
    };
    capability_sets::law_demand_active_layout(d);
    let w = demand_active_wire(width, height);
    let b = io_message(w);
    lemma_io_message(w);
    assert(forall|i: int| 0 <= i < w.len() ==> b[15 + i] == #[trigger] w[i]);
    assert(b[17] == w[2] && b[18] == w[3]);
    assert(b[58] == w[43] && b[59] == w[44]);
    assert(b[62] == w[47] && b[63] == w[48]);
    assert(b[70] == w[55] && b[71] == w[56]);
    assert(b[72] == w[57] && b[73] == w[58]);
}

proof fn lemma_short_io_message(body: Seq<u8>)
    requires
        body.len() < 128,
    ensures
        io_message(body).len() == 14 + body.len(),
        io_message(body)[0] == 3,
        256 * io_message(body)[2] + io_message(body)[3] == 14 + body.len(),
        io_message(body)[7] == 104,
        256 * io_message(body)[8] + io_message(body)[9] == 1,
        256 * io_message(body)[10] + io_message(body)[11] == 1003,
        io_message(body)[13] == body.len(),
        io_message(body).skip(14) == body,
{
    reveal(bytes::be16);
    crate::per::law_length_bytes(body, 0, body.len() as usize);
    let w = mcs::send_data_wire(
        DomainMcsPdu::SendDataIndication,
        USER_CHANNEL_ID,
        IO_CHANNEL_ID,
        body,
    );
    let u = crate::per::u16_bytes(USER_CHANNEL_ID, 1001);
    let c = crate::per::u16_bytes(IO_CHANNEL_ID, 0);
    assert(u.len() == 2 && c.len() == 2);
    assert(w.len() == 7 + body.len());
    assert(io_message(body).skip(14) =~= body);
}

/// A connection whose size changes is deactivated first, by a message of its own; what
/// is then demanded advertises the new size, width before height, and the new size is
/// what the connection is reported with once it stands again.
pub proof fn law_resized(
    a: &mut Acceptor,
    desktop_width: u16,
    desktop_height: u16,
    r: Result<Vec<u8>, ConnectorError>,
)
    requires
        call_ensures(Acceptor::begin_resize, (a, desktop_width, desktop_height), r),
        old(a)@.state == State::Accepted,
    ensures
        r is Ok,
        r->Ok_0@.len() == 324,
        bytes::u16_le_at(r->Ok_0@, 14) == 12,
        bytes::u16_le_at(r->Ok_0@, 16) == 22,
        bytes::u16_le_at(r->Ok_0@, 18) == 1003,
        bytes::u32_le_at(r->Ok_0@, 20) == 0x10000,
        bytes::u16_le_at(r->Ok_0@, 43) == 17,
        bytes::u16_le_at(r->Ok_0@, 84) == 2,
        bytes::u16_le_at(r->Ok_0@, 96) == desktop_width,
        bytes::u16_le_at(r->Ok_0@, 98) == desktop_height,
        final(a)@.state == State::WaitConfirmActive,
        final(a)@.static_channel_names == old(a)@.static_channel_names,
        final(a)@.client_name == old(a)@.client_name,
        accepted(final(a)@).desktop_width == desktop_width,
        accepted(final(a)@).desktop_height == desktop_height,
{
    let d = DeactivateAllPdu { share_id: SHARE_ID, pdu_source: IO_CHANNEL_ID };
    let w = d.wire();
    capability_sets::law_deactivate_all_layout(d);
    lemma_short_io_message(w);
    let first = io_message(w);
    let second = io_message(demand_active_wire(desktop_width, desktop_height));
    lemma_demand_active(desktop_width, desktop_height);
    let b = r->Ok_0@;
    assert(b == first + second);
    assert(forall|i: int| 0 <= i < 12 ==> first[14 + i] == #[trigger] w[i]);
    assert(b[14] == w[0] && b[15] == w[1] && b[16] == w[2] && b[17] == w[3] && b[18] == w[4]
        && b[19] == w[5] && b[20] == w[6] && b[21] == w[7] && b[22] == w[8] && b[23] == w[9]);
    assert(b[43] == second[17] && b[44] == second[18]);
    assert(b[84] == second[58] && b[85] == second[59]);
    assert(b[96] == second[70] && b[97] == second[71]);
    assert(b[98] == second[72] && b[99] == second[73]);
}

/// Until the client has been heard, and once it has been let in, the connection is
/// neither approved nor resized.
pub proof fn law_not_ready(
    a: &mut Acceptor,
    r: Result<Vec<u8>, ConnectorError>,
    z: &mut Acceptor,
    width: u16,
    height: u16,
    q: Result<Vec<u8>, ConnectorError>,
    t: &mut Acceptor,
)
    requires
        call_ensures(Acceptor::approve_client_info, (a,), r),
        call_ensures(Acceptor::begin_resize, (z, width, height), q),
        call_ensures(Acceptor::reject_client_info, (t,), ()),
    ensures
        r is Ok <==> old(a)@.state == State::WaitAuthApproval,
        r is Err ==> r->Err_0 is NotReady && final(a)@ == old(a)@,
        q is Ok <==> old(z)@.state == State::Accepted,
        q is Err ==> q->Err_0 is NotReady && final(z)@ == old(z)@,
        old(t)@.state == State::WaitAuthApproval ==> final(t)@.state == State::Rejected,
        old(t)@.state != State::WaitAuthApproval ==> final(t)@ == old(t)@,
{
}

/// A new acceptor waits for a first request, lets TLS alone do unless it is told not to,
/// and asks for more than TLS only where network level authentication was chosen.
pub proof fn law_new(
    width: u16,
    height: u16,
    a: Acceptor,
    require_nla: bool,
    b: Acceptor,
    c: &Acceptor,
    credssp: bool,
    finished: bool,
)
    requires
        call_ensures(Acceptor::new, (width, height), a),
        call_ensures(Acceptor::with_require_nla, (a, require_nla), b),
        call_ensures(Acceptor::requires_credssp, (c,), credssp),
        call_ensures(Acceptor::is_finished, (c,), finished),
    ensures
        a@.state == State::WaitConnectionRequest,
        a@.desktop_width == width,
        a@.desktop_height == height,
        a@.static_channel_names.len() == 0,
        a@.client_requested_protocols == 1,
        a@.selected_protocol.0 == 1,
        !a@.require_nla,
        a@.max_request_size is None,
        b@.require_nla == require_nla,
        b@.state == a@.state,
        b@.desktop_width == width,
        b@.desktop_height == height,
        credssp <==> c@.selected_protocol.0 / 2 % 2 == 1,
        finished <==> c@.state is Accepted || c@.state is Rejected,
{
    x224::law_protocol_numbers(c@.selected_protocol, c@.selected_protocol);
    x224::law_protocol_numbers(a@.selected_protocol, c@.selected_protocol);
}

/// Network level authentication is chosen where it is offered, and TLS where only that
/// is and will do. A client that offers neither is told that the one or the other is
/// missing, and the sequence is over.
pub proof fn law_choice(a: &mut Acceptor, input: &[u8], r: Result<StepResult, ConnectorError>)
    requires
        call_ensures(Acceptor::step, (a, input), r),
        old(a)@.wf(),
        old(a)@.state == State::WaitConnectionRequest,
    ensures
        r is Ok <==> x224::parse_request(input@) is Ok,
        r is Err ==> final(a)@ == old(a)@,
        r is Ok ==> ({
            let offered = x224::parse_request(input@)->Ok_0.protocol.0;
            let out = r->Ok_0@.response;
            &&& out.len() == 19
            &&& out[5] == 0xD0
            &&& if offered / 2 % 2 == 1 {
                &&& out[11] == 2
                &&& bytes::u32_le_at(out, 15) == 2
                &&& r->Ok_0@.event is TlsUpgrade
                &&& final(a)@.selected_protocol.0 == 2
                &&& final(a)@.client_requested_protocols == offered
                &&& final(a)@.state == State::WaitConnectInitial
            } else if offered % 2 == 1 && !old(a)@.require_nla {
                &&& out[11] == 2
                &&& bytes::u32_le_at(out, 15) == 1
                &&& r->Ok_0@.event is TlsUpgrade
                &&& final(a)@.selected_protocol.0 == 1
                &&& final(a)@.client_requested_protocols == offered
                &&& final(a)@.state == State::WaitConnectInitial
            } else {
                &&& out[11] == 3
                &&& old(a)@.require_nla ==> bytes::u32_le_at(out, 15) == 5
                &&& !old(a)@.require_nla ==> bytes::u32_le_at(out, 15) == 1
                &&& r->Ok_0@.event is Rejected
                &&& final(a)@.state == State::Rejected
            }
        }),
{
    if let Ok(request) = x224::parse_request(input@) {
        x224::law_protocol_numbers(request.protocol, request.protocol);
        x224::law_confirm_layout(
            ConnectionConfirm::Response {
                flags: ResponseFlags(0),
                protocol: SecurityProtocol::hybrid(),
            },
        );
        x224::law_confirm_layout(
            ConnectionConfirm::Response {
                flags: ResponseFlags(0),
                protocol: SecurityProtocol::ssl(),
            },
        );
        x224::law_confirm_layout(refusal(old(a)@.require_nla));
    }
}

/// The channels that a client lists get the numbers from 1004 on, in the order of the
/// list, and the one for messages, where it asks for one, the number after these. The
/// client is told of these numbers, of the channel 1003 for updates and input, and of the
/// protocols that it had offered.
pub proof fn law_numbered(a: &mut Acceptor, input: &[u8], r: Result<StepResult, ConnectorError>)
    requires
        call_ensures(Acceptor::step, (a, input), r),
        old(a)@.wf(),
        old(a)@.state == State::WaitConnectInitial,
    ensures
        r is Ok <==> parse_initial_blocks(input@) is Ok,
        r is Err ==> final(a)@ == old(a)@,
        r is Ok ==> ({
            let blocks = parse_initial_blocks(input@)->Ok_0;
            let s = final(a)@;
            let n = match blocks.network {
                Some(channels) => channels.len() as int,
                None => 0int,
            };
            &&& s.state == State::WaitErectDomainRequest
            &&& s.client_name == blocks.core.client_name
            &&& s.desktop_width == old(a)@.desktop_width
            &&& s.desktop_height == old(a)@.desktop_height
            &&& accepted(s).static_channels.len() == n
            &&& forall|i: int|
                0 <= i < n ==> (#[trigger] accepted(s).static_channels[i]).0
                    == blocks.network->Some_0[i].name && accepted(s).static_channels[i].1 == 1004
                    + i
            &&& s.message_channel_id is Some <==> blocks.message_channel is Some
            &&& s.message_channel_id is Some ==> s.message_channel_id->Some_0 == 1004 + n
            &&& r->Ok_0@.response == connect_response_message(s)
            &&& r->Ok_0@.event is Nothing
        }),
{
    let s = final(a)@;
    assert(s.wf());
    if let Ok(blocks) = parse_initial_blocks(input@) {
        assert(s.static_channel_names == listed_names(blocks));
        assert(forall|i: int|
            0 <= i < s.static_channel_names.len() ==> (#[trigger] accepted(s).static_channels[i]).1
                == channel_number(i));
    }
}

/// What the client is told of: version 8.4 of the protocol, what it had offered, the
/// channel 1003, the channels from 1004 on, and the channel for messages.
pub proof fn law_server_blocks(s: AcceptorView, i: int)
    requires
        s.wf(),
        0 <= i < s.static_channel_names.len(),
    ensures
        server_blocks(s).core.version == 0x80004,
        server_blocks(s).core.client_requested_protocols == Some(s.client_requested_protocols),
        server_blocks(s).network.io_channel_id == 1003,
        server_blocks(s).network.channel_ids.len() == s.static_channel_names.len(),
        server_blocks(s).network.channel_ids[i] == 1004 + i,
        server_blocks(s).network.channel_ids[i] == accepted(s).static_channels[i].1,
        server_blocks(s).message_channel is Some <==> s.message_channel_id is Some,
        s.message_channel_id matches Some(id) ==> server_blocks(
            s,
        ).message_channel->Some_0.mcs_channel_id == id,
{
}

/// A client that asks to be attached gets the number 1002, and has to join its own
/// channel, the one for updates and input, the static ones, and the one for messages
/// where there is one. Every channel that it joins is confirmed by its number.
pub proof fn law_attached(s: AcceptorView, b: Seq<u8>, p: int)
    requires
        s.wf(),
        s.state == State::WaitAttachUserRequest,
        mcs::parse_attach_user(b, p) is Ok,
    ensures
        domain_step(s, b, p) is Ok,
        ({
            let ((after, out), q) = domain_step(s, b, p)->Ok_0;
            &&& out == seq![3u8, 0, 0, 11, 2, 0xF0, 0x80, 46, 0, 0, 1]
            &&& after.state is WaitChannelJoinRequest
            &&& after.state->remaining == s.static_channel_names.len() + (
            if s.message_channel_id is Some {
                3int
            } else {
                2
            })
        }),
{
    reveal(bytes::be16);
    let ((after, out), q) = domain_step(s, b, p)->Ok_0;
    assert(out =~= seq![3u8, 0, 0, 11, 2, 0xF0, 0x80, 46, 0, 0, 1]);
}

/// Every channel that a client joins is confirmed by its number and with the number that
/// the client gives as its own, until none is left to be joined.
pub proof fn law_joined(s: AcceptorView, b: Seq<u8>, p: int, remaining: u32)
    requires
        s.state == (State::WaitChannelJoinRequest { remaining }),
        mcs::parse_channel_join(b, p) is Ok,
        mcs::parse_channel_join(b, p)->Ok_0.0.initiator >= 1001,
    ensures
        domain_step(s, b, p) is Ok,
        ({
            let ((after, out), q) = domain_step(s, b, p)->Ok_0;
            let request = mcs::parse_channel_join(b, p)->Ok_0.0;
            &&& out.len() == 15
            &&& out[7] == 62
            &&& out[8] == 0
            &&& 256 * out[9] + out[10] == request.initiator - 1001
            &&& 256 * out[11] + out[12] == request.channel_id
            &&& 256 * out[13] + out[14] == request.channel_id
            &&& remaining > 1 ==> after.state == (State::WaitChannelJoinRequest {
                remaining: (remaining - 1) as u32,
            })
            &&& remaining <= 1 ==> after.state == State::WaitClientInfo
        }),
{
    reveal(bytes::be16);
    let ((after, out), q) = domain_step(s, b, p)->Ok_0;
    let request = mcs::parse_channel_join(b, p)->Ok_0.0;
    let w = ChannelJoinConfirm {
        result: 0,
        initiator: request.initiator,
        requested_channel_id: request.channel_id,
        channel_id: request.channel_id,
    }.wire();
    assert(w.len() == 8);
    assert(out[7] == w[0] && out[8] == w[1] && out[9] == w[2] && out[10] == w[3] && out[11] == w[4]
        && out[12] == w[5] && out[13] == w[6] && out[14] == w[7]);
}

/// A client that logs on is told that it needs no license, and what it logs on with is
/// reported as it came.
pub proof fn law_logged_on(a: &mut Acceptor, input: &[u8], r: Result<StepResult, ConnectorError>)
    requires
        call_ensures(Acceptor::step, (a, input), r),
        old(a)@.wf(),
        old(a)@.state == State::WaitClientInfo,
    ensures
        r is Ok <==> parse_client_info(input@) is Ok,
        r is Err ==> final(a)@ == old(a)@,
        r is Ok ==> ({
            let info = parse_client_info(input@)->Ok_0;
            &&& final(a)@ == (AcceptorView { state: State::WaitAuthApproval, ..old(a)@ })
            &&& r->Ok_0@.event is ClientInfoReceived
            &&& r->Ok_0@.event->ClientInfoReceived_0.domain == info.domain
            &&& r->Ok_0@.event->ClientInfoReceived_0.username == info.username
            &&& r->Ok_0@.event->ClientInfoReceived_0.password == info.password
            &&& r->Ok_0@.response == io_message(licensing::valid_client_wire())
        }),
{
}

/// What a connection is reported with: the channels 1003 and 1002, the share 0x10000, the
/// size, the name of the client, and how much it takes at once.
pub proof fn law_report(s: AcceptorView, i: int)
    requires
        s.wf(),
    ensures
        accepted(s).io_channel_id == 1003,
        accepted(s).user_channel_id == 1002,
        accepted(s).share_id == 0x10000,
        accepted(s).desktop_width == s.desktop_width,
        accepted(s).desktop_height == s.desktop_height,
        accepted(s).client_name == s.client_name,
        accepted(s).max_request_size == s.max_request_size,
        accepted(s).static_channels.len() == s.static_channel_names.len(),
        0 <= i < s.static_channel_names.len() ==> accepted(s).static_channels[i] == (
            s.static_channel_names[i],
            (1004 + i) as u16,
        ),
{
}

/// The parts of a data message that the server sends while the sequence ends.
proof fn lemma_data_message(kind: ShareDataPduType, body: Seq<u8>)
    requires
        body.len() < 110,
    ensures
        ({
            let b = io_message(data_wire(kind, body));
            &&& b.len() == 32 + body.len()
            &&& bytes::u16_le_at(b, 16) == 23
            &&& bytes::u16_le_at(b, 18) == 1003
            &&& bytes::u32_le_at(b, 20) == 0x10000
            &&& b[25] == 0
            &&& b[28] == kind.code()
            &&& b.skip(32) == body
        }),
{
    let d = DataPduView {
        share_id: SHARE_ID,
        pdu_source: IO_CHANNEL_ID,
        stream_id: STREAM_UNDEFINED,
        pdu_type2: kind,
        body,
    };
    finalization::law_data_pdu_layout(d);
    let w = data_wire(kind, body);
    lemma_short_io_message(w);
    let b = io_message(w);
    assert(forall|i: int| 0 <= i < w.len() ==> b[14 + i] == #[trigger] w[i]);
    assert(b[16] == w[2] && b[17] == w[3] && b[18] == w[4] && b[19] == w[5]);
    assert(b[20] == w[6] && b[21] == w[7] && b[22] == w[8] && b[23] == w[9]);
    assert(b[25] == w[11] && b[28] == w[14]);
    assert(b.skip(32) =~= w.skip(18));
}

/// When what a client can do is known, the server synchronizes with it, and says that it
/// cooperates.
pub proof fn law_confirmed(s: AcceptorView, sent: SendDataView)
    requires
        s.state == State::WaitConfirmActive,
        sent.channel_id == 1003,
        sent.complete,
        !is_other(sent.data, ShareControlPduType::ConfirmActive),
        s.confirm_active.len() + sent.data.len() <= 1048576,
        parse_confirm(s.confirm_active + sent.data) is Ok,
    ensures
        share_step(s, sent).1 is Ok,
        ({
            let (after, r) = share_step(s, sent);
            let out = r->Ok_0.response;
            let confirm = parse_confirm(s.confirm_active + sent.data)->Ok_0;
            &&& after.state == (State::WaitFinalization { granted_control_sent: false })
            &&& after.confirm_active.len() == 0
            &&& after.max_request_size == capability_sets::max_request_size(confirm.capabilities)
            &&& after.desktop_width == s.desktop_width
            &&& after.desktop_height == s.desktop_height
            &&& out.len() == 76
            &&& out[28] == 31
            &&& bytes::u16_le_at(out, 32) == 1
            &&& bytes::u16_le_at(out, 34) == 1002
            &&& out[64] == 20
            &&& bytes::u16_le_at(out, 68) == 4
            &&& bytes::u16_le_at(out, 70) == 0
            &&& bytes::u32_le_at(out, 72) == 0
        }),
{
    let s_body = SynchronizePdu { target_user: USER_CHANNEL_ID };
    let c_body = ControlPdu { action: ControlPdu::COOPERATE, grant_id: 0, control_id: 0 };
    let fonts = FontPdu { number_fonts: 0, total_num_fonts: 0, flags: 3, entry_size: 4 };
    finalization::law_body_layout(s_body, c_body, fonts);
    let sync = s_body.wire();
    let control = c_body.wire();
    lemma_data_message(ShareDataPduType::Synchronize, sync);
    lemma_data_message(ShareDataPduType::Control, control);
    let one = io_message(synchronize_wire());
    let two = io_message(cooperate_wire());
    let out = share_step(s, sent).1->Ok_0.response;
    assert(out == one + two);
    assert(forall|i: int| 0 <= i < sync.len() ==> one[32 + i] == #[trigger] sync[i]);
    assert(forall|i: int| 0 <= i < control.len() ==> two[32 + i] == #[trigger] control[i]);
    assert(out[32] == sync[0] && out[33] == sync[1] && out[34] == sync[2] && out[35] == sync[3]);
    assert(out[68] == control[0] && out[69] == control[1] && out[70] == control[2] && out[71]
        == control[3]);
    assert(out[72] == control[4] && out[73] == control[5] && out[74] == control[6] && out[75]
        == control[7]);
    assert(out[64] == two[28]);
}

/// A client that asks for control gets it, under the number 1002, and only once.
pub proof fn law_granted(s: AcceptorView, sent: SendDataView, granted_control_sent: bool)
    requires
        s.state == (State::WaitFinalization { granted_control_sent }),
        asks_for_control(sent),
    ensures
        share_step(s, sent).1 is Ok,
        granted_control_sent ==> share_step(s, sent) == ignored(s),
        !granted_control_sent ==> ({
            let (after, r) = share_step(s, sent);
            let out = r->Ok_0.response;
            &&& after == s.at(State::WaitFinalization { granted_control_sent: true })
            &&& out.len() == 40
            &&& out[28] == 20
            &&& bytes::u16_le_at(out, 32) == 2
            &&& bytes::u16_le_at(out, 34) == 1002
            &&& bytes::u32_le_at(out, 36) == 1002
        }),
{
    let c_body = ControlPdu {
        action: ControlPdu::GRANTED_CONTROL,
        grant_id: USER_CHANNEL_ID,
        control_id: USER_CHANNEL_ID as u32,
    };
    let fonts = FontPdu { number_fonts: 0, total_num_fonts: 0, flags: 3, entry_size: 4 };
    finalization::law_body_layout(SynchronizePdu { target_user: 0 }, c_body, fonts);
    let control = c_body.wire();
    lemma_data_message(ShareDataPduType::Control, control);
    let out = io_message(granted_control_wire());
    assert(forall|i: int| 0 <= i < control.len() ==> out[32 + i] == #[trigger] control[i]);
    assert(out[32] == control[0] && out[33] == control[1] && out[34] == control[2] && out[35]
        == control[3]);
    assert(out[36] == control[4] && out[37] == control[5] && out[38] == control[6] && out[39]
        == control[7]);
    law_finalization(s, sent, granted_control_sent);
}

/// What the server says it can do: it sends and takes messages of the short form, redraws
/// what it is asked to, and stops when it is not seen; the desktop has 32 bits per pixel
/// and may change its size; it caches 2048 pointers, takes scan codes and Unicode, sends
/// nothing in compressed channels, and takes messages of 8 MiB.
#[verifier::rlimit(40)]
pub proof fn law_capabilities(width: u16, height: u16)
    ensures
        ({
            let w = demand_active_wire(width, height);
            &&& w.len() == 283
            &&& bytes::u16_le_at(w, 4) == 1003
            &&& bytes::u32_le_at(w, 6) == 0x10000
            &&& bytes::u16_le_at(w, 33) == 1
            &&& w[41] == 1
            &&& w[42] == 1
            &&& bytes::u16_le_at(w, 47) == 32
            &&& bytes::u16_le_at(w, 55) == width
            &&& bytes::u16_le_at(w, 57) == height
            &&& bytes::u16_le_at(w, 61) == 1
            &&& bytes::u16_le_at(w, 165) == 2048
            &&& bytes::u16_le_at(w, 167) == 2048
            &&& bytes::u16_le_at(w, 173) == 57
            &&& bytes::u32_le_at(w, 177) == 0
            &&& bytes::u32_le_at(w, 181) == 0
            &&& bytes::u32_le_at(w, 185) == 0
            &&& bytes::u32_le_at(w, 189) == 0
            &&& bytes::u32_le_at(w, 261) == 0
            &&& bytes::u32_le_at(w, 269) == 8388608
        }),
{
    let c = server_capabilities(width, height);
    let d = DemandActive { share_id: SHARE_ID, pdu_source: IO_CHANNEL_ID, capabilities: &c };
    capability_sets::law_demand_active_layout(d);
    assert(1u16 | 8u16 | 0x20u16 | 0x10u16 == 57u16) by (bit_vector);
}

/// The text of what a client logs on with tells nothing of its password: it is the same
/// whatever that is.
pub proof fn law_redacted(a: &ClientCredentials, s: String, b: &ClientCredentials, t: String)
    requires
        call_ensures(ClientCredentials::debug_text, (a,), s),
        call_ensures(ClientCredentials::debug_text, (b,), t),
        a.domain@ == b.domain@,
        a.username@ == b.username@,
    ensures
        s@ == t@,
        s@ == "ClientCredentials { domain: "@ + render::quoted(a.domain@) + ", username: "@
            + render::quoted(a.username@) + ", password: \"[REDACTED]\" }"@,
{
}

/// What the sequence waits for, in a word.
pub proof fn law_phase(a: &Acceptor, r: &'static str)
    requires
        call_ensures(Acceptor::handshake_phase, (a,), r),
    ensures
        a@.state is WaitConnectionRequest ==> r@ == "connection-request"@,
        a@.state is WaitConnectInitial ==> r@ == "connect-initial"@,
        a@.state is WaitErectDomainRequest ==> r@ == "erect-domain"@,
        a@.state is WaitAttachUserRequest ==> r@ == "attach-user"@,
        a@.state is WaitChannelJoinRequest ==> r@ == "channel-join"@,
        a@.state is WaitClientInfo ==> r@ == "client-info"@,
        a@.state is WaitAuthApproval ==> r@ == "auth-approval"@,
        a@.state is WaitConfirmActive ==> r@ == "confirm-active"@,
        a@.state is WaitFinalization ==> r@ == "finalization"@,
        a@.state is Accepted ==> r@ == "accepted"@,
        a@.state is Rejected ==> r@ == "rejected"@,
{
}

/// The answer to a Connect-Initial: the connection 0, with 34 channels, two users, no
/// tokens, one priority, no least throughput, a height of one, messages of 65535 bytes and
/// the version 2, and a conference of the node 1002 with what the client is told.
pub proof fn law_connect_response(s: AcceptorView)
    ensures
        connect_response_message(s) == x224::data_message(
            ConnectResponseView {
                called_connect_id: 0,
                domain_parameters: DomainParameters {
                    max_channel_ids: 34,
                    max_user_ids: 2,
                    max_token_ids: 0,
                    num_priorities: 1,
                    min_throughput: 0,
                    max_height: 1,
                    max_mcs_pdu_size: 65535,
                    protocol_version: 2,
                },
                user_data: ConferenceCreateResponseView {
                    node_id: 1002,
                    server_gcc_blocks: server_blocks(s).wire(),
                }.wire(),
            }.wire(),
        ),
{
}

/// Messages that come together are answered in their order, and what was to be sent
/// before is sent first.
pub proof fn law_domain_in_order(s: AcceptorView, b: Seq<u8>, p: int, response: Seq<u8>)
    requires
        0 <= p <= b.len(),
        domain_steps(s, b, p, response).1 is Ok,
    ensures
        domain_steps(s, b, p, response).1->Ok_0.response.len() >= response.len(),
        domain_steps(s, b, p, response).1->Ok_0.response.take(response.len() as int) == response,
    decreases b.len() - p,
{
    let n = response.len() as int;
    if p < b.len() && !leaves(b, p) {
        lemma_domain_step_moves(s, b, p);
        if let Ok(((after, reply), q)) = domain_step(s, b, p) {
            assert((response + reply).take(n) =~= response);
            if after.state != State::WaitClientInfo {
                if 0 <= q <= b.len() {
                    law_domain_in_order(after, b, q, response + reply);
                }
                let out = domain_steps(after, b, q, response + reply).1->Ok_0.response;
                assert(out.take(n) =~= out.take((response + reply).len() as int).take(n));
            }
        }
    } else {
        assert(response.take(n) =~= response);
    }
}

/// The same holds of what comes in the last part of the sequence.
pub proof fn law_share_in_order(s: AcceptorView, b: Seq<u8>, p: int, response: Seq<u8>)
    requires
        0 <= p <= b.len(),
        share_steps(s, b, p, response).1 is Ok,
    ensures
        share_steps(s, b, p, response).1->Ok_0.response.len() >= response.len(),
        share_steps(s, b, p, response).1->Ok_0.response.take(response.len() as int) == response,
    decreases b.len() - p,
{
    let n = response.len() as int;
    if p < b.len() {
        lemma_send_data_moves(b, p);
        match mcs::parse_send_data(b, p, DomainMcsPdu::SendDataRequest) {
            Err(_) => {
                assert(response.take(n) =~= response);
            },
            Ok((sent, q)) => match share_step(s, sent) {
                (_, Err(_)) => {},
                (after, Ok(step)) => {
                    assert((response + step.response).take(n) =~= response);
                    if !(step.event is Accepted) {
                        law_share_in_order(after, b, q, response + step.response);
                        let out = share_steps(after, b, q, response + step.response).1->Ok_0.response;
                        assert(out.take(n) =~= out.take(
                            (response + step.response).len() as int,
                        ).take(n));
                    }
                },
            },
        }
    } else {
        assert(response.take(n) =~= response);
    }
}

} // verus!
