//! Dynamic channels over one static channel: the messages of the static
//! channel, and the state of all dynamic channels of one connection.

pub mod echo;
pub mod pdu;

use vstd::prelude::*;
use vstd::slice::slice_to_vec;
use vstd::string::*;

use crate::bytes;
use crate::model;
use crate::model::Held;
use crate::svc;
use crate::DecodeError;

verus! {

broadcast use model::lemma_views_push;

/// What a dynamic channel does. Payloads that it returns are sent on it.
pub trait DvcHandler: Send {
    fn channel_name(&self) -> &str;

    fn on_open(&mut self) -> Vec<Vec<u8>>;

    fn on_data(&mut self, data: &[u8]) -> Vec<Vec<u8>>;
}

/// A handler gives itself this name.
pub open spec fn goes_by<H: DvcHandler + ?Sized>(h: &H, name: Seq<char>) -> bool {
    exists|own: &str| own@ == name && #[trigger] call_ensures(H::channel_name, (h,), own)
}

/// A handler is told that its channel is open, and has these payloads to send.
pub open spec fn opened<H: DvcHandler + ?Sized>(h: &mut H, payloads: Vec<Vec<u8>>) -> bool {
    call_ensures(H::on_open, (h,), payloads)
}

/// A handler is given a payload, and has these payloads to send.
pub open spec fn fed<H: DvcHandler + ?Sized>(
    h: &mut H,
    data: Seq<u8>,
    payloads: Vec<Vec<u8>>,
) -> bool {
    exists|d: &[u8]| d@ == data && #[trigger] call_ensures(H::on_data, (h, d), payloads)
}

fn name_of<H: DvcHandler + ?Sized>(handler: &H) -> (name: &str)
    ensures
        goes_by(handler, name@),
{
    handler.channel_name()
}

fn open_up<H: DvcHandler + ?Sized>(handler: &mut H) -> (payloads: Vec<Vec<u8>>)
    ensures
        exists|h: &mut H|
            &*h == &*old(handler) && &*final(h) == &*final(handler) && #[trigger] opened(
                h,
                payloads,
            ),
{
    let payloads: Vec<Vec<u8>> = handler.on_open();
    assert(forall|h: &mut H| #[trigger]
        call_ensures(H::on_open, (h,), payloads) ==> opened(h, payloads));
    payloads
}

fn feed<H: DvcHandler + ?Sized>(handler: &mut H, data: &[u8]) -> (payloads: Vec<Vec<u8>>)
    ensures
        exists|h: &mut H|
            &*h == &*old(handler) && &*final(h) == &*final(handler) && #[trigger] fed(
                h,
                data@,
                payloads,
            ),
{
    let payloads: Vec<Vec<u8>> = handler.on_data(data);
    assert(forall|h: &mut H| #[trigger]
        call_ensures(H::on_data, (h, data), payloads) ==> fed(h, data@, payloads));
    payloads
}

struct ChannelSlot {
    id: u32,
    handler: Held<Box<dyn DvcHandler>>,
    /// The whole length and the bytes so far of a payload that came in part.
    reassembly: Option<(u32, Vec<u8>)>,
}

/// A dynamic channel: its number, and the whole length and the bytes so far of
/// a payload that came in part.
pub struct SlotView {
    pub id: u32,
    pub reassembly: Option<(u32, Seq<u8>)>,
}

spec fn slot_view(slot: ChannelSlot) -> SlotView {
    SlotView {
        id: slot.id,
        reassembly: match slot.reassembly {
            Some((total, bytes)) => Some((total, bytes@)),
            None => None,
        },
    }
}

spec fn slot_handlers(slots: Seq<ChannelSlot>) -> Seq<Held<Box<dyn DvcHandler>>> {
    Seq::new(slots.len(), |i: int| slots[i].handler)
}

spec fn slot_views(slots: Seq<ChannelSlot>) -> Seq<SlotView> {
    Seq::new(slots.len(), |i: int| slot_view(slots[i]))
}

/// The state of the dynamic channels of one connection.
pub struct MuxView {
    pub channel_id: u16,
    pub user_channel_id: u16,
    /// Bytes held of a message that is not complete.
    pub held: Seq<u8>,
    /// The number of the next channel to be opened.
    pub next_id: u32,
    pub negotiated: bool,
    /// How many channels wait for the negotiation to be over.
    pub waiting: nat,
    pub slots: Seq<SlotView>,
}

impl MuxView {
    /// There are numbers for all that wait, and no two channels share a number.
    pub open spec fn wf(self) -> bool {
        &&& self.next_id + self.waiting <= u32::MAX
        &&& forall|i: int| 0 <= i < self.slots.len() ==> (#[trigger] self.slots[i]).id < self.next_id
        &&& forall|i: int, j: int|
            0 <= i < j < self.slots.len() ==> (#[trigger] self.slots[i]).id != (
            #[trigger] self.slots[j]).id
    }
}

/// What a received message makes the dynamic channels do.
pub enum MuxEvent {
    Nothing,
    /// The negotiation is over: open the channels that wait.
    OpenWaiting,
    /// The channel at a position is open.
    Opened(usize),
    /// A payload is complete for the channel at a position.
    Deliver(usize, Vec<u8>),
}

pub enum MuxEventView {
    Nothing,
    OpenWaiting,
    Opened(int),
    Deliver(int, Seq<u8>),
}

impl View for MuxEvent {
    type V = MuxEventView;

    open spec fn view(&self) -> MuxEventView {
        match self {
            MuxEvent::Nothing => MuxEventView::Nothing,
            MuxEvent::OpenWaiting => MuxEventView::OpenWaiting,
            MuxEvent::Opened(i) => MuxEventView::Opened(*i as int),
            MuxEvent::Deliver(i, data) => MuxEventView::Deliver(*i as int, data@),
        }
    }
}

/// Where the channel with a number stands, from `i` on.
pub open spec fn position(slots: Seq<SlotView>, id: u32, i: int) -> Option<int>
    decreases slots.len() - i,
{
    if i < 0 || i >= slots.len() {
        None
    } else if slots[i].id == id {
        Some(i)
    } else {
        position(slots, id, i + 1)
    }
}

/// All channels but those with a number.
pub open spec fn without(slots: Seq<SlotView>, id: u32) -> Seq<SlotView>
    decreases slots.len(),
{
    if slots.len() == 0 {
        seq![]
    } else if slots[0].id == id {
        without(slots.skip(1), id)
    } else {
        seq![slots[0]] + without(slots.skip(1), id)
    }
}

/// What belongs to all channels but those with a number.
pub open spec fn keeping<T>(slots: Seq<SlotView>, owned: Seq<T>, id: u32) -> Seq<T>
    decreases slots.len(),
{
    if slots.len() == 0 {
        seq![]
    } else if slots[0].id == id {
        keeping(slots.skip(1), owned.skip(1), id)
    } else {
        seq![owned[0]] + keeping(slots.skip(1), owned.skip(1), id)
    }
}

/// What data does to a payload that came in part: what is then held of it, and
/// the payload where it is complete. Data that begins a payload gives the whole
/// length; other data adds to what is held, or is a payload of its own.
pub open spec fn assembled(
    reassembly: Option<(u32, Seq<u8>)>,
    data: Seq<u8>,
    total_length: Option<u32>,
) -> (Option<(u32, Seq<u8>)>, Option<Seq<u8>>) {
    match total_length {
        Some(total) => if bytes::low32(data.len() as int) >= total {
            (reassembly, Some(data))
        } else {
            (Some((total, data)), None)
        },
        None => match reassembly {
            Some((total, held)) => if bytes::low32((held + data).len() as int) >= total {
                (None, Some(held + data))
            } else {
                (Some((total, held + data)), None)
            },
            None => (None, Some(data)),
        },
    }
}

/// The state after data for a channel, and the payload that it completes.
pub open spec fn after_data(
    m: MuxView,
    channel_id: u32,
    data: Seq<u8>,
    total_length: Option<u32>,
) -> (MuxView, MuxEventView) {
    match position(m.slots, channel_id, 0) {
        None => (m, MuxEventView::Nothing),
        Some(i) => {
            let (reassembly, complete) = assembled(m.slots[i].reassembly, data, total_length);
            (
                MuxView {
                    slots: m.slots.update(i, SlotView { id: m.slots[i].id, reassembly }),
                    ..m
                },
                match complete {
                    Some(payload) => MuxEventView::Deliver(i, payload),
                    None => MuxEventView::Nothing,
                },
            )
        },
    }
}

/// The state after a message, and what is to be done.
pub open spec fn after_message(m: MuxView, message: pdu::ClientMessageView) -> (
    MuxView,
    MuxEventView,
) {
    match message {
        pdu::ClientMessageView::CapabilityResponse { version } => (
            MuxView { negotiated: true, ..m },
            MuxEventView::OpenWaiting,
        ),
        pdu::ClientMessageView::CreateResponse { channel_id, creation_status } => {
            if creation_status != 0 {
                (
                    MuxView { slots: without(m.slots, channel_id), ..m },
                    MuxEventView::Nothing,
                )
            } else {
                match position(m.slots, channel_id, 0) {
                    None => (m, MuxEventView::Nothing),
                    Some(i) => (m, MuxEventView::Opened(i)),
                }
            }
        },
        pdu::ClientMessageView::Data { channel_id, data } => after_data(m, channel_id, data, None),
        pdu::ClientMessageView::DataFirst { channel_id, total_length, data } => after_data(
            m,
            channel_id,
            data,
            Some(total_length),
        ),
        pdu::ClientMessageView::Close { channel_id } => (
            MuxView { slots: without(m.slots, channel_id), ..m },
            MuxEventView::Nothing,
        ),
        pdu::ClientMessageView::Other => (m, MuxEventView::Nothing),
    }
}

/// The state after a chunk of the static channel, and what is to be done.
pub open spec fn after_chunk(m: MuxView, payload: Seq<u8>) -> (
    MuxView,
    Result<MuxEventView, DecodeError>,
) {
    match svc::reassembled(m.held, payload, usize::MAX as int, "dvc.incoming_buffer") {
        (held, Err(e)) => (MuxView { held, ..m }, Err(e)),
        (held, Ok(None)) => (MuxView { held, ..m }, Ok(MuxEventView::Nothing)),
        (held, Ok(Some(message))) => match pdu::parse_client_message(message) {
            Err(e) => (MuxView { held, ..m }, Err(e)),
            Ok(message) => {
                let (next, event) = after_message(MuxView { held, ..m }, message);
                (next, Ok(event))
            },
        },
    }
}

/// The channel that a chunk of the static channel takes away.
pub open spec fn taken_away(m: MuxView, payload: Seq<u8>) -> Option<u32> {
    match svc::reassembled(m.held, payload, usize::MAX as int, "dvc.incoming_buffer") {
        (_, Ok(Some(message))) => match pdu::parse_client_message(message) {
            Ok(pdu::ClientMessageView::CreateResponse { channel_id, creation_status }) => {
                if creation_status != 0 {
                    Some(channel_id)
                } else {
                    None
                }
            },
            Ok(pdu::ClientMessageView::Close { channel_id }) => Some(channel_id),
            _ => None,
        },
        _ => None,
    }
}

/// What belongs to the channels that are there after a chunk of the static
/// channel.
pub open spec fn left<T>(m: MuxView, owned: Seq<T>, payload: Seq<u8>) -> Seq<T> {
    match taken_away(m, payload) {
        Some(id) => keeping(m.slots, owned, id),
        None => owned,
    }
}

/// The packets that carry one payload of a channel.
pub open spec fn payload_frames(m: MuxView, channel_id: u32, payload: Seq<u8>) -> Seq<Seq<u8>> {
    model::joined(
        Seq::new(
            pdu::piece_count(payload.len() as int) as nat,
            |i: int|
                svc::frames(
                    m.user_channel_id,
                    m.channel_id,
                    pdu::payload_message(channel_id, payload, i),
                ),
        ),
    )
}

/// The packets that carry payloads of a channel.
pub open spec fn payloads_frames(
    m: MuxView,
    channel_id: u32,
    payloads: Seq<Seq<u8>>,
) -> Seq<Seq<u8>> {
    model::joined(
        Seq::new(payloads.len(), |i: int| payload_frames(m, channel_id, payloads[i])),
    )
}

/// The packets that ask a client to open channels of those names, with numbers
/// from `first_id` on.
pub open spec fn create_frames(m: MuxView, first_id: u32, names: Seq<Seq<char>>) -> Seq<Seq<u8>> {
    model::joined(
        Seq::new(
            names.len(),
            |i: int|
                svc::frames(
                    m.user_channel_id,
                    m.channel_id,
                    pdu::create_request_wire((first_id + i) as u32, names[i]),
                ),
        ),
    )
}

/// `n` channels that were just asked for, with numbers from `first_id` on.
pub open spec fn new_slots(first_id: u32, n: nat) -> Seq<SlotView> {
    Seq::new(n, |i: int| SlotView { id: (first_id + i) as u32, reassembly: None })
}

/// The state after `n` more channels were asked for.
pub open spec fn with_new_slots(m: MuxView, n: nat) -> MuxView {
    MuxView { next_id: (m.next_id + n) as u32, slots: m.slots + new_slots(m.next_id, n), ..m }
}

/// The state of a connection that has no channels yet.
pub open spec fn fresh(channel_id: u16, user_channel_id: u16) -> MuxView {
    MuxView {
        channel_id,
        user_channel_id,
        held: seq![],
        next_id: 1,
        negotiated: false,
        waiting: 0,
        slots: seq![],
    }
}

/// The state after a channel is added.
pub open spec fn after_register(m: MuxView) -> MuxView {
    if m.negotiated {
        with_new_slots(m, 1)
    } else {
        MuxView { waiting: m.waiting + 1, ..m }
    }
}

/// The packets that go out when a channel of a name is added.
pub open spec fn register_frames(m: MuxView, name: Seq<char>) -> Seq<Seq<u8>> {
    if m.negotiated {
        create_frames(m, m.next_id, seq![name])
    } else {
        seq![]
    }
}

/// The state after `n` channels are added, one after the other.
pub open spec fn registered(m: MuxView, n: nat) -> MuxView
    decreases n,
{
    if n == 0 {
        m
    } else {
        after_register(registered(m, (n - 1) as nat))
    }
}

/// The state after all channels that wait were asked for.
pub open spec fn after_opening(m: MuxView) -> MuxView {
    with_new_slots(MuxView { waiting: 0, ..m }, m.waiting)
}

/// Handlers give themselves these names.
pub open spec fn go_by(handlers: Seq<Held<Box<dyn DvcHandler>>>, names: Seq<Seq<char>>) -> bool {
    &&& names.len() == handlers.len()
    &&& forall|i: int|
        0 <= i < names.len() ==> goes_by(&*handlers[i].value, #[trigger] names[i])
}

/// The number of the first channel of a name, from `i` on.
pub open spec fn named(
    slots: Seq<SlotView>,
    names: Seq<Seq<char>>,
    name: Seq<char>,
    i: int,
) -> Option<u32>
    decreases slots.len() - i,
{
    if i < 0 || i >= slots.len() {
        None
    } else if names[i] == name {
        Some(slots[i].id)
    } else {
        named(slots, names, name, i + 1)
    }
}

proof fn lemma_without(slots: Seq<SlotView>, id: u32)
    ensures
        without(slots, id).len() <= slots.len(),
        forall|i: int|
            0 <= i < without(slots, id).len() ==> (#[trigger] without(slots, id)[i]).id != id
                && slots.contains(without(slots, id)[i]),
    decreases slots.len(),
{
    if slots.len() > 0 {
        let rest = without(slots.skip(1), id);
        lemma_without(slots.skip(1), id);
        let all = without(slots, id);
        assert forall|i: int| 0 <= i < all.len() implies (#[trigger] all[i]).id != id
            && slots.contains(all[i]) by {
            if slots[0].id != id && i == 0 {
                assert(all[0] == slots[0]);
            } else {
                let k = if slots[0].id == id {
                    i
                } else {
                    i - 1
                };
                assert(all[i] == rest[k]);
                let j = choose|j: int|
                    0 <= j < slots.skip(1).len() && slots.skip(1)[j] == rest[k];
                assert(slots[j + 1] == rest[k]);
            }
        }
    }
}

/// Taking channels away keeps the rest apart.
proof fn lemma_without_distinct(slots: Seq<SlotView>, id: u32)
    requires
        forall|i: int, j: int|
            0 <= i < j < slots.len() ==> (#[trigger] slots[i]).id != (#[trigger] slots[j]).id,
    ensures
        forall|i: int, j: int|
            0 <= i < j < without(slots, id).len() ==> (#[trigger] without(slots, id)[i]).id != (
            #[trigger] without(slots, id)[j]).id,
    decreases slots.len(),
{
    if slots.len() > 0 {
        let tail = slots.skip(1);
        let rest = without(tail, id);
        assert forall|i: int, j: int| 0 <= i < j < tail.len() implies (#[trigger] tail[i]).id != (
        #[trigger] tail[j]).id by {
            assert(slots[i + 1].id != slots[j + 1].id);
        }
        lemma_without_distinct(tail, id);
        lemma_without(tail, id);
        let all = without(slots, id);
        if slots[0].id != id {
            assert forall|i: int, j: int| 0 <= i < j < all.len() implies (#[trigger] all[i]).id != (
            #[trigger] all[j]).id by {
                assert(all[j] == rest[j - 1]);
                if i == 0 {
                    let k = choose|k: int| 0 <= k < tail.len() && tail[k] == rest[j - 1];
                    assert(slots[k + 1] == rest[j - 1]);
                } else {
                    assert(all[i] == rest[i - 1]);
                }
            }
        }
    }
}

proof fn lemma_position(slots: Seq<SlotView>, id: u32, i: int)
    requires
        0 <= i,
    ensures
        position(slots, id, i) matches Some(k) ==> i <= k < slots.len() && slots[k].id == id,
    decreases slots.len() - i,
{
    if i < slots.len() && slots[i].id != id {
        lemma_position(slots, id, i + 1);
    }
}

/// Every message keeps the state well formed: numbers are never shared.
pub proof fn law_wf_kept(m: MuxView, payload: Seq<u8>)
    requires
        m.wf(),
    ensures
        after_chunk(m, payload).0.wf(),
{
    match svc::reassembled(m.held, payload, usize::MAX as int, "dvc.incoming_buffer") {
        (held, Ok(Some(message))) => match pdu::parse_client_message(message) {
            Ok(message) => {
                match message {
                    pdu::ClientMessageView::CreateResponse { channel_id, .. } => {
                        lemma_without(m.slots, channel_id);
                        lemma_without_distinct(m.slots, channel_id);
                    },
                    pdu::ClientMessageView::Close { channel_id } => {
                        lemma_without(m.slots, channel_id);
                        lemma_without_distinct(m.slots, channel_id);
                    },
                    pdu::ClientMessageView::Data { channel_id, .. } => {
                        lemma_position(m.slots, channel_id, 0);
                    },
                    pdu::ClientMessageView::DataFirst { channel_id, .. } => {
                        lemma_position(m.slots, channel_id, 0);
                    },
                    _ => {},
                }
            },
            Err(_) => {},
        },
        _ => {},
    }
}

/// What a message with part of a payload says: the data, and the whole length
/// where it comes first.
pub open spec fn part(channel_id: u32, payload: Seq<u8>, i: int) -> pdu::ClientMessageView {
    if i == 0 && payload.len() > 1590 {
        pdu::ClientMessageView::DataFirst {
            channel_id,
            total_length: bytes::low32(payload.len() as int),
            data: pdu::piece(payload, 0),
        }
    } else {
        pdu::ClientMessageView::Data { channel_id, data: pdu::piece(payload, i) }
    }
}

proof fn lemma_part_is_read(channel_id: u32, payload: Seq<u8>, i: int)
    requires
        payload.len() <= u32::MAX,
        0 <= i < pdu::piece_count(payload.len() as int),
    ensures
        pdu::parse_client_message(pdu::payload_message(channel_id, payload, i)) == Ok::<
            pdu::ClientMessageView,
            DecodeError,
        >(part(channel_id, payload, i)),
{
    let data = pdu::piece(payload, i);
    if i == 0 && payload.len() > 1590 {
        pdu::law_data_first_round_trip(channel_id, bytes::low32(payload.len() as int), data);
    } else {
        pdu::law_data_round_trip(channel_id, data);
    }
}

proof fn lemma_part_is_added(payload: Seq<u8>, i: int, held: Option<(u32, Seq<u8>)>)
    requires
        payload.len() <= u32::MAX,
        0 <= i < pdu::piece_count(payload.len() as int),
        payload.len() <= 1590 ==> held is None,
        i > 0 ==> held == Some((payload.len() as u32, payload.subrange(0, 1590 * i))),
    ensures
        assembled(
            held,
            pdu::piece(payload, i),
            if i == 0 && payload.len() > 1590 {
                Some(payload.len() as u32)
            } else {
                None
            },
        ) == (if i < pdu::piece_count(payload.len() as int) - 1 {
            (
                Some((payload.len() as u32, payload.subrange(0, 1590 * (i + 1)))),
                None::<Seq<u8>>,
            )
        } else {
            (None, Some(payload))
        }),
{
    let n = payload.len() as int;
    let data = pdu::piece(payload, i);
    if i == 0 && n > 1590 {
        assert(data =~= payload.subrange(0, 1590));
    } else if i == 0 {
        assert(data =~= payload);
    } else {
        let before = payload.subrange(0, 1590 * i);
        if i < pdu::piece_count(n) - 1 {
            assert(before + data =~= payload.subrange(0, 1590 * (i + 1)));
        } else {
            assert(before + data =~= payload);
        }
    }
}

/// A payload of less than 4 GiB that is cut into messages comes together again:
/// each message reads as its part, no part but the last completes it, and the
/// last gives the payload and leaves nothing behind.
pub proof fn law_payload_reassembles(
    channel_id: u32,
    payload: Seq<u8>,
    i: int,
    held: Option<(u32, Seq<u8>)>,
)
    requires
        payload.len() <= u32::MAX,
        0 <= i < pdu::piece_count(payload.len() as int),
        payload.len() <= 1590 ==> held is None,
        i > 0 ==> held == Some((payload.len() as u32, payload.subrange(0, 1590 * i))),
    ensures
        pdu::parse_client_message(pdu::payload_message(channel_id, payload, i)) == Ok::<
            pdu::ClientMessageView,
            DecodeError,
        >(part(channel_id, payload, i)),
        assembled(
            held,
            pdu::piece(payload, i),
            if i == 0 && payload.len() > 1590 {
                Some(payload.len() as u32)
            } else {
                None
            },
        ) == (if i < pdu::piece_count(payload.len() as int) - 1 {
            (
                Some((payload.len() as u32, payload.subrange(0, 1590 * (i + 1)))),
                None::<Seq<u8>>,
            )
        } else {
            (None, Some(payload))
        }),
{
    lemma_part_is_read(channel_id, payload, i);
    lemma_part_is_added(payload, i, held);
}

/// The dynamic channels of one connection. Whatever they send comes back as
/// whole packets.
pub struct DvcMux {
    channel_id: u16,
    user_channel_id: u16,
    svc_incoming: Vec<u8>,
    next_dynamic_id: u32,
    capability_negotiated: bool,
    pending: Vec<Held<Box<dyn DvcHandler>>>,
    channels: Vec<ChannelSlot>,
}

impl View for DvcMux {
    type V = MuxView;

    closed spec fn view(&self) -> MuxView {
        MuxView {
            channel_id: self.channel_id,
            user_channel_id: self.user_channel_id,
            held: self.svc_incoming@,
            next_id: self.next_dynamic_id,
            negotiated: self.capability_negotiated,
            waiting: self.pending@.len(),
            slots: slot_views(self.channels@),
        }
    }
}

impl DvcMux {
    /// The handlers of the channels, as they are, in the order of the channels.
    pub closed spec fn handlers(&self) -> Seq<Held<Box<dyn DvcHandler>>> {
        slot_handlers(self.channels@)
    }

    /// The handlers of the channels that wait, as they are, in order.
    pub closed spec fn queued(&self) -> Seq<Held<Box<dyn DvcHandler>>> {
        self.pending@
    }

    /// No channels yet, and the packets that open the negotiation: the server
    /// speaks first.
    pub fn new(channel_id: u16, user_channel_id: u16) -> (r: (Self, Vec<Vec<u8>>))
        ensures
            r.0@ == fresh(channel_id, user_channel_id),
            r.0@.wf(),
            r.0.handlers().len() == 0,
            r.0.queued().len() == 0,
            model::views(r.1@) == svc::frames(
                user_channel_id,
                channel_id,
                pdu::capability_request_wire(),
            ),
    {
        let initial: Vec<Vec<u8>> = svc::wrap_indication(
            user_channel_id,
            channel_id,
            pdu::encode_capability_request(),
        );
        let mux = Self {
            channel_id,
            user_channel_id,
            svc_incoming: Vec::new(),
            next_dynamic_id: 1,
            capability_negotiated: false,
            pending: Vec::new(),
            channels: Vec::new(),
        };
        assert(mux@.held =~= seq![]);
        assert(mux@.slots =~= seq![]);
        (mux, initial)
    }

    pub fn channel_id(&self) -> (id: u16)
        ensures
            id == self@.channel_id,
    {
        self.channel_id
    }

    /// Adds a channel. Once the negotiation is over the client is asked for it
    /// at once; before, it waits.
    pub fn register_channel(&mut self, handler: Box<dyn DvcHandler>) -> (frames: Vec<Vec<u8>>)
        requires
            old(self)@.wf(),
            old(self)@.next_id + old(self)@.waiting < u32::MAX,
        ensures
            final(self)@.wf(),
            final(self)@ == after_register(old(self)@),
            if old(self)@.negotiated {
                &&& final(self).handlers().len() == old(self).handlers().len() + 1
                &&& final(self).handlers().drop_last() == old(self).handlers()
                &&& final(self).handlers().last().value == handler
                &&& final(self).queued() == old(self).queued()
                &&& exists|name: Seq<char>| #[trigger]
                    goes_by(&*handler, name) && model::views(frames@) == register_frames(
                        old(self)@,
                        name,
                    )
            } else {
                &&& final(self).handlers() == old(self).handlers()
                &&& final(self).queued().len() == old(self).queued().len() + 1
                &&& final(self).queued().drop_last() == old(self).queued()
                &&& final(self).queued().last().value == handler
                &&& frames@.len() == 0
            },
    {
        let held = Held { value: handler };
        if self.capability_negotiated {
            let (frames, Ghost(name)) = self.open_channel(held);
            proof {
                let parts = Seq::new(
                    1,
                    |i: int|
                        svc::frames(
                            old(self)@.user_channel_id,
                            old(self)@.channel_id,
                            pdu::create_request_wire(
                                (old(self)@.next_id + i) as u32,
                                seq![name][i],
                            ),
                        ),
                );
                reveal_with_fuel(model::joined, 2);
                assert(parts.drop_last() =~= seq![]);
                assert(create_frames(old(self)@, old(self)@.next_id, seq![name]) =~= parts[0]);
                assert(self.handlers().drop_last() =~= old(self).handlers());
            }
            frames
        } else {
            self.pending.push(held);
            assert(self@.slots =~= old(self)@.slots);
            assert(self.queued().drop_last() =~= old(self).queued());
            Vec::new()
        }
    }

    /// Asks the client for a channel. Gives its name too.
    fn open_channel(&mut self, handler: Held<Box<dyn DvcHandler>>) -> (r: (
        Vec<Vec<u8>>,
        Ghost<Seq<char>>,
    ))
        requires
            old(self)@.wf(),
            old(self)@.next_id + old(self)@.waiting < u32::MAX,
        ensures
            final(self)@.wf(),
            final(self)@ == with_new_slots(old(self)@, 1),
            final(self).handlers() == old(self).handlers().push(handler),
            final(self).queued() == old(self).queued(),
            goes_by(&*handler.value, r.1@),
            model::views(r.0@) == svc::frames(
                old(self)@.user_channel_id,
                old(self)@.channel_id,
                pdu::create_request_wire(old(self)@.next_id, r.1@),
            ),
    {
        let id: u32 = self.next_dynamic_id;
        self.next_dynamic_id = id + 1;
        let name: String = name_of(&*handler.value).to_owned();
        self.channels.push(ChannelSlot { id, handler, reassembly: None });
        assert(self@.slots =~= old(self)@.slots + new_slots(old(self)@.next_id, 1));
        assert(self.handlers() =~= old(self).handlers().push(handler));
        let frames: Vec<Vec<u8>> = svc::wrap_indication(
            self.user_channel_id,
            self.channel_id,
            pdu::encode_create_request(id, name.as_str()),
        );
        (frames, Ghost(name@))
    }

    /// Asks the client for every channel that waits, in the order in which they
    /// were added.
    fn open_waiting(&mut self) -> (frames: Vec<Vec<u8>>)
        requires
            old(self)@.wf(),
        ensures
            final(self)@.wf(),
            final(self)@ == after_opening(old(self)@),
            final(self).handlers() == old(self).handlers() + old(self).queued(),
            final(self).queued().len() == 0,
            exists|names: Seq<Seq<char>>| #[trigger]
                go_by(old(self).queued(), names) && model::views(frames@) == create_frames(
                    old(self)@,
                    old(self)@.next_id,
                    names,
                ),
    {
        let ghost m = self@;
        let ghost all_queued = self.queued();
        let ghost mut names: Seq<Seq<char>> = seq![];
        let mut frames: Vec<Vec<u8>> = Vec::new();
        proof {
            assert(model::views(frames@) =~= seq![]);
            assert(create_frames(m, m.next_id, names) =~= seq![]);
            assert(self@.slots =~= m.slots + new_slots(m.next_id, 0));
            assert(self.queued() =~= all_queued.skip(0));
            assert(self.handlers() =~= old(self).handlers() + all_queued.take(0));
        }
        while self.pending.len() > 0
            invariant
                self@.wf(),
                m.wf(),
                self@.waiting + names.len() == m.waiting,
                all_queued == old(self).queued(),
                all_queued.len() == m.waiting,
                self.queued() == all_queued.skip(names.len() as int),
                self.handlers() == old(self).handlers() + all_queued.take(names.len() as int),
                forall|i: int|
                    0 <= i < names.len() ==> goes_by(
                        &*all_queued[i].value,
                        #[trigger] names[i],
                    ),
                self@ == (MuxView {
                    waiting: self@.waiting,
                    ..with_new_slots(m, names.len())
                }),
                model::views(frames@) == create_frames(m, m.next_id, names),
            decreases self@.waiting,
        {
            let handler: Held<Box<dyn DvcHandler>> = self.pending.remove(0);
            let (mut more, Ghost(name)) = self.open_channel(handler);
            let ghost k = names.len();
            proof {
                assert(handler == all_queued[k as int]);
                assert(self.queued() =~= all_queued.skip(k as int + 1));
                assert(self.handlers() =~= old(self).handlers() + all_queued.take(k as int + 1));
                let parts = Seq::new(
                    k,
                    |i: int|
                        svc::frames(
                            m.user_channel_id,
                            m.channel_id,
                            pdu::create_request_wire((m.next_id + i) as u32, names[i]),
                        ),
                );
                let all = names.push(name);
                let more_parts = Seq::new(
                    k + 1,
                    |i: int|
                        svc::frames(
                            m.user_channel_id,
                            m.channel_id,
                            pdu::create_request_wire((m.next_id + i) as u32, all[i]),
                        ),
                );
                assert(more_parts =~= parts.push(model::views(more@)));
                model::lemma_joined_push(parts, model::views(more@));
                names = all;
                assert(create_frames(m, m.next_id, names) == model::joined(parts) + model::views(
                    more@,
                ));
                model::lemma_views_add(frames@, more@);
                assert(self@.slots =~= m.slots + new_slots(m.next_id, k + 1));
            }
            frames.append(&mut more);
        }
        assert(all_queued.take(names.len() as int) =~= all_queued);
        assert(go_by(old(self).queued(), names));
        frames
    }

    fn find(&self, id: u32) -> (r: Option<usize>)
        ensures
            match position(self@.slots, id, 0) {
                Some(i) => r is Some && r->Some_0 == i && i < self@.slots.len(),
                None => r is None,
            },
    {
        let n: usize = self.channels.len();
        let mut i: usize = 0;
        while i < n
            invariant
                i <= n,
                n == self@.slots.len(),
                position(self@.slots, id, i as int) == position(self@.slots, id, 0),
            decreases n - i,
        {
            assert(self@.slots[i as int] == slot_view(self.channels@[i as int]));
            if self.channels[i].id == id {
                return Some(i);
            }
            i = i + 1;
        }
        None
    }

    fn forget(&mut self, id: u32)
        ensures
            final(self)@ == (MuxView { slots: without(old(self)@.slots, id), ..old(self)@ }),
            final(self).handlers() == keeping(old(self)@.slots, old(self).handlers(), id),
            final(self).queued() == old(self).queued(),
    {
        let ghost all = self@.slots;
        let ghost owned = self.handlers();
        let mut i: usize = 0;
        assert(owned.take(0) + keeping(all.skip(0), owned.skip(0), id) =~= keeping(all, owned, id))
            by {
            assert(all.skip(0) =~= all);
            assert(owned.skip(0) =~= owned);
        }
        assert(all.take(0) + without(all.skip(0), id) =~= without(all, id)) by {
            assert(all.skip(0) =~= all);
        }
        while i < self.channels.len()
            invariant
                i <= self@.slots.len(),
                self@ == (MuxView { slots: self@.slots, ..old(self)@ }),
                self@.slots.take(i as int) + without(self@.slots.skip(i as int), id) == without(
                    all,
                    id,
                ),
                self.queued() == old(self).queued(),
                self.handlers().take(i as int) + keeping(
                    self@.slots.skip(i as int),
                    self.handlers().skip(i as int),
                    id,
                ) == keeping(all, owned, id),
            decreases self@.slots.len() - i,
        {
            let ghost now = self@.slots;
            let ghost rest = now.skip(i as int);
            assert(rest[0] == slot_view(self.channels@[i as int]));
            assert(rest.skip(1) =~= now.skip(i + 1));
            let ghost had = self.handlers();
            let ghost others = had.skip(i as int);
            assert(others.skip(1) =~= had.skip(i + 1));
            if self.channels[i].id == id {
                let _ = self.channels.remove(i);
                assert(self@.slots =~= now.take(i as int) + now.skip(i + 1));
                assert(self@.slots.take(i as int) =~= now.take(i as int));
                assert(self@.slots.skip(i as int) =~= now.skip(i + 1));
                assert(self.handlers() =~= had.take(i as int) + had.skip(i + 1));
                assert(self.handlers().take(i as int) =~= had.take(i as int));
                assert(self.handlers().skip(i as int) =~= had.skip(i + 1));
            } else {
                i = i + 1;
                assert(now.take(i as int) + without(now.skip(i as int), id) =~= now.take(i - 1) + (
                seq![rest[0]] + without(rest.skip(1), id)));
                assert(had.take(i as int) + keeping(now.skip(i as int), had.skip(i as int), id)
                    =~= had.take(i - 1) + (seq![others[0]] + keeping(
                    rest.skip(1),
                    others.skip(1),
                    id,
                )));
            }
        }
        assert(self@.slots.take(i as int) =~= self@.slots);
        assert(self@.slots.skip(i as int) =~= seq![]);
        assert(self@.slots + Seq::<SlotView>::empty() =~= self@.slots);
        assert(self.handlers().take(i as int) =~= self.handlers());
        assert(self.handlers() + Seq::<Held<Box<dyn DvcHandler>>>::empty() =~= self.handlers());
    }

    /// Takes in data for a channel, and says what is to be done with it.
    fn take_data(&mut self, channel_id: u32, data: Vec<u8>, total_length: Option<u32>) -> (r:
        MuxEvent)
        ensures
            final(self)@ == after_data(old(self)@, channel_id, data@, total_length).0,
            r@ == after_data(old(self)@, channel_id, data@, total_length).1,
            final(self).handlers() == old(self).handlers(),
            final(self).queued() == old(self).queued(),
    {
        let i: usize = match self.find(channel_id) {
            Some(i) => i,
            None => {
                return MuxEvent::Nothing;
            },
        };
        let ghost slots = self@.slots;
        assert(slots[i as int] == slot_view(self.channels@[i as int]));
        let mut complete: Option<Vec<u8>> = None;
        match total_length {
            Some(total) => {
                if bytes::len32(data.len()) >= total {
                    complete = Some(data);
                } else {
                    self.channels[i].reassembly = Some((total, data));
                }
            },
            None => {
                let mut held: Option<(u32, Vec<u8>)> = None;
                core::mem::swap(&mut self.channels[i].reassembly, &mut held);
                match held {
                    Some((total, mut buffered)) => {
                        let ghost before = buffered@;
                        buffered.extend_from_slice(data.as_slice());
                        assert(buffered@ =~= before + data@);
                        if bytes::len32(buffered.len()) >= total {
                            complete = Some(buffered);
                        } else {
                            self.channels[i].reassembly = Some((total, buffered));
                        }
                    },
                    None => {
                        complete = Some(data);
                    },
                }
            },
        }
        assert(self@.slots =~= slots.update(i as int, slot_view(self.channels@[i as int])));
        assert(final(self)@.slots =~= after_data(
            old(self)@,
            channel_id,
            data@,
            total_length,
        ).0.slots);
        assert(self.handlers() =~= old(self).handlers());
        match complete {
            Some(payload) => MuxEvent::Deliver(i, payload),
            None => MuxEvent::Nothing,
        }
    }

    /// Takes one chunk of the static channel, and says what is to be done.
    pub fn receive(&mut self, payload: &[u8]) -> (r: Result<MuxEvent, DecodeError>)
        requires
            old(self)@.wf(),
        ensures
            final(self)@ == after_chunk(old(self)@, payload@).0,
            final(self)@.wf(),
            match after_chunk(old(self)@, payload@).1 {
                Ok(event) => r is Ok && r->Ok_0@ == event,
                Err(e) => r == Err::<MuxEvent, DecodeError>(e),
            },
            final(self).handlers() == left(old(self)@, old(self).handlers(), payload@),
            final(self).queued() == old(self).queued(),
    {
        proof {
            law_wf_kept(self@, payload@);
        }
        let ghost slots = self@.slots;
        let message: Option<Vec<u8>> = svc::reassemble(
            &mut self.svc_incoming,
            payload,
            usize::MAX,
            "dvc.incoming_buffer",
        )?;
        let message: Vec<u8> = match message {
            Some(message) => message,
            None => {
                return Ok(MuxEvent::Nothing);
            },
        };
        match pdu::decode_client_message(message.as_slice())? {
            pdu::ClientMessage::CapabilityResponse { version } => {
                self.capability_negotiated = true;
                Ok(MuxEvent::OpenWaiting)
            },
            pdu::ClientMessage::CreateResponse(response) => {
                if !response.is_ok() {
                    self.forget(response.channel_id);
                    return Ok(MuxEvent::Nothing);
                }
                match self.find(response.channel_id) {
                    Some(i) => Ok(MuxEvent::Opened(i)),
                    None => Ok(MuxEvent::Nothing),
                }
            },
            pdu::ClientMessage::Data { channel_id, data } => Ok(
                self.take_data(channel_id, data, None),
            ),
            pdu::ClientMessage::DataFirst { channel_id, total_length, data } => Ok(
                self.take_data(channel_id, data, Some(total_length)),
            ),
            pdu::ClientMessage::Close { channel_id } => {
                self.forget(channel_id);
                Ok(MuxEvent::Nothing)
            },
            pdu::ClientMessage::Other => Ok(MuxEvent::Nothing),
        }
    }

    /// Takes one chunk of the static channel, its header included, and lets the
    /// channel that it is for react.
    pub fn on_channel_data(&mut self, payload: &[u8]) -> (r: Result<Vec<Vec<u8>>, DecodeError>)
        requires
            old(self)@.wf(),
        ensures
            final(self)@.wf(),
            ({
                let (next, event) = after_chunk(old(self)@, payload@);
                match event {
                    Err(e) => {
                        &&& r == Err::<Vec<Vec<u8>>, DecodeError>(e)
                        &&& final(self)@ == next
                        &&& final(self).handlers() == old(self).handlers()
                        &&& final(self).queued() == old(self).queued()
                    },
                    Ok(MuxEventView::Nothing) => {
                        &&& r is Ok
                        &&& r->Ok_0@.len() == 0
                        &&& final(self)@ == next
                        &&& final(self).handlers() == left(
                            old(self)@,
                            old(self).handlers(),
                            payload@,
                        )
                        &&& final(self).queued() == old(self).queued()
                    },
                    Ok(MuxEventView::OpenWaiting) => {
                        &&& r is Ok
                        &&& final(self)@ == after_opening(next)
                        &&& final(self).handlers() == old(self).handlers() + old(self).queued()
                        &&& final(self).queued().len() == 0
                        &&& exists|names: Seq<Seq<char>>| #[trigger]
                            go_by(old(self).queued(), names) && model::views(r->Ok_0@)
                                == create_frames(next, next.next_id, names)
                    },
                    Ok(MuxEventView::Opened(i)) => {
                        &&& r is Ok
                        &&& final(self)@ == next
                        &&& final(self).queued() == old(self).queued()
                        &&& final(self).handlers().len() == old(self).handlers().len()
                        &&& forall|j: int|
                            0 <= j < old(self).handlers().len() && j != i
                                ==> #[trigger] final(self).handlers()[j] == old(self).handlers()[j]
                        &&& exists|h: &mut dyn DvcHandler, payloads: Vec<Vec<u8>>| #[trigger]
                            opened(h, payloads) && &*h == &*old(self).handlers()[i].value
                                && &*final(h) == &*final(self).handlers()[i].value && model::views(
                                r->Ok_0@,
                            ) == payloads_frames(next, next.slots[i].id, model::views(payloads@))
                    },
                    Ok(MuxEventView::Deliver(i, data)) => {
                        &&& r is Ok
                        &&& final(self)@ == next
                        &&& final(self).queued() == old(self).queued()
                        &&& final(self).handlers().len() == old(self).handlers().len()
                        &&& forall|j: int|
                            0 <= j < old(self).handlers().len() && j != i
                                ==> #[trigger] final(self).handlers()[j] == old(self).handlers()[j]
                        &&& exists|
                            h: &mut dyn DvcHandler,
                            whole: Seq<u8>,
                            payloads: Vec<Vec<u8>>,
                        | #[trigger]
                            fed(h, whole, payloads) && whole == data && &*h
                                == &*old(self).handlers()[i].value && &*final(h)
                                == &*final(self).handlers()[i].value && model::views(r->Ok_0@)
                                == payloads_frames(next, next.slots[i].id, model::views(payloads@))
                    },
                }
            }),
    {
        let event: MuxEvent = self.receive(payload)?;
        proof {
            lemma_event_position(old(self)@, payload@);
        }
        let ghost had = self.handlers();
        match event {
            MuxEvent::Nothing => Ok(Vec::new()),
            MuxEvent::OpenWaiting => Ok(self.open_waiting()),
            MuxEvent::Opened(i) => {
                let ghost next = self@;
                assert(self@.slots[i as int] == slot_view(self.channels@[i as int]));
                let id: u32 = self.channels[i].id;
                let payloads: Vec<Vec<u8>> = open_up(&mut *self.channels[i].handler.value);
                assert(self@.slots =~= next.slots);
                assert(self.handlers() =~= had.update(i as int, self.handlers()[i as int]));
                Ok(self.encode_payloads(id, payloads))
            },
            MuxEvent::Deliver(i, data) => {
                let ghost next = self@;
                assert(self@.slots[i as int] == slot_view(self.channels@[i as int]));
                let id: u32 = self.channels[i].id;
                let payloads: Vec<Vec<u8>> = feed(
                    &mut *self.channels[i].handler.value,
                    data.as_slice(),
                );
                assert(self@.slots =~= next.slots);
                assert(self.handlers() =~= had.update(i as int, self.handlers()[i as int]));
                Ok(self.encode_payloads(id, payloads))
            },
        }
    }

    fn encode_payloads(&self, channel_id: u32, payloads: Vec<Vec<u8>>) -> (frames: Vec<Vec<u8>>)
        requires
            self@.wf(),
        ensures
            model::views(frames@) == payloads_frames(self@, channel_id, model::views(payloads@)),
    {
        let ghost m = self@;
        let ghost all = model::views(payloads@);
        let n: usize = payloads.len();
        let mut frames: Vec<Vec<u8>> = Vec::new();
        let mut i: usize = 0;
        assert(model::views(frames@) =~= seq![]);
        assert(payloads_frames(m, channel_id, all.take(0)) =~= seq![]);
        while i < n
            invariant
                i <= n,
                n == payloads@.len(),
                m == self@,
                m.wf(),
                all == model::views(payloads@),
                model::views(frames@) == payloads_frames(m, channel_id, all.take(i as int)),
            decreases n - i,
        {
            let mut more: Vec<Vec<u8>> = self.encode_payload(channel_id, payloads[i].as_slice());
            proof {
                let done = all.take(i as int);
                let next = all.take(i + 1);
                let parts = Seq::new(done.len(), |j: int| payload_frames(m, channel_id, done[j]));
                let next_parts = Seq::new(
                    next.len(),
                    |j: int| payload_frames(m, channel_id, next[j]),
                );
                assert(next_parts =~= parts.push(model::views(more@)));
                model::lemma_joined_push(parts, model::views(more@));
                model::lemma_views_add(frames@, more@);
            }
            frames.append(&mut more);
            i = i + 1;
        }
        assert(all.take(n as int) =~= all);
        frames
    }

    fn encode_payload(&self, channel_id: u32, payload: &[u8]) -> (frames: Vec<Vec<u8>>)
        requires
            self@.wf(),
        ensures
            model::views(frames@) == payload_frames(self@, channel_id, payload@),
    {
        let ghost m = self@;
        let messages: Vec<Vec<u8>> = pdu::encode_channel_payload(channel_id, payload);
        let ghost all = model::views(messages@);
        let ghost parts = Seq::new(
            all.len(),
            |j: int| svc::frames(m.user_channel_id, m.channel_id, all[j]),
        );
        let n: usize = messages.len();
        let mut frames: Vec<Vec<u8>> = Vec::new();
        let mut i: usize = 0;
        assert(model::views(frames@) =~= seq![]);
        assert(parts.take(0) =~= seq![]);
        while i < n
            invariant
                i <= n,
                n == messages@.len(),
                m == self@,
                m.wf(),
                all == model::views(messages@),
                parts == Seq::new(
                    all.len(),
                    |j: int| svc::frames(m.user_channel_id, m.channel_id, all[j]),
                ),
                model::views(frames@) == model::joined(parts.take(i as int)),
            decreases n - i,
        {
            let message: Vec<u8> = slice_to_vec(messages[i].as_slice());
            let mut more: Vec<Vec<u8>> = svc::wrap_indication(
                self.user_channel_id,
                self.channel_id,
                message,
            );
            proof {
                assert(all[i as int] == messages@[i as int]@);
                assert(parts.take(i + 1) =~= parts.take(i as int).push(model::views(more@)));
                model::lemma_joined_push(parts.take(i as int), model::views(more@));
                model::lemma_views_add(frames@, more@);
            }
            frames.append(&mut more);
            i = i + 1;
        }
        proof {
            assert(parts.take(n as int) =~= parts);
            let wanted = Seq::new(
                pdu::piece_count(payload@.len() as int) as nat,
                |j: int|
                    svc::frames(
                        m.user_channel_id,
                        m.channel_id,
                        pdu::payload_message(channel_id, payload@, j),
                    ),
            );
            assert(parts =~= wanted);
        }
        frames
    }

    /// The number of the first channel with a name, by the names that the
    /// channels give themselves.
    pub fn channel_id_for_name(&self, name: &str) -> (r: Option<u32>)
        ensures
            exists|names: Seq<Seq<char>>| #[trigger]
                go_by(self.handlers(), names) && r == named(self@.slots, names, name@, 0),
    {
        let ghost mut names: Seq<Seq<char>> = seq![];
        let ghost slots = self@.slots;
        let n: usize = self.channels.len();
        let mut i: usize = 0;
        let mut found: Option<u32> = None;
        while i < n
            invariant
                i <= n,
                n == slots.len(),
                slots == self@.slots,
                names.len() == i,
                forall|j: int|
                    0 <= j < i ==> goes_by(&*self.handlers()[j].value, #[trigger] names[j]),
                match found {
                    Some(id) => exists|k: int|
                        0 <= k < i && names[k] == name@ && (#[trigger] slots[k]).id == id && (
                        forall|j: int| 0 <= j < k ==> #[trigger] names[j] != name@),
                    None => forall|j: int| 0 <= j < i ==> #[trigger] names[j] != name@,
                },
            decreases n - i,
        {
            let ghost before = names;
            let own: &str = name_of(&*self.channels[i].handler.value);
            let same: bool = same_text(own, name);
            proof {
                names = names.push(own@);
                assert(slots[i as int] == slot_view(self.channels@[i as int]));
                assert(forall|j: int| 0 <= j < i ==> names[j] == before[j]);
                assert(self.handlers()[i as int] == self.channels@[i as int].handler);
            }
            match found {
                Some(_) => {},
                None => {
                    if same {
                        found = Some(self.channels[i].id);
                        assert(names[i as int] == name@ && slots[i as int].id == found->Some_0);
                    }
                },
            }
            i = i + 1;
        }
        proof {
            match found {
                Some(id) => {
                    let k = choose|k: int|
                        0 <= k < n && names[k] == name@ && (#[trigger] slots[k]).id == id && (
                        forall|j: int| 0 <= j < k ==> #[trigger] names[j] != name@);
                    lemma_named(slots, names, name@, 0, k);
                },
                None => {
                    lemma_named(slots, names, name@, 0, n as int);
                },
            }
            assert(found == named(slots, names, name@, 0));
            assert(go_by(self.handlers(), names));
        }
        found
    }

    /// The packets for payloads that a channel sends of its own accord.
    pub fn wrap_channel_payloads(&self, channel_id: u32, payloads: Vec<Vec<u8>>) -> (frames: Vec<
        Vec<u8>,
    >)
        requires
            self@.wf(),
        ensures
            model::views(frames@) == payloads_frames(self@, channel_id, model::views(payloads@)),
    {
        self.encode_payloads(channel_id, payloads)
    }
}

/// Every channel has one handler, and so has every channel that waits.
pub proof fn law_one_handler_each(mux: &DvcMux)
    ensures
        mux.handlers().len() == mux@.slots.len(),
        mux.queued().len() == mux@.waiting,
{
}

/// An event names a channel that is there.
proof fn lemma_event_position(m: MuxView, payload: Seq<u8>)
    ensures
        match after_chunk(m, payload) {
            (next, Ok(MuxEventView::Opened(i))) => 0 <= i < next.slots.len(),
            (next, Ok(MuxEventView::Deliver(i, _))) => 0 <= i < next.slots.len(),
            _ => true,
        },
{
    match svc::reassembled(m.held, payload, usize::MAX as int, "dvc.incoming_buffer") {
        (held, Ok(Some(message))) => match pdu::parse_client_message(message) {
            Ok(message) => match message {
                pdu::ClientMessageView::CreateResponse { channel_id, .. } => {
                    lemma_position(m.slots, channel_id, 0);
                },
                pdu::ClientMessageView::Data { channel_id, .. } => {
                    lemma_position(m.slots, channel_id, 0);
                },
                pdu::ClientMessageView::DataFirst { channel_id, .. } => {
                    lemma_position(m.slots, channel_id, 0);
                },
                _ => {},
            },
            Err(_) => {},
        },
        _ => {},
    }
}

proof fn lemma_named(
    slots: Seq<SlotView>,
    names: Seq<Seq<char>>,
    name: Seq<char>,
    i: int,
    k: int,
)
    requires
        0 <= i <= k <= slots.len(),
        names.len() == slots.len(),
        forall|j: int| i <= j < k ==> #[trigger] names[j] != name,
        k < slots.len() ==> names[k] == name,
    ensures
        named(slots, names, name, i) == (if k < slots.len() {
            Some(slots[k].id)
        } else {
            None
        }),
    decreases k - i,
{
    if i < k {
        assert(names[i] != name);
        lemma_named(slots, names, name, i + 1, k);
    }
}

/// A client's answer to the negotiation.
pub open spec fn capability_response_wire(version: u16) -> Seq<u8> {
    seq![80u8, 0u8] + bytes::le16(version)
}

/// The one packet that asks for a channel, where the message fits one chunk.
pub open spec fn create_frame(m: MuxView, id: u32, name: Seq<char>) -> Seq<u8> {
    svc::frame(
        m.user_channel_id,
        m.channel_id,
        svc::chunk(pdu::create_request_wire(id, name), 0),
    )
}

/// A message that asks for a channel of that number and name fits one chunk.
pub open spec fn fits(id: u32, name: Seq<char>) -> bool {
    pdu::create_request_wire(id, name).len() <= 1600
}

/// Messages that fit one chunk each go out as one packet each, in order.
proof fn lemma_create_frames(m: MuxView, first_id: u32, names: Seq<Seq<char>>)
    requires
        forall|i: int| 0 <= i < names.len() ==> fits((first_id + i) as u32, #[trigger] names[i]),
    ensures
        create_frames(m, first_id, names) == Seq::new(
            names.len(),
            |i: int| create_frame(m, (first_id + i) as u32, names[i]),
        ),
    decreases names.len(),
{
    let parts = Seq::new(
        names.len(),
        |i: int|
            svc::frames(
                m.user_channel_id,
                m.channel_id,
                pdu::create_request_wire((first_id + i) as u32, names[i]),
            ),
    );
    let all = Seq::new(names.len(), |i: int| create_frame(m, (first_id + i) as u32, names[i]));
    if names.len() == 0 {
        assert(create_frames(m, first_id, names) =~= all);
    } else {
        let k = names.len() - 1;
        let rest = names.drop_last();
        assert forall|i: int| 0 <= i < rest.len() implies fits(
            (first_id + i) as u32,
            #[trigger] rest[i],
        ) by {
            assert(rest[i] == names[i]);
        }
        lemma_create_frames(m, first_id, rest);
        let rest_parts = Seq::new(
            rest.len(),
            |i: int|
                svc::frames(
                    m.user_channel_id,
                    m.channel_id,
                    pdu::create_request_wire((first_id + i) as u32, rest[i]),
                ),
        );
        assert(parts.drop_last() =~= rest_parts);
        assert(fits((first_id + k) as u32, names[k]));
        assert(parts.last() =~= seq![create_frame(m, (first_id + k) as u32, names[k])]);
        assert(create_frames(m, first_id, names) =~= all);
    }
}

proof fn lemma_registered(m: MuxView, n: nat)
    requires
        !m.negotiated,
    ensures
        registered(m, n) == (MuxView { waiting: m.waiting + n, ..m }),
    decreases n,
{
    if n > 0 {
        lemma_registered(m, (n - 1) as nat);
    }
}

/// Channels that are added before the client has answered the negotiation
/// wait, and nothing goes out for them. The answer has the client asked for all
/// of them, one packet each, in the order in which they were added, with the
/// numbers from 1 on. After that a name belongs to the first channel that was
/// added with it, and a channel that is added is asked for at once, with the
/// next number.
pub proof fn law_opening(
    channel_id: u16,
    user_channel_id: u16,
    names: Seq<Seq<char>>,
    version: u16,
    later: Seq<char>,
)
    requires
        names.len() + 1 < u32::MAX,
        forall|i: int| 0 <= i < names.len() ==> fits((1 + i) as u32, #[trigger] names[i]),
        fits((names.len() + 1) as u32, later),
    ensures
        forall|i: nat, name: Seq<char>|
            i <= names.len() ==> #[trigger] register_frames(
                registered(fresh(channel_id, user_channel_id), i),
                name,
            ) == Seq::<Seq<u8>>::empty(),
        ({
            let m = registered(fresh(channel_id, user_channel_id), names.len());
            let (next, event) = after_chunk(m, svc::chunk(capability_response_wire(version), 0));
            let frames = create_frames(next, next.next_id, names);
            let open = after_opening(next);
            &&& m.wf()
            &&& m.waiting == names.len()
            &&& event == Ok::<MuxEventView, DecodeError>(MuxEventView::OpenWaiting)
            &&& next == (MuxView { negotiated: true, ..m })
            &&& frames.len() == names.len()
            &&& forall|i: int|
                0 <= i < names.len() ==> #[trigger] frames[i] == create_frame(
                    m,
                    (1 + i) as u32,
                    names[i],
                )
            &&& open.wf()
            &&& open.negotiated
            &&& open.waiting == 0
            &&& open.slots.len() == names.len()
            &&& forall|i: int|
                0 <= i < names.len() ==> #[trigger] open.slots[i] == (SlotView {
                    id: (1 + i) as u32,
                    reassembly: None,
                })
            &&& forall|k: int|
                0 <= k < names.len() && !names.take(k).contains(names[k]) ==> named(
                    open.slots,
                    names,
                    #[trigger] names[k],
                    0,
                ) == Some((1 + k) as u32)
            &&& forall|name: Seq<char>|
                !names.contains(name) ==> #[trigger] named(open.slots, names, name, 0) is None
            &&& register_frames(open, later) == seq![
                create_frame(m, (names.len() + 1) as u32, later),
            ]
            &&& after_register(open) == (MuxView {
                next_id: (names.len() + 2) as u32,
                slots: open.slots.push(
                    SlotView { id: (names.len() + 1) as u32, reassembly: None },
                ),
                ..open
            })
        }),
{
    let start = fresh(channel_id, user_channel_id);
    let n = names.len();
    let m = registered(start, n);
    assert forall|i: nat, name: Seq<char>| i <= n implies #[trigger] register_frames(
        registered(start, i),
        name,
    ) == Seq::<Seq<u8>>::empty() by {
        lemma_registered(start, i);
    }
    lemma_registered(start, n);
    let w = capability_response_wire(version);
    bytes::lemma_le16(version);
    assert(w.len() == 4 && w[0] == 80);
    svc::law_reassemble(w, 0, m.held, usize::MAX as int, "dvc.incoming_buffer");
    let (next, event) = after_chunk(m, svc::chunk(w, 0));
    assert(next == (MuxView { negotiated: true, ..m }));
    lemma_create_frames(next, 1, names);
    let frames = create_frames(next, next.next_id, names);
    let open = after_opening(next);
    assert(open.slots =~= new_slots(1, n));
    assert forall|k: int| 0 <= k < n && !names.take(k).contains(names[k]) implies named(
        open.slots,
        names,
        #[trigger] names[k],
        0,
    ) == Some((1 + k) as u32) by {
        assert forall|j: int| 0 <= j < k implies #[trigger] names[j] != names[k] by {
            assert(names.take(k)[j] == names[j]);
        }
        lemma_named(open.slots, names, names[k], 0, k);
    }
    assert forall|name: Seq<char>| !names.contains(name) implies #[trigger] named(
        open.slots,
        names,
        name,
        0,
    ) is None by {
        lemma_named(open.slots, names, name, 0, n as int);
    }
    lemma_create_frames(open, open.next_id, seq![later]);
    assert(register_frames(open, later) =~= seq![create_frame(m, (n + 1) as u32, later)]);
    assert(open.slots + new_slots((n + 1) as u32, 1) =~= open.slots.push(
        SlotView { id: (n + 1) as u32, reassembly: None },
    ));
}

/// Where every handler goes by one name only, all who ask for the names get
/// the same.
pub proof fn law_names_agree(
    handlers: Seq<Held<Box<dyn DvcHandler>>>,
    names: Seq<Seq<char>>,
    others: Seq<Seq<char>>,
)
    requires
        go_by(handlers, names),
        go_by(handlers, others),
        forall|i: int, name: Seq<char>|
            0 <= i < handlers.len() && #[trigger] goes_by(&*handlers[i].value, name) ==> name
                == names[i],
    ensures
        names == others,
{
    assert forall|i: int| 0 <= i < names.len() implies names[i] == others[i] by {
        assert(goes_by(&*handlers[i].value, others[i]));
    }
    assert(names =~= others);
}

proof fn lemma_position_of(slots: Seq<SlotView>, id: u32, i: int, k: int)
    requires
        0 <= i <= k <= slots.len(),
        forall|j: int| i <= j < k ==> (#[trigger] slots[j]).id != id,
        k < slots.len() ==> slots[k].id == id,
    ensures
        position(slots, id, i) == (if k < slots.len() {
            Some(k)
        } else {
            None
        }),
    decreases k - i,
{
    if i < k {
        assert(slots[i].id != id);
        lemma_position_of(slots, id, i + 1, k);
    }
}

/// A message with one of the parts of a payload. The first gives the whole
/// length too.
pub open spec fn part_message(
    channel_id: u32,
    total_length: u32,
    parts: Seq<Seq<u8>>,
    i: int,
) -> pdu::ClientMessageView {
    if i == 0 {
        pdu::ClientMessageView::DataFirst { channel_id, total_length, data: parts[0] }
    } else {
        pdu::ClientMessageView::Data { channel_id, data: parts[i] }
    }
}

/// The state after the messages with the first `n` parts of a payload.
pub open spec fn after_parts(
    m: MuxView,
    channel_id: u32,
    total_length: u32,
    parts: Seq<Seq<u8>>,
    n: nat,
) -> MuxView
    decreases n,
{
    if n == 0 {
        m
    } else {
        after_message(
            after_parts(m, channel_id, total_length, parts, (n - 1) as nat),
            part_message(channel_id, total_length, parts, n - 1),
        ).0
    }
}

/// What the message with part `i` of a payload has done, after those before it.
pub open spec fn part_event(
    m: MuxView,
    channel_id: u32,
    total_length: u32,
    parts: Seq<Seq<u8>>,
    i: nat,
) -> MuxEventView {
    after_message(
        after_parts(m, channel_id, total_length, parts, i),
        part_message(channel_id, total_length, parts, i as int),
    ).1
}

/// As long as the whole length is not reached, the parts so far are held.
proof fn lemma_parts_are_held(
    m: MuxView,
    k: int,
    total_length: u32,
    parts: Seq<Seq<u8>>,
    n: nat,
)
    requires
        m.wf(),
        0 <= k < m.slots.len(),
        m.slots[k].reassembly is None,
        1 <= n <= parts.len(),
        forall|j: int|
            1 <= j <= n ==> model::joined(#[trigger] parts.take(j)).len() < total_length,
    ensures
        after_parts(m, m.slots[k].id, total_length, parts, n) == (MuxView {
            slots: m.slots.update(
                k,
                SlotView {
                    id: m.slots[k].id,
                    reassembly: Some((total_length, model::joined(parts.take(n as int)))),
                },
            ),
            ..m
        }),
        part_event(m, m.slots[k].id, total_length, parts, (n - 1) as nat) == MuxEventView::Nothing,
    decreases n,
{
    let id = m.slots[k].id;
    let before = after_parts(m, id, total_length, parts, (n - 1) as nat);
    let so_far = parts.take(n as int);
    assert(so_far.drop_last() =~= parts.take(n - 1));
    if n == 1 {
        lemma_position_of(m.slots, id, 0, k);
        reveal_with_fuel(model::joined, 2);
        assert(model::joined(so_far) =~= parts[0]);
    } else {
        lemma_parts_are_held(m, k, total_length, parts, (n - 1) as nat);
        assert forall|j: int| 0 <= j < k implies (#[trigger] before.slots[j]).id != id by {
            assert(before.slots[j] == m.slots[j]);
        }
        lemma_position_of(before.slots, id, 0, k);
        assert(model::joined(so_far) == model::joined(parts.take(n - 1)) + parts[n - 1]);
    }
    assert(after_parts(m, id, total_length, parts, n).slots =~= m.slots.update(
        k,
        SlotView { id, reassembly: Some((total_length, model::joined(so_far))) },
    ));
}

/// A payload that comes in parts, of whatever lengths, is delivered once, whole
/// and in order, with the part that reaches the whole length. The parts before
/// it deliver nothing, and nothing is left behind.
pub proof fn law_parts_reassemble(
    m: MuxView,
    k: int,
    total_length: u32,
    parts: Seq<Seq<u8>>,
)
    requires
        m.wf(),
        0 <= k < m.slots.len(),
        m.slots[k].reassembly is None,
        parts.len() >= 1,
        model::joined(parts).len() <= u32::MAX,
        total_length <= model::joined(parts).len(),
        forall|j: int|
            1 <= j < parts.len() ==> model::joined(#[trigger] parts.take(j)).len() < total_length,
    ensures
        forall|i: nat|
            i < parts.len() - 1 ==> #[trigger] part_event(
                m,
                m.slots[k].id,
                total_length,
                parts,
                i,
            ) == MuxEventView::Nothing,
        part_event(m, m.slots[k].id, total_length, parts, (parts.len() - 1) as nat)
            == MuxEventView::Deliver(k, model::joined(parts)),
        after_parts(m, m.slots[k].id, total_length, parts, parts.len()) == m,
{
    let id = m.slots[k].id;
    let last = (parts.len() - 1) as nat;
    assert forall|i: nat| i < last implies #[trigger] part_event(m, id, total_length, parts, i)
        == MuxEventView::Nothing by {
        lemma_parts_are_held(m, k, total_length, parts, i + 1);
    }
    let before = after_parts(m, id, total_length, parts, last);
    if last == 0 {
        lemma_position_of(m.slots, id, 0, k);
        reveal_with_fuel(model::joined, 2);
        assert(model::joined(parts) =~= parts[0]);
    } else {
        lemma_parts_are_held(m, k, total_length, parts, last);
        assert forall|j: int| 0 <= j < k implies (#[trigger] before.slots[j]).id != id by {
            assert(before.slots[j] == m.slots[j]);
        }
        lemma_position_of(before.slots, id, 0, k);
        assert(parts.drop_last() =~= parts.take(last as int));
        assert(model::joined(parts) == model::joined(parts.take(last as int)) + parts.last());
    }
    assert(after_parts(m, id, total_length, parts, parts.len()).slots =~= m.slots);
}

/// Data for a channel of which nothing is held is a payload of its own, and is
/// delivered at once.
pub proof fn law_data_alone(m: MuxView, k: int, data: Seq<u8>)
    requires
        m.wf(),
        0 <= k < m.slots.len(),
        m.slots[k].reassembly is None,
    ensures
        after_message(m, pdu::ClientMessageView::Data { channel_id: m.slots[k].id, data }) == (
            m,
            MuxEventView::Deliver(k, data),
        ),
{
    lemma_position_of(m.slots, m.slots[k].id, 0, k);
    assert(m.slots.update(k, m.slots[k]) =~= m.slots);
}

/// Data for a channel that is not there changes nothing and reaches nobody.
pub proof fn law_unknown_channel(m: MuxView, channel_id: u32, total_length: u32, data: Seq<u8>)
    requires
        forall|i: int| 0 <= i < m.slots.len() ==> (#[trigger] m.slots[i]).id != channel_id,
    ensures
        after_message(m, pdu::ClientMessageView::Data { channel_id, data }) == (
            m,
            MuxEventView::Nothing,
        ),
        after_message(m, pdu::ClientMessageView::DataFirst { channel_id, total_length, data }) == (
            m,
            MuxEventView::Nothing,
        ),
{
    lemma_position_of(m.slots, channel_id, 0, m.slots.len() as int);
}

/// Whether two texts are the same.
fn same_text(a: &str, b: &str) -> (r: bool)
    ensures
        r == (a@ == b@),
{
    let same: bool = bytes::same(a.as_bytes(), b.as_bytes());
    proof {
        vstd::utf8::encode_utf8_decode_utf8(a@);
        vstd::utf8::encode_utf8_decode_utf8(b@);
    }
    same
}

/// At first there are no channels, the first will be number 1, and the client is asked
/// which version it has.
pub proof fn law_new(channel_id: u16, user_channel_id: u16, r: (DvcMux, Vec<Vec<u8>>))
    requires
        call_ensures(DvcMux::new, (channel_id, user_channel_id), r),
    ensures
        r.0@.channel_id == channel_id,
        r.0@.user_channel_id == user_channel_id,
        r.0@.next_id == 1,
        !r.0@.negotiated,
        r.0@.waiting == 0,
        r.0@.slots.len() == 0,
        r.0@.held.len() == 0,
        model::views(r.1@) == svc::frames(
            user_channel_id,
            channel_id,
            pdu::capability_request_wire(),
        ),
{
}

/// What a message does to the channels. An answer to the negotiation opens those that
/// wait. A channel that the client refuses or closes is gone, and only that one. One that
/// it has opened is told so, and nothing changes.
pub proof fn law_message(m: MuxView, message: pdu::ClientMessageView, i: int)
    requires
        m.wf(),
        0 <= i < m.slots.len(),
    ensures
        ({
            let (after, event) = after_message(m, message);
            &&& message is CapabilityResponse ==> {
                &&& after == (MuxView { negotiated: true, ..m })
                &&& event is OpenWaiting
            }
            &&& message matches pdu::ClientMessageView::CreateResponse {
                channel_id,
                creation_status,
            } ==> {
                &&& creation_status == 0 ==> after == m
                &&& creation_status == 0 && m.slots[i].id == channel_id ==> event
                    == MuxEventView::Opened(i)
                &&& creation_status == 0 && event is Opened ==> m.slots[event->Opened_0].id
                    == channel_id
                &&& creation_status != 0 ==> {
                    &&& event is Nothing
                    &&& forall|j: int|
                        0 <= j < after.slots.len() ==> (#[trigger] after.slots[j]).id != channel_id
                    &&& m.slots[i].id != channel_id ==> after.slots.contains(m.slots[i])
                }
            }
            &&& message matches pdu::ClientMessageView::Close { channel_id } ==> {
                &&& event is Nothing
                &&& forall|j: int|
                    0 <= j < after.slots.len() ==> (#[trigger] after.slots[j]).id != channel_id
                &&& m.slots[i].id != channel_id ==> after.slots.contains(m.slots[i])
            }
            &&& message is Other ==> after == m && event is Nothing
            &&& after.next_id == m.next_id
            &&& after.waiting == m.waiting
        }),
{
    match message {
        pdu::ClientMessageView::CreateResponse { channel_id, creation_status } => {
            lemma_left_over(m.slots, channel_id);
            lemma_found(m.slots, channel_id, 0);
            assert(m.slots[i].id != channel_id ==> m.slots.contains(m.slots[i]));
        },
        pdu::ClientMessageView::Close { channel_id } => {
            lemma_left_over(m.slots, channel_id);
            assert(m.slots[i].id != channel_id ==> m.slots.contains(m.slots[i]));
        },
        _ => {},
    }
}

proof fn lemma_found(slots: Seq<SlotView>, id: u32, i: int)
    requires
        0 <= i <= slots.len(),
    ensures
        position(slots, id, i) matches Some(k) ==> i <= k < slots.len() && slots[k].id == id,
        position(slots, id, i) is None ==> forall|j: int|
            i <= j < slots.len() ==> (#[trigger] slots[j]).id != id,
    decreases slots.len() - i,
{
    if i < slots.len() && slots[i].id != id {
        lemma_found(slots, id, i + 1);
    }
}

proof fn lemma_left_over(slots: Seq<SlotView>, id: u32)
    ensures
        forall|j: int|
            0 <= j < without(slots, id).len() ==> (#[trigger] without(slots, id)[j]).id != id,
        forall|s: SlotView|
            s.id != id && slots.contains(s) ==> #[trigger] without(slots, id).contains(s),
    decreases slots.len(),
{
    if slots.len() > 0 {
        let rest = slots.skip(1);
        let kept = without(rest, id);
        lemma_left_over(rest, id);
        let all = without(slots, id);
        assert forall|j: int| 0 <= j < all.len() implies (#[trigger] all[j]).id != id by {
            if slots[0].id != id && j > 0 {
                assert(all[j] == kept[j - 1]);
            }
        }
        assert forall|s: SlotView| s.id != id && slots.contains(s) implies #[trigger] all.contains(
            s,
        ) by {
            let k = choose|k: int| 0 <= k < slots.len() && slots[k] == s;
            if k == 0 {
                assert(all[0] == s);
            } else {
                assert(rest[k - 1] == s);
                assert(kept.contains(s));
                let n = choose|n: int| 0 <= n < kept.len() && kept[n] == s;
                if slots[0].id != id {
                    assert(all[n + 1] == s);
                } else {
                    assert(all[n] == s);
                }
            }
        }
    }
}

/// Channels that are asked for get the numbers that follow, in order, and nothing is held
/// of any of them.
pub proof fn law_new_numbers(m: MuxView, n: nat, i: int)
    requires
        m.wf(),
        m.next_id + n <= u32::MAX,
        0 <= i < n,
    ensures
        with_new_slots(m, n).next_id == m.next_id + n,
        with_new_slots(m, n).slots.len() == m.slots.len() + n,
        with_new_slots(m, n).slots[m.slots.len() + i] == (SlotView {
            id: (m.next_id + i) as u32,
            reassembly: None,
        }),
        with_new_slots(m, n).slots.take(m.slots.len() as int) == m.slots,
{
    assert(with_new_slots(m, n).slots.take(m.slots.len() as int) =~= m.slots);
}

/// A name belongs to the first channel that has it.
pub proof fn law_by_name(slots: Seq<SlotView>, names: Seq<Seq<char>>, name: Seq<char>, i: int)
    requires
        0 <= i <= slots.len(),
        names.len() == slots.len(),
    ensures
        named(slots, names, name, i) matches Some(id) ==> exists|k: int|
            i <= k < slots.len() && #[trigger] slots[k].id == id && names[k] == name && forall|j: int|
                i <= j < k ==> #[trigger] names[j] != name,
        named(slots, names, name, i) is None ==> forall|k: int|
            i <= k < slots.len() ==> #[trigger] names[k] != name,
    decreases slots.len() - i,
{
    if i < slots.len() && names[i] != name {
        law_by_name(slots, names, name, i + 1);
        if named(slots, names, name, i) is Some {
            let id = named(slots, names, name, i)->Some_0;
            let k = choose|k: int|
                i + 1 <= k < slots.len() && #[trigger] slots[k].id == id && names[k] == name
                    && forall|j: int| i + 1 <= j < k ==> #[trigger] names[j] != name;
            assert(slots[k].id == id);
        }
    } else if i < slots.len() {
        assert(slots[i].id == named(slots, names, name, i)->Some_0);
    }
}

} // verus!
