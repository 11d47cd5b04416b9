//! Fast-path input from a client and fast-path updates to it: the messages of
//! a session once the connection sequence is over. Nothing here is encrypted.
//!
//! Of the input events only key, mouse, synchronization and Unicode events are
//! taken. The size of an event depends on its kind, so that an event of another
//! kind cannot be passed over: it is an error.

pub mod keyboard_flags;

use vstd::prelude::*;
use vstd::slice::slice_to_vec;

use crate::bytes;
use crate::cursor;
use crate::cursor::{ReadCursor, WriteBuf};
use crate::model;
use crate::per;
use crate::DecodeError;

verus! {

broadcast use {bytes::group_bytes, model::lemma_views_push};

/// How large the fragments of an update are that does not go out in one.
pub const MAX_FASTPATH_CHUNK_SIZE: usize = 16_374;

pub const UPDATE_CODE_BITMAP: u8 = 0x1;

pub const UPDATE_CODE_SURFACE_COMMANDS: u8 = 0x4;

#[derive(Debug, Clone, Copy, PartialEq, Eq)]
pub enum FastPathInputEvent {
    Scancode { flags: u8, code: u8 },
    Mouse { pointer_flags: u16, x: u16, y: u16 },
    Sync { flags: u8 },
    /// One UTF-16 unit: a character past the basic plane comes as two events.
    Unicode { flags: u8, code: u16 },
}

impl FastPathInputEvent {
    /// The kind in the top three bits, the low five bits of the flags below
    /// it, and what belongs to the kind.
    pub open spec fn wire(self) -> Seq<u8> {
        match self {
            FastPathInputEvent::Scancode { flags, code } => seq![flags % 32] + seq![code],
            FastPathInputEvent::Mouse { pointer_flags, x, y } => seq![32u8] + bytes::le16(
                pointer_flags,
            ) + bytes::le16(x) + bytes::le16(y),
            FastPathInputEvent::Sync { flags } => seq![(flags % 32 + 96) as u8],
            FastPathInputEvent::Unicode { flags, code } => seq![(flags % 32 + 128) as u8]
                + bytes::le16(code),
        }
    }

    /// Whether the flags fit their five bits.
    pub open spec fn flags_fit(self) -> bool {
        match self {
            FastPathInputEvent::Scancode { flags, code } => flags < 32,
            FastPathInputEvent::Mouse { pointer_flags, x, y } => true,
            FastPathInputEvent::Sync { flags } => flags < 32,
            FastPathInputEvent::Unicode { flags, code } => flags < 32,
        }
    }

    fn encode(&self, out: &mut Vec<u8>)
        ensures
            final(out)@ == old(out)@ + self.wire(),
    {
        let ghost before = out@;
        match *self {
            FastPathInputEvent::Scancode { flags, code } => {
                out.write_u8(flags % 32);
                out.write_u8(code);
            },
            FastPathInputEvent::Mouse { pointer_flags, x, y } => {
                out.write_u8(32);
                out.write_u16_le(pointer_flags);
                out.write_u16_le(x);
                out.write_u16_le(y);
            },
            FastPathInputEvent::Sync { flags } => {
                out.write_u8(flags % 32 + 96);
            },
            FastPathInputEvent::Unicode { flags, code } => {
                out.write_u8(flags % 32 + 128);
                out.write_u16_le(code);
            },
        }
        assert(out@ =~= before + self.wire());
    }

    fn decode(cursor: &mut ReadCursor<'_>) -> (r: Result<Self, DecodeError>)
        requires
            old(cursor).wf(),
        ensures
            final(cursor).wf(),
            final(cursor).data() == old(cursor).data(),
            cursor::reads(
                r,
                final(cursor).offset(),
                parse_event(old(cursor).data(), old(cursor).offset()),
            ),
    {
        let header: u8 = cursor.take_u8()?;
        let flags: u8 = header % 32;
        match header / 32 {
            0 => {
                let code: u8 = cursor.take_u8()?;
                Ok(FastPathInputEvent::Scancode { flags, code })
            },
            1 => {
                let pointer_flags: u16 = cursor.take_u16_le()?;
                let x: u16 = cursor.take_u16_le()?;
                let y: u16 = cursor.take_u16_le()?;
                Ok(FastPathInputEvent::Mouse { pointer_flags, x, y })
            },
            3 => Ok(FastPathInputEvent::Sync { flags }),
            4 => {
                let code: u16 = cursor.take_u16_le()?;
                Ok(FastPathInputEvent::Unicode { flags, code })
            },
            _ => Err(
                DecodeError::InvalidValue {
                    field: "fast_path_input_event.code",
                    reason: "unsupported or unadvertised event code",
                },
            ),
        }
    }
}

/// The event at offset `p`, and the offset after it.
pub open spec fn parse_event(b: Seq<u8>, p: int) -> Result<(FastPathInputEvent, int), DecodeError> {
    if p + 1 > b.len() {
        Err(cursor::short(b, p, 1))
    } else if b[p] / 32 == 0 {
        if p + 2 > b.len() {
            Err(cursor::short(b, p + 1, 1))
        } else {
            Ok((FastPathInputEvent::Scancode { flags: b[p] % 32, code: b[p + 1] }, p + 2))
        }
    } else if b[p] / 32 == 1 {
        if p + 7 > b.len() {
            Err(cursor::short(b, p + 1 + (b.len() - p - 1) / 2 * 2, 2))
        } else {
            Ok(
                (
                    FastPathInputEvent::Mouse {
                        pointer_flags: bytes::u16_le_at(b, p + 1),
                        x: bytes::u16_le_at(b, p + 3),
                        y: bytes::u16_le_at(b, p + 5),
                    },
                    p + 7,
                ),
            )
        }
    } else if b[p] / 32 == 3 {
        Ok((FastPathInputEvent::Sync { flags: b[p] % 32 }, p + 1))
    } else if b[p] / 32 == 4 {
        if p + 3 > b.len() {
            Err(cursor::short(b, p + 1, 2))
        } else {
            Ok(
                (
                    FastPathInputEvent::Unicode {
                        flags: b[p] % 32,
                        code: bytes::u16_le_at(b, p + 1),
                    },
                    p + 3,
                ),
            )
        }
    } else {
        Err(
            cursor::invalid(
                "fast_path_input_event.code",
                "unsupported or unadvertised event code",
            ),
        )
    }
}

/// `n` events from offset `p` on, and the offset after them.
pub open spec fn parse_events(b: Seq<u8>, p: int, n: int) -> Result<
    (Seq<FastPathInputEvent>, int),
    DecodeError,
>
    decreases n,
{
    if n <= 0 {
        Ok((seq![], p))
    } else {
        match parse_events(b, p, n - 1) {
            Err(e) => Err(e),
            Ok((events, q)) => match parse_event(b, q) {
                Err(e) => Err(e),
                Ok((event, next)) => Ok((events.push(event), next)),
            },
        }
    }
}

proof fn lemma_events_error_stays(b: Seq<u8>, p: int, m: int, n: int)
    requires
        0 <= m <= n,
        parse_events(b, p, m) is Err,
    ensures
        parse_events(b, p, n) == parse_events(b, p, m),
    decreases n - m,
{
    if m < n {
        lemma_events_error_stays(b, p, m, n - 1);
    }
}

/// Events one after the other.
pub open spec fn events_wire(events: Seq<FastPathInputEvent>) -> Seq<u8>
    decreases events.len(),
{
    if events.len() == 0 {
        seq![]
    } else {
        events_wire(events.drop_last()) + events.last().wire()
    }
}

/// How long a message is that has `prefix` bytes besides its length.
pub open spec fn total_length(prefix: int) -> int {
    if prefix < 0x7F {
        prefix + 1
    } else {
        prefix + 2
    }
}

/// How long an input message is, its length field included.
pub open spec fn input_length(events: Seq<FastPathInputEvent>) -> int {
    total_length(
        1 + (if events.len() < 15 {
            0int
        } else {
            1
        }) + events_wire(events).len(),
    )
}

/// An input message. Fewer than 15 events are counted in its first byte, more
/// in a byte of their own.
pub open spec fn input_wire(events: Seq<FastPathInputEvent>) -> Seq<u8> {
    seq![
        (if events.len() < 15 {
            4 * events.len()
        } else {
            0
        }) as u8,
    ] + per::length_bytes(input_length(events) as usize) + (if events.len() < 15 {
        seq![]
    } else {
        seq![bytes::low8(events.len() as int)]
    }) + events_wire(events)
}

/// The events of an input message. The length that it gives is not used.
pub open spec fn parse_input(b: Seq<u8>) -> Result<Seq<FastPathInputEvent>, DecodeError> {
    if b.len() < 1 {
        Err(cursor::short(b, 0, 1))
    } else if b[0] % 4 != 0 {
        Err(cursor::invalid("fast_path_input.action", "expected FASTPATH_INPUT"))
    } else if b[0] / 64 != 0 {
        Err(cursor::invalid("fast_path_input.flags", "encryption is not supported"))
    } else {
        match per::parse_length(b, 1) {
            Err(e) => Err(e),
            Ok((_, p)) => {
                let counted = b[0] / 4;
                if counted == 0 && p + 1 > b.len() {
                    Err(cursor::short(b, p, 1))
                } else {
                    let r = if counted == 0 {
                        parse_events(b, p + 1, b[p] as int)
                    } else {
                        parse_events(b, p, counted as int)
                    };
                    match r {
                        Err(e) => Err(e),
                        Ok((events, _)) => Ok(events),
                    }
                }
            },
        }
    }
}

#[derive(Debug, Clone, PartialEq, Eq)]
pub struct FastPathInput {
    pub events: Vec<FastPathInputEvent>,
}

impl View for FastPathInput {
    type V = Seq<FastPathInputEvent>;

    open spec fn view(&self) -> Seq<FastPathInputEvent> {
        self.events@
    }
}

/// Adds the length field to the rest of a message.
fn with_length(prefix: usize) -> (total: usize)
    requires
        prefix <= usize::MAX - 2,
    ensures
        total == total_length(prefix as int),
{
    if prefix < 0x7F {
        prefix + 1
    } else {
        prefix + 2
    }
}

impl FastPathInput {
    pub fn encode(&self) -> (out: Vec<u8>)
        requires
            events_wire(self@).len() <= usize::MAX - 4,
        ensures
            out@ == input_wire(self@),
    {
        let mut events_bytes: Vec<u8> = Vec::new();
        let count: usize = self.events.len();
        let mut i: usize = 0;
        assert(self@.take(0) =~= seq![]);
        while i < count
            invariant
                i <= count,
                count == self@.len(),
                events_bytes@ == events_wire(self@.take(i as int)),
            decreases count - i,
        {
            self.events[i].encode(&mut events_bytes);
            assert(self@.take(i + 1).drop_last() =~= self@.take(i as int));
            i = i + 1;
        }
        assert(self@.take(count as int) =~= self@);
        let explicit: bool = count >= 15;
        let total: usize = with_length(
            if explicit {
                2 + events_bytes.len()
            } else {
                1 + events_bytes.len()
            },
        );
        let mut out: Vec<u8> = Vec::new();
        out.write_u8(
            if explicit {
                0
            } else {
                4 * count as u8
            },
        );
        per::write_length(&mut out, total);
        if explicit {
            out.write_u8(bytes::len8(count));
        }
        out.write_slice(events_bytes.as_slice());
        assert(out@ =~= input_wire(self@));
        out
    }

    pub fn decode(input: &[u8]) -> (r: Result<Self, DecodeError>)
        ensures
            cursor::decodes_view(r, parse_input(input@)),
    {
        let mut cursor = ReadCursor::new(input);
        let header: u8 = cursor.take_u8()?;
        if header % 4 != 0 {
            return Err(
                DecodeError::InvalidValue {
                    field: "fast_path_input.action",
                    reason: "expected FASTPATH_INPUT",
                },
            );
        }
        if header / 64 != 0 {
            return Err(
                DecodeError::InvalidValue {
                    field: "fast_path_input.flags",
                    reason: "encryption is not supported",
                },
            );
        }
        let counted: u8 = header / 4;
        let _total_length: usize = per::read_length(&mut cursor)?;
        let num_events: u8 = if counted == 0 {
            cursor.take_u8()?
        } else {
            counted
        };
        let ghost p = cursor.offset();
        let mut events: Vec<FastPathInputEvent> = Vec::new();
        let mut i: u8 = 0;
        assert(events@ =~= seq![]);
        while i < num_events
            invariant
                i <= num_events,
                cursor.wf(),
                cursor.data() == input@,
                parse_events(input@, p, i as int) == Ok::<
                    (Seq<FastPathInputEvent>, int),
                    DecodeError,
                >((events@, cursor.offset())),
                parse_events(input@, p, num_events as int) matches Err(e) ==> parse_input(input@)
                    == Err::<Seq<FastPathInputEvent>, DecodeError>(e),
            decreases num_events - i,
        {
            match FastPathInputEvent::decode(&mut cursor) {
                Ok(event) => {
                    events.push(event);
                    i = i + 1;
                },
                Err(e) => {
                    proof {
                        lemma_events_error_stays(input@, p, i + 1, num_events as int);
                    }
                    return Err(e);
                },
            }
        }
        Ok(Self { events })
    }
}

proof fn lemma_event(b: Seq<u8>, p: int, event: FastPathInputEvent)
    requires
        event.flags_fit(),
        bytes::holds_at(b, p, event.wire()),
    ensures
        parse_event(b, p) == Ok::<(FastPathInputEvent, int), DecodeError>(
            (event, p + event.wire().len()),
        ),
{
    broadcast use bytes::group_holds;

}

proof fn lemma_events(b: Seq<u8>, p: int, events: Seq<FastPathInputEvent>)
    requires
        forall|i: int| 0 <= i < events.len() ==> (#[trigger] events[i]).flags_fit(),
        bytes::holds_at(b, p, events_wire(events)),
    ensures
        parse_events(b, p, events.len() as int) == Ok::<
            (Seq<FastPathInputEvent>, int),
            DecodeError,
        >((events, p + events_wire(events).len())),
        events_wire(events).len() <= 7 * events.len(),
    decreases events.len(),
{
    if events.len() > 0 {
        let head = events.drop_last();
        bytes::lemma_holds_add(b, p, events_wire(head), events.last().wire());
        lemma_events(b, p, head);
        lemma_event(b, p + events_wire(head).len(), events.last());
        assert(head.push(events.last()) =~= events);
    } else {
        assert(events =~= seq![]);
    }
}

/// An input message of 1 to 255 events, whose flags fit, is read back as it was
/// written, whatever comes after it. One without events is not: its empty count
/// is taken to mean that a count follows.
pub proof fn law_input_round_trip(events: Seq<FastPathInputEvent>, after: Seq<u8>)
    requires
        1 <= events.len() <= 255,
        forall|i: int| 0 <= i < events.len() ==> (#[trigger] events[i]).flags_fit(),
    ensures
        parse_input(input_wire(events) + after) == Ok::<Seq<FastPathInputEvent>, DecodeError>(
            events,
        ),
        input_wire(events).len() == input_length(events),
{
    let b = input_wire(events) + after;
    let body = events_wire(events);
    bytes::lemma_holds_self(body);
    lemma_events(body, 0, events);
    let n = input_length(events) as usize;
    let h = seq![
        (if events.len() < 15 {
            4 * events.len()
        } else {
            0
        }) as u8,
    ];
    let l = per::length_bytes(n);
    let c = if events.len() < 15 {
        Seq::<u8>::empty()
    } else {
        seq![bytes::low8(events.len() as int)]
    };
    bytes::lemma_holds_self(b);
    bytes::lemma_holds_add(b, 0, input_wire(events), after);
    bytes::lemma_holds_add(b, 0, h + l + c, body);
    bytes::lemma_holds_add(b, 0, h + l, c);
    bytes::lemma_holds_add(b, 0, h, l);
    bytes::lemma_holds_u8(b, 0, h[0]);
    assert(h =~= seq![h[0]]);
    per::law_length(b, 1, n);
    if events.len() >= 15 {
        bytes::lemma_holds_u8(b, 1 + l.len() as int, c[0]);
        assert(c =~= seq![c[0]]);
        bytes::lemma_holds_bounds(b, 1 + l.len() as int, c);
    }
    lemma_events(b, (h + l + c).len() as int, events);
}

#[derive(Debug, Clone, Copy, PartialEq, Eq, Structural)]
pub enum Fragmentation {
    Single,
    First,
    Next,
    Last,
}

impl Fragmentation {
    /// The number of the kind on the wire.
    pub open spec fn code(self) -> u8 {
        match self {
            Fragmentation::Single => 0,
            Fragmentation::Last => 1,
            Fragmentation::First => 2,
            Fragmentation::Next => 3,
        }
    }

    /// The kind with a number, where there is one.
    pub open spec fn of_code(value: u8) -> Option<Fragmentation> {
        if value == 0 {
            Some(Fragmentation::Single)
        } else if value == 1 {
            Some(Fragmentation::Last)
        } else if value == 2 {
            Some(Fragmentation::First)
        } else if value == 3 {
            Some(Fragmentation::Next)
        } else {
            None
        }
    }

    fn as_u8(self) -> (v: u8)
        ensures
            v == self.code(),
    {
        match self {
            Fragmentation::Single => 0,
            Fragmentation::Last => 1,
            Fragmentation::First => 2,
            Fragmentation::Next => 3,
        }
    }

    fn from_u8(value: u8) -> (r: Option<Self>)
        ensures
            r == Self::of_code(value),
    {
        match value {
            0 => Some(Fragmentation::Single),
            1 => Some(Fragmentation::Last),
            2 => Some(Fragmentation::First),
            3 => Some(Fragmentation::Next),
            _ => None,
        }
    }
}

#[derive(Debug, Clone, PartialEq, Eq)]
pub struct FastPathUpdatePdu {
    pub update_code: u8,
    pub fragmentation: Fragmentation,
    pub data: Vec<u8>,
}

pub struct FastPathUpdateView {
    pub update_code: u8,
    pub fragmentation: Fragmentation,
    pub data: Seq<u8>,
}

impl View for FastPathUpdatePdu {
    type V = FastPathUpdateView;

    open spec fn view(&self) -> FastPathUpdateView {
        FastPathUpdateView {
            update_code: self.update_code,
            fragmentation: self.fragmentation,
            data: self.data@,
        }
    }
}

impl FastPathUpdateView {
    /// The low four bits of the code and the fragmentation in one byte, the
    /// length of the data, the data.
    pub open spec fn wire(self) -> Seq<u8> {
        seq![(self.update_code % 16 + 16 * self.fragmentation.code()) as u8] + bytes::le16(
            bytes::low16(self.data.len() as int),
        ) + self.data
    }

    /// Whether code and data fit their fields.
    pub open spec fn fits(self) -> bool {
        self.update_code < 16 && self.data.len() <= 0xFFFF
    }
}

/// The update at offset `p`, and the offset after it.
pub open spec fn parse_update(b: Seq<u8>, p: int) -> Result<
    (FastPathUpdateView, int),
    DecodeError,
> {
    if p + 1 > b.len() {
        Err(cursor::short(b, p, 1))
    } else {
        match Fragmentation::of_code(b[p] / 16 % 4) {
            None => Err(
                cursor::invalid("fast_path_update.fragmentation", "invalid fragmentation value"),
            ),
            Some(fragmentation) => if b[p] >= 0x80 {
                Err(
                    cursor::invalid("fast_path_update.compression", "compression is not supported"),
                )
            } else if p + 3 > b.len() {
                Err(cursor::short(b, p + 1, 2))
            } else {
                let n = bytes::u16_le_at(b, p + 1);
                if p + 3 + n > b.len() {
                    Err(cursor::short(b, p + 3, n as int))
                } else {
                    Ok(
                        (
                            FastPathUpdateView {
                                update_code: b[p] % 16,
                                fragmentation,
                                data: b.subrange(p + 3, p + 3 + n),
                            },
                            p + 3 + n,
                        ),
                    )
                }
            },
        }
    }
}

impl FastPathUpdatePdu {
    fn encode(&self, out: &mut Vec<u8>)
        ensures
            final(out)@ == old(out)@ + self@.wire(),
    {
        let ghost before = out@;
        out.write_u8(self.update_code % 16 + 16 * self.fragmentation.as_u8());
        out.write_u16_le(bytes::len16(self.data.len()));
        out.write_slice(self.data.as_slice());
        assert(out@ =~= before + self@.wire());
    }

    fn decode(cursor: &mut ReadCursor<'_>) -> (r: Result<Self, DecodeError>)
        requires
            old(cursor).wf(),
        ensures
            final(cursor).wf(),
            final(cursor).data() == old(cursor).data(),
            cursor::reads_view(
                r,
                final(cursor).offset(),
                parse_update(old(cursor).data(), old(cursor).offset()),
            ),
    {
        let header: u8 = cursor.take_u8()?;
        let fragmentation: Fragmentation = match Fragmentation::from_u8(header / 16 % 4) {
            Some(f) => f,
            None => {
                return Err(
                    DecodeError::InvalidValue {
                        field: "fast_path_update.fragmentation",
                        reason: "invalid fragmentation value",
                    },
                );
            },
        };
        if header >= 0x80 {
            return Err(
                DecodeError::InvalidValue {
                    field: "fast_path_update.compression",
                    reason: "compression is not supported",
                },
            );
        }
        let size: u16 = cursor.take_u16_le()?;
        let data: Vec<u8> = slice_to_vec(cursor.take_slice(size as usize)?);
        Ok(Self { update_code: header % 16, fragmentation, data })
    }
}

/// The updates from offset `p` to the end.
pub open spec fn updates_from(b: Seq<u8>, p: int) -> Result<Seq<FastPathUpdateView>, DecodeError>
    decreases b.len() - p,
{
    if p >= b.len() {
        Ok(seq![])
    } else {
        match parse_update(b, p) {
            Err(e) => Err(e),
            Ok((update, q)) => match updates_from(b, q) {
                Err(e) => Err(e),
                Ok(rest) => Ok(seq![update] + rest),
            },
        }
    }
}

/// Updates one after the other.
pub open spec fn updates_wire(updates: Seq<FastPathUpdateView>) -> Seq<u8>
    decreases updates.len(),
{
    if updates.len() == 0 {
        seq![]
    } else {
        updates_wire(updates.drop_last()) + updates.last().wire()
    }
}

/// How long an output message is, its length field included.
pub open spec fn output_length(updates: Seq<FastPathUpdateView>) -> int {
    total_length(1int + updates_wire(updates).len())
}

pub open spec fn output_wire(updates: Seq<FastPathUpdateView>) -> Seq<u8> {
    seq![0u8] + per::length_bytes(output_length(updates) as usize) + updates_wire(updates)
}

/// The updates of an output message, up to the length that it gives.
pub open spec fn parse_output(b: Seq<u8>) -> Result<Seq<FastPathUpdateView>, DecodeError> {
    if b.len() < 1 {
        Err(cursor::short(b, 0, 1))
    } else if b[0] % 4 != 0 {
        Err(cursor::invalid("fast_path_output.action", "expected FASTPATH_OUTPUT"))
    } else if b[0] / 64 != 0 {
        Err(cursor::invalid("fast_path_output.flags", "encryption is not supported"))
    } else {
        match per::parse_length(b, 1) {
            Err(e) => Err(e),
            Ok((total, p)) => {
                let n = if total < p {
                    0
                } else {
                    total - p
                };
                if p + n > b.len() {
                    Err(cursor::short(b, p, n))
                } else {
                    updates_from(b.subrange(p, p + n), 0)
                }
            },
        }
    }
}

#[derive(Debug, Clone, PartialEq, Eq)]
pub struct FastPathOutput {
    pub updates: Vec<FastPathUpdatePdu>,
}

impl View for FastPathOutput {
    type V = Seq<FastPathUpdateView>;

    open spec fn view(&self) -> Seq<FastPathUpdateView> {
        model::views(self.updates@)
    }
}

/// Every update in `b`.
fn read_updates(b: &[u8]) -> (r: Result<Vec<FastPathUpdatePdu>, DecodeError>)
    ensures
        match updates_from(b@, 0) {
            Ok(updates) => r is Ok && model::views(r->Ok_0@) == updates,
            Err(e) => r == Err::<Vec<FastPathUpdatePdu>, DecodeError>(e),
        },
{
    let mut cursor = ReadCursor::new(b);
    let mut updates: Vec<FastPathUpdatePdu> = Vec::new();
    proof {
        if updates_from(b@, 0) is Ok {
            assert(model::views(updates@) + updates_from(b@, 0)->Ok_0 =~= updates_from(
                b@,
                0,
            )->Ok_0);
        }
    }
    while cursor.remaining() > 0
        invariant
            cursor.wf(),
            cursor.data() == b@,
            match updates_from(b@, cursor.offset()) {
                Ok(rest) => updates_from(b@, 0) == Ok::<Seq<FastPathUpdateView>, DecodeError>(
                    model::views(updates@) + rest,
                ),
                Err(e) => updates_from(b@, 0) == Err::<Seq<FastPathUpdateView>, DecodeError>(e),
            },
        decreases cursor.data().len() - cursor.offset(),
    {
        let ghost had = model::views(updates@);
        let update: FastPathUpdatePdu = FastPathUpdatePdu::decode(&mut cursor)?;
        let ghost v = update@;
        updates.push(update);
        proof {
            match updates_from(b@, cursor.offset()) {
                Ok(rest) => {
                    assert(had.push(v) + rest =~= had + (seq![v] + rest));
                },
                Err(_) => {},
            }
        }
    }
    assert(model::views(updates@) + Seq::<FastPathUpdateView>::empty() =~= model::views(updates@));
    Ok(updates)
}

impl FastPathOutput {
    pub fn encode(&self) -> (out: Vec<u8>)
        requires
            updates_wire(self@).len() <= usize::MAX - 3,
        ensures
            out@ == output_wire(self@),
    {
        let mut inner: Vec<u8> = Vec::new();
        let count: usize = self.updates.len();
        let mut i: usize = 0;
        assert(self@.take(0) =~= seq![]);
        while i < count
            invariant
                i <= count,
                count == self@.len(),
                inner@ == updates_wire(self@.take(i as int)),
            decreases count - i,
        {
            self.updates[i].encode(&mut inner);
            assert(self@.take(i + 1).drop_last() =~= self@.take(i as int));
            assert(self@.take(i + 1).last() == self.updates@[i as int]@);
            i = i + 1;
        }
        assert(self@.take(count as int) =~= self@);
        let total: usize = with_length(1 + inner.len());
        let mut out: Vec<u8> = Vec::new();
        out.write_u8(0);  // output, not encrypted
        per::write_length(&mut out, total);
        out.write_slice(inner.as_slice());
        assert(out@ =~= output_wire(self@));
        out
    }

    pub fn decode(input: &[u8]) -> (r: Result<Self, DecodeError>)
        ensures
            cursor::decodes_view(r, parse_output(input@)),
    {
        let mut cursor = ReadCursor::new(input);
        let header: u8 = cursor.take_u8()?;
        if header % 4 != 0 {
            return Err(
                DecodeError::InvalidValue {
                    field: "fast_path_output.action",
                    reason: "expected FASTPATH_OUTPUT",
                },
            );
        }
        if header / 64 != 0 {
            return Err(
                DecodeError::InvalidValue {
                    field: "fast_path_output.flags",
                    reason: "encryption is not supported",
                },
            );
        }
        let total: usize = per::read_length(&mut cursor)?;
        let before: usize = cursor.pos();
        let updates_len: usize = if total < before {
            0
        } else {
            total - before
        };
        let updates: Vec<FastPathUpdatePdu> = read_updates(cursor.take_slice(updates_len)?)?;
        Ok(Self { updates })
    }
}

proof fn lemma_update(b: Seq<u8>, p: int, update: FastPathUpdateView)
    requires
        update.fits(),
        bytes::holds_at(b, p, update.wire()),
    ensures
        parse_update(b, p) == Ok::<(FastPathUpdateView, int), DecodeError>(
            (update, p + update.wire().len()),
        ),
{
    broadcast use bytes::group_holds;

}

/// Reading on after updates that were written.
proof fn lemma_updates(b: Seq<u8>, p: int, updates: Seq<FastPathUpdateView>)
    requires
        forall|i: int| 0 <= i < updates.len() ==> (#[trigger] updates[i]).fits(),
        bytes::holds_at(b, p, updates_wire(updates)),
    ensures
        match updates_from(b, p + updates_wire(updates).len()) {
            Ok(rest) => updates_from(b, p) == Ok::<Seq<FastPathUpdateView>, DecodeError>(
                updates + rest,
            ),
            Err(e) => updates_from(b, p) == Err::<Seq<FastPathUpdateView>, DecodeError>(e),
        },
    decreases updates.len(),
{
    if updates.len() > 0 {
        let head = updates.drop_last();
        let last = updates.last();
        bytes::lemma_holds_add(b, p, updates_wire(head), last.wire());
        lemma_updates(b, p, head);
        let q = p + updates_wire(head).len();
        bytes::lemma_holds_bounds(b, q, last.wire());
        lemma_update(b, q, last);
        match updates_from(b, q + last.wire().len()) {
            Ok(rest) => {
                assert(head + (seq![last] + rest) =~= updates + rest);
            },
            Err(_) => {},
        }
    } else {
        match updates_from(b, p) {
            Ok(rest) => {
                assert(updates + rest =~= rest);
            },
            Err(_) => {},
        }
    }
}

/// An output message shorter than 32 KiB, whose updates fit their fields, is
/// read back as it was written, whatever comes after it.
pub proof fn law_output_round_trip(updates: Seq<FastPathUpdateView>, after: Seq<u8>)
    requires
        output_length(updates) <= 0x7FFF,
        forall|i: int| 0 <= i < updates.len() ==> (#[trigger] updates[i]).fits(),
    ensures
        parse_output(output_wire(updates) + after) == Ok::<Seq<FastPathUpdateView>, DecodeError>(
            updates,
        ),
        output_wire(updates).len() == output_length(updates),
{
    let b = output_wire(updates) + after;
    let body = updates_wire(updates);
    let n = output_length(updates) as usize;
    let l = per::length_bytes(n);
    bytes::lemma_holds_self(b);
    bytes::lemma_holds_add(b, 0, output_wire(updates), after);
    bytes::lemma_holds_add(b, 0, seq![0u8] + l, body);
    bytes::lemma_holds_add(b, 0, seq![0u8], l);
    bytes::lemma_holds_u8(b, 0, 0);
    per::law_length(b, 1, n);
    let p = (seq![0u8] + l).len() as int;
    bytes::lemma_holds_bounds(b, p, body);
    bytes::lemma_holds_self(body);
    lemma_updates(body, 0, updates);
    assert(updates + Seq::<FastPathUpdateView>::empty() =~= updates);
}

pub const BITMAP_UPDATE_TYPE: u16 = 0x0001;

pub const BITMAP_COMPRESSION: u16 = 0x0001;

/// A part of the screen. Its rows go from the bottom up.
///
/// Where `compressed_scan_width` is there, `data` is a compressed stream, and
/// the number is how many bytes a row takes uncompressed, a multiple of 4.
#[derive(Debug, Clone, PartialEq, Eq)]
pub struct BitmapRect {
    pub dest_left: u16,
    pub dest_top: u16,
    pub dest_right: u16,
    pub dest_bottom: u16,
    pub width: u16,
    pub height: u16,
    pub bits_per_pixel: u16,
    pub data: Vec<u8>,
    pub compressed_scan_width: Option<u16>,
}

pub struct BitmapRectView {
    pub dest_left: u16,
    pub dest_top: u16,
    pub dest_right: u16,
    pub dest_bottom: u16,
    pub width: u16,
    pub height: u16,
    pub bits_per_pixel: u16,
    pub data: Seq<u8>,
    pub compressed_scan_width: Option<u16>,
}

impl View for BitmapRect {
    type V = BitmapRectView;

    open spec fn view(&self) -> BitmapRectView {
        BitmapRectView {
            dest_left: self.dest_left,
            dest_top: self.dest_top,
            dest_right: self.dest_right,
            dest_bottom: self.dest_bottom,
            width: self.width,
            height: self.height,
            bits_per_pixel: self.bits_per_pixel,
            data: self.data@,
            compressed_scan_width: self.compressed_scan_width,
        }
    }
}

impl BitmapRectView {
    /// Whether the data fits the 16-bit length, and the width of a row is one
    /// that may be sent.
    pub open spec fn fits(self) -> bool {
        match self.compressed_scan_width {
            Some(scan_width) => self.data.len() + 8 <= 0xFFFF && scan_width % 4 == 0,
            None => self.data.len() <= 0xFFFF,
        }
    }

    pub open spec fn place(self) -> Seq<u8> {
        bytes::le16(self.dest_left) + bytes::le16(self.dest_top) + bytes::le16(self.dest_right)
            + bytes::le16(self.dest_bottom) + bytes::le16(self.width) + bytes::le16(self.height)
            + bytes::le16(self.bits_per_pixel)
    }

    pub open spec fn payload(self) -> Seq<u8> {
        match self.compressed_scan_width {
            Some(scan_width) => bytes::le16(BITMAP_COMPRESSION) + bytes::le16(
                bytes::low16(8int + self.data.len()),
            ) + bytes::le16(0) + bytes::le16(bytes::low16(self.data.len() as int)) + bytes::le16(
                scan_width,
            ) + bytes::le16(bytes::low16(self.height * scan_width)) + self.data,
            None => bytes::le16(0) + bytes::le16(bytes::low16(self.data.len() as int)) + self.data,
        }
    }

    pub open spec fn wire(self) -> Seq<u8> {
        self.place() + self.payload()
    }
}

/// The data of a rectangle whose flags stand at offset `p`, with the width of
/// its rows where it is compressed, and the offset after it.
pub open spec fn parse_payload(b: Seq<u8>, p: int) -> Result<
    ((Seq<u8>, Option<u16>), int),
    DecodeError,
> {
    if p + 4 > b.len() {
        Err(cursor::short(b, p + (b.len() - p) / 2 * 2, 2))
    } else if bytes::u16_le_at(b, p) % 2 == 0 {
        let n = bytes::u16_le_at(b, p + 2);
        if p + 4 + n > b.len() {
            Err(cursor::short(b, p + 4, n as int))
        } else {
            Ok(((b.subrange(p + 4, p + 4 + n), None), p + 4 + n))
        }
    } else if p + 12 > b.len() {
        Err(cursor::short(b, p + (b.len() - p) / 2 * 2, 2))
    } else {
        let n = bytes::u16_le_at(b, p + 6);
        if p + 12 + n > b.len() {
            Err(cursor::short(b, p + 12, n as int))
        } else {
            Ok(
                (
                    (b.subrange(p + 12, p + 12 + n), Some(bytes::u16_le_at(b, p + 8))),
                    p + 12 + n,
                ),
            )
        }
    }
}

/// The rectangle at offset `p`, and the offset after it.
pub open spec fn parse_rect(b: Seq<u8>, p: int) -> Result<(BitmapRectView, int), DecodeError> {
    if p + 14 > b.len() {
        Err(cursor::short(b, p + (b.len() - p) / 2 * 2, 2))
    } else {
        match parse_payload(b, p + 14) {
            Err(e) => Err(e),
            Ok(((data, compressed_scan_width), q)) => Ok(
                (
                    BitmapRectView {
                        dest_left: bytes::u16_le_at(b, p),
                        dest_top: bytes::u16_le_at(b, p + 2),
                        dest_right: bytes::u16_le_at(b, p + 4),
                        dest_bottom: bytes::u16_le_at(b, p + 6),
                        width: bytes::u16_le_at(b, p + 8),
                        height: bytes::u16_le_at(b, p + 10),
                        bits_per_pixel: bytes::u16_le_at(b, p + 12),
                        data,
                        compressed_scan_width,
                    },
                    q,
                ),
            ),
        }
    }
}

/// The low 16 bits of a product.
fn product16(a: u16, b: u16) -> (v: u16)
    ensures
        v == bytes::low16(a * b),
{
    proof {
        assert(a * b <= 0xFFFF * 0xFFFF) by (nonlinear_arith)
            requires
                a <= 0xFFFF,
                b <= 0xFFFF,
        ;
        assert(a * b >= 0) by (nonlinear_arith)
            requires
                a >= 0,
                b >= 0,
        ;
    }
    ((a as u32 * b as u32) % 0x1_0000) as u16
}

impl BitmapRect {
    fn encode(&self, out: &mut Vec<u8>)
        requires
            self@.fits(),
        ensures
            final(out)@ == old(out)@ + self@.wire(),
    {
        let ghost before = out@;
        out.write_u16_le(self.dest_left);
        out.write_u16_le(self.dest_top);
        out.write_u16_le(self.dest_right);
        out.write_u16_le(self.dest_bottom);
        out.write_u16_le(self.width);
        out.write_u16_le(self.height);
        out.write_u16_le(self.bits_per_pixel);
        assert(out@ =~= before + self@.place());
        match self.compressed_scan_width {
            Some(scan_width) => {
                out.write_u16_le(BITMAP_COMPRESSION);
                out.write_u16_le(bytes::len16(8 + self.data.len()));
                out.write_u16_le(0);  // size of the first row, always 0
                out.write_u16_le(bytes::len16(self.data.len()));
                out.write_u16_le(scan_width);
                out.write_u16_le(product16(self.height, scan_width));
                out.write_slice(self.data.as_slice());
            },
            None => {
                out.write_u16_le(0);  // not compressed
                out.write_u16_le(bytes::len16(self.data.len()));
                out.write_slice(self.data.as_slice());
            },
        }
        assert(out@ =~= before + self@.wire());
    }

    fn decode(cursor: &mut ReadCursor<'_>) -> (r: Result<Self, DecodeError>)
        requires
            old(cursor).wf(),
        ensures
            final(cursor).wf(),
            final(cursor).data() == old(cursor).data(),
            cursor::reads_view(
                r,
                final(cursor).offset(),
                parse_rect(old(cursor).data(), old(cursor).offset()),
            ),
    {
        let dest_left: u16 = cursor.take_u16_le()?;
        let dest_top: u16 = cursor.take_u16_le()?;
        let dest_right: u16 = cursor.take_u16_le()?;
        let dest_bottom: u16 = cursor.take_u16_le()?;
        let width: u16 = cursor.take_u16_le()?;
        let height: u16 = cursor.take_u16_le()?;
        let bits_per_pixel: u16 = cursor.take_u16_le()?;
        let flags: u16 = cursor.take_u16_le()?;
        let bitmap_length: u16 = cursor.take_u16_le()?;
        let data: Vec<u8>;
        let compressed_scan_width: Option<u16>;
        if flags % 2 == 1 {
            let _first_row_size: u16 = cursor.take_u16_le()?;
            let main_body_size: u16 = cursor.take_u16_le()?;
            let scan_width: u16 = cursor.take_u16_le()?;
            let _uncompressed_size: u16 = cursor.take_u16_le()?;
            data = slice_to_vec(cursor.take_slice(main_body_size as usize)?);
            compressed_scan_width = Some(scan_width);
        } else {
            data = slice_to_vec(cursor.take_slice(bitmap_length as usize)?);
            compressed_scan_width = None;
        }
        Ok(
            Self {
                dest_left,
                dest_top,
                dest_right,
                dest_bottom,
                width,
                height,
                bits_per_pixel,
                data,
                compressed_scan_width,
            },
        )
    }
}

/// `n` rectangles from offset `p` on, and the offset after them.
pub open spec fn parse_rects(b: Seq<u8>, p: int, n: int) -> Result<
    (Seq<BitmapRectView>, int),
    DecodeError,
>
    decreases n,
{
    if n <= 0 {
        Ok((seq![], p))
    } else {
        match parse_rects(b, p, n - 1) {
            Err(e) => Err(e),
            Ok((rects, q)) => match parse_rect(b, q) {
                Err(e) => Err(e),
                Ok((rect, next)) => Ok((rects.push(rect), next)),
            },
        }
    }
}

proof fn lemma_rects_error_stays(b: Seq<u8>, p: int, m: int, n: int)
    requires
        0 <= m <= n,
        parse_rects(b, p, m) is Err,
    ensures
        parse_rects(b, p, n) == parse_rects(b, p, m),
    decreases n - m,
{
    if m < n {
        lemma_rects_error_stays(b, p, m, n - 1);
    }
}

/// Rectangles one after the other.
pub open spec fn rects_wire(rects: Seq<BitmapRectView>) -> Seq<u8>
    decreases rects.len(),
{
    if rects.len() == 0 {
        seq![]
    } else {
        rects_wire(rects.drop_last()) + rects.last().wire()
    }
}

pub open spec fn bitmap_update_wire(rects: Seq<BitmapRectView>) -> Seq<u8> {
    bytes::le16(BITMAP_UPDATE_TYPE) + bytes::le16(bytes::low16(rects.len() as int)) + rects_wire(
        rects,
    )
}

pub open spec fn parse_bitmap_update(b: Seq<u8>) -> Result<Seq<BitmapRectView>, DecodeError> {
    if b.len() < 2 {
        Err(cursor::short(b, 0, 2))
    } else if bytes::u16_le_at(b, 0) % 2 == 0 {
        Err(
            cursor::invalid(
                "bitmap_update_data.update_type",
                "expected the BITMAP_UPDATE_TYPE bit set",
            ),
        )
    } else if b.len() < 4 {
        Err(cursor::short(b, 2, 2))
    } else {
        match parse_rects(b, 4, bytes::u16_le_at(b, 2) as int) {
            Err(e) => Err(e),
            Ok((rects, _)) => Ok(rects),
        }
    }
}

#[derive(Debug, Clone, PartialEq, Eq)]
pub struct BitmapUpdateData {
    pub rectangles: Vec<BitmapRect>,
}

impl View for BitmapUpdateData {
    type V = Seq<BitmapRectView>;

    open spec fn view(&self) -> Seq<BitmapRectView> {
        model::views(self.rectangles@)
    }
}

impl BitmapUpdateData {
    pub fn encode(&self) -> (out: Vec<u8>)
        requires
            forall|i: int| 0 <= i < self@.len() ==> (#[trigger] self@[i]).fits(),
        ensures
            out@ == bitmap_update_wire(self@),
    {
        let mut out: Vec<u8> = Vec::new();
        let count: usize = self.rectangles.len();
        out.write_u16_le(BITMAP_UPDATE_TYPE);
        out.write_u16_le(bytes::len16(count));
        let ghost head = bytes::le16(BITMAP_UPDATE_TYPE) + bytes::le16(bytes::low16(count as int));
        let mut i: usize = 0;
        assert(self@.take(0) =~= seq![]);
        assert(out@ =~= head + rects_wire(self@.take(0)));
        while i < count
            invariant
                i <= count,
                count == self@.len(),
                forall|i: int| 0 <= i < self@.len() ==> (#[trigger] self@[i]).fits(),
                out@ == head + rects_wire(self@.take(i as int)),
            decreases count - i,
        {
            assert(self@[i as int].fits());
            self.rectangles[i].encode(&mut out);
            assert(self@.take(i + 1).drop_last() =~= self@.take(i as int));
            assert(self@.take(i + 1).last() == self.rectangles@[i as int]@);
            assert(out@ =~= head + rects_wire(self@.take(i + 1)));
            i = i + 1;
        }
        assert(self@.take(count as int) =~= self@);
        out
    }

    pub fn decode(input: &[u8]) -> (r: Result<Self, DecodeError>)
        ensures
            cursor::decodes_view(r, parse_bitmap_update(input@)),
    {
        let mut cursor = ReadCursor::new(input);
        let update_type: u16 = cursor.take_u16_le()?;
        if update_type % 2 == 0 {
            return Err(
                DecodeError::InvalidValue {
                    field: "bitmap_update_data.update_type",
                    reason: "expected the BITMAP_UPDATE_TYPE bit set",
                },
            );
        }
        let count: u16 = cursor.take_u16_le()?;
        let mut rectangles: Vec<BitmapRect> = Vec::new();
        let mut i: u16 = 0;
        assert(model::views(rectangles@) =~= seq![]);
        while i < count
            invariant
                i <= count,
                cursor.wf(),
                cursor.data() == input@,
                parse_rects(input@, 4, i as int) == Ok::<(Seq<BitmapRectView>, int), DecodeError>(
                    (model::views(rectangles@), cursor.offset()),
                ),
                parse_rects(input@, 4, count as int) matches Err(e) ==> parse_bitmap_update(input@)
                    == Err::<Seq<BitmapRectView>, DecodeError>(e),
            decreases count - i,
        {
            match BitmapRect::decode(&mut cursor) {
                Ok(rect) => {
                    rectangles.push(rect);
                    i = i + 1;
                },
                Err(e) => {
                    proof {
                        lemma_rects_error_stays(input@, 4, i + 1, count as int);
                    }
                    return Err(e);
                },
            }
        }
        Ok(Self { rectangles })
    }
}

proof fn lemma_rect(b: Seq<u8>, p: int, rect: BitmapRectView)
    requires
        rect.fits(),
        bytes::holds_at(b, p, rect.wire()),
    ensures
        parse_rect(b, p) == Ok::<(BitmapRectView, int), DecodeError>((rect, p + rect.wire().len())),
{
    bytes::lemma_holds_add(b, p, rect.place(), rect.payload());
    assert(parse_payload(b, p + 14) == Ok::<((Seq<u8>, Option<u16>), int), DecodeError>(
        ((rect.data, rect.compressed_scan_width), p + rect.wire().len()),
    )) by {
        broadcast use bytes::group_holds;

    }
    assert(bytes::holds_at(b, p, rect.place()));
    assert(bytes::u16_le_at(b, p) == rect.dest_left && bytes::u16_le_at(b, p + 2) == rect.dest_top
        && bytes::u16_le_at(b, p + 4) == rect.dest_right && bytes::u16_le_at(b, p + 6)
        == rect.dest_bottom && bytes::u16_le_at(b, p + 8) == rect.width && bytes::u16_le_at(
        b,
        p + 10,
    ) == rect.height && bytes::u16_le_at(b, p + 12) == rect.bits_per_pixel && p + 14 <= b.len())
        by {
        broadcast use bytes::group_holds;

    }
}

proof fn lemma_rects(b: Seq<u8>, p: int, rects: Seq<BitmapRectView>)
    requires
        forall|i: int| 0 <= i < rects.len() ==> (#[trigger] rects[i]).fits(),
        bytes::holds_at(b, p, rects_wire(rects)),
    ensures
        parse_rects(b, p, rects.len() as int) == Ok::<(Seq<BitmapRectView>, int), DecodeError>(
            (rects, p + rects_wire(rects).len()),
        ),
    decreases rects.len(),
{
    if rects.len() > 0 {
        let head = rects.drop_last();
        bytes::lemma_holds_add(b, p, rects_wire(head), rects.last().wire());
        lemma_rects(b, p, head);
        lemma_rect(b, p + rects_wire(head).len(), rects.last());
        assert(head.push(rects.last()) =~= rects);
    } else {
        assert(rects =~= seq![]);
    }
}

/// A bitmap update of up to 65535 rectangles, each of which may be sent, is
/// read back as it was written, whatever comes after it.
pub proof fn law_bitmap_update_round_trip(rects: Seq<BitmapRectView>, after: Seq<u8>)
    requires
        rects.len() <= 0xFFFF,
        forall|i: int| 0 <= i < rects.len() ==> (#[trigger] rects[i]).fits(),
    ensures
        parse_bitmap_update(bitmap_update_wire(rects) + after) == Ok::<
            Seq<BitmapRectView>,
            DecodeError,
        >(rects),
{
    let b = bitmap_update_wire(rects) + after;
    let t = bytes::le16(BITMAP_UPDATE_TYPE);
    let c = bytes::le16(bytes::low16(rects.len() as int));
    bytes::lemma_holds_self(b);
    bytes::lemma_holds_add(b, 0, bitmap_update_wire(rects), after);
    bytes::lemma_holds_add(b, 0, t + c, rects_wire(rects));
    bytes::lemma_holds_add(b, 0, t, c);
    bytes::lemma_holds_le16(b, 0, BITMAP_UPDATE_TYPE);
    bytes::lemma_holds_le16(b, 2, bytes::low16(rects.len() as int));
    lemma_rects(b, 4, rects);
}

/// Where the events of a message begin and end.
proof fn lemma_offsets(b: Seq<u8>, p: int, n: int) -> (at: Seq<int>)
    requires
        0 <= n,
        parse_events(b, p, n) is Ok,
    ensures
        at.len() == n + 1,
        at[0] == p,
        at[n] == parse_events(b, p, n)->Ok_0.1,
        parse_events(b, p, n)->Ok_0.0.len() == n,
        forall|i: int|
            0 <= i < n ==> parse_event(b, #[trigger] at[i]) == Ok::<
                (FastPathInputEvent, int),
                DecodeError,
            >((parse_events(b, p, n)->Ok_0.0[i], at[i + 1])),
    decreases n,
{
    if n == 0 {
        seq![p]
    } else {
        let before = lemma_offsets(b, p, n - 1);
        let at = before.push(parse_events(b, p, n)->Ok_0.1);
        assert forall|i: int| 0 <= i < n implies parse_event(b, #[trigger] at[i]) == Ok::<
            (FastPathInputEvent, int),
            DecodeError,
        >((parse_events(b, p, n)->Ok_0.0[i], at[i + 1])) by {
            if i < n - 1 {
                assert(parse_event(b, before[i]) is Ok);
            }
        }
        at
    }
}

/// The bytes of one event say what it is: the top three bits of the first byte are
/// its kind, and the other five its flags. A key event has the scan code in the
/// byte after them; a mouse event its flags in the next two bytes, then two for the
/// column and two for the row, low byte first; a Unicode event two for the unit.
pub proof fn law_event(b: Seq<u8>, p: int)
    requires
        0 <= p < b.len(),
    ensures
        b[p] < 32 && p + 2 <= b.len() ==> parse_event(b, p) == Ok::<
            (FastPathInputEvent, int),
            DecodeError,
        >((FastPathInputEvent::Scancode { flags: b[p], code: b[p + 1] }, p + 2)),
        32 <= b[p] < 64 && p + 7 <= b.len() ==> parse_event(b, p) == Ok::<
            (FastPathInputEvent, int),
            DecodeError,
        >(
            (
                FastPathInputEvent::Mouse {
                    pointer_flags: (b[p + 1] + 256 * b[p + 2]) as u16,
                    x: (b[p + 3] + 256 * b[p + 4]) as u16,
                    y: (b[p + 5] + 256 * b[p + 6]) as u16,
                },
                p + 7,
            ),
        ),
        96 <= b[p] < 128 ==> parse_event(b, p) == Ok::<(FastPathInputEvent, int), DecodeError>(
            (FastPathInputEvent::Sync { flags: (b[p] - 96) as u8 }, p + 1),
        ),
        128 <= b[p] < 160 && p + 3 <= b.len() ==> parse_event(b, p) == Ok::<
            (FastPathInputEvent, int),
            DecodeError,
        >(
            (
                FastPathInputEvent::Unicode {
                    flags: (b[p] - 128) as u8,
                    code: (b[p + 1] + 256 * b[p + 2]) as u16,
                },
                p + 3,
            ),
        ),
        64 <= b[p] < 96 || 160 <= b[p] ==> parse_event(b, p) is Err,
{
    bytes::law_byte_order(b, p + 1);
    bytes::law_byte_order(b, p + 3);
    bytes::law_byte_order(b, p + 5);
}

/// A message that is read gives as many events as it counts, in the first byte
/// or, where that counts none, in the byte after the length. The events lie one
/// after the other, and each is what its own bytes say.
pub proof fn law_input_decoded(input: &[u8], r: Result<FastPathInput, DecodeError>)
    requires
        call_ensures(FastPathInput::decode, (input,), r),
        r is Ok,
    ensures
        input@.len() >= 2,
        input@[0] % 4 == 0,
        input@[0] < 64,
        exists|at: Seq<int>| #[trigger]
            at.len() == r->Ok_0.events@.len() + 1 && ({
                let b = input@;
                let events = r->Ok_0.events@;
                let start = if b[1] < 128 {
                    2int
                } else {
                    3
                };
                &&& if b[0] == 0 {
                    at[0] == start + 1 && events.len() == b[start]
                } else {
                    at[0] == start && events.len() == b[0] / 4
                }
                &&& forall|i: int|
                    0 <= i < events.len() ==> {
                        let p = #[trigger] at[i];
                        &&& 0 <= p < at[i + 1] <= b.len()
                        &&& match events[i] {
                            FastPathInputEvent::Scancode { flags, code } => {
                                &&& b[p] / 32 == 0
                                &&& at[i + 1] == p + 2
                                &&& flags == b[p] % 32
                                &&& code == b[p + 1]
                            },
                            FastPathInputEvent::Mouse { pointer_flags, x, y } => {
                                &&& b[p] / 32 == 1
                                &&& at[i + 1] == p + 7
                                &&& pointer_flags == b[p + 1] + 256 * b[p + 2]
                                &&& x == b[p + 3] + 256 * b[p + 4]
                                &&& y == b[p + 5] + 256 * b[p + 6]
                            },
                            FastPathInputEvent::Sync { flags } => {
                                &&& b[p] / 32 == 3
                                &&& at[i + 1] == p + 1
                                &&& flags == b[p] % 32
                            },
                            FastPathInputEvent::Unicode { flags, code } => {
                                &&& b[p] / 32 == 4
                                &&& at[i + 1] == p + 3
                                &&& flags == b[p] % 32
                                &&& code == b[p + 1] + 256 * b[p + 2]
                            },
                        }
                    }
            }),
{
    let b = input@;
    let events = r->Ok_0.events@;
    per::law_length_bytes(b, 1, 0);
    let start = if b[1] < 128 {
        2int
    } else {
        3
    };
    let first = if b[0] == 0 {
        start + 1
    } else {
        start
    };
    let n = if b[0] == 0 {
        b[start] as int
    } else {
        b[0] as int / 4
    };
    assert(parse_events(b, first, n) is Ok);
    let at = lemma_offsets(b, first, n);
    assert(events == parse_events(b, first, n)->Ok_0.0);
    lemma_offsets_grow(b, at, events);
    assert forall|i: int| 0 <= i < events.len() implies {
        let p = #[trigger] at[i];
        &&& 0 <= p < at[i + 1] <= b.len()
        &&& match events[i] {
            FastPathInputEvent::Scancode { flags, code } => {
                &&& b[p] / 32 == 0
                &&& at[i + 1] == p + 2
                &&& flags == b[p] % 32
                &&& code == b[p + 1]
            },
            FastPathInputEvent::Mouse { pointer_flags, x, y } => {
                &&& b[p] / 32 == 1
                &&& at[i + 1] == p + 7
                &&& pointer_flags == b[p + 1] + 256 * b[p + 2]
                &&& x == b[p + 3] + 256 * b[p + 4]
                &&& y == b[p + 5] + 256 * b[p + 6]
            },
            FastPathInputEvent::Sync { flags } => {
                &&& b[p] / 32 == 3
                &&& at[i + 1] == p + 1
                &&& flags == b[p] % 32
            },
            FastPathInputEvent::Unicode { flags, code } => {
                &&& b[p] / 32 == 4
                &&& at[i + 1] == p + 3
                &&& flags == b[p] % 32
                &&& code == b[p + 1] + 256 * b[p + 2]
            },
        }
    } by {
        let p = at[i];
        assert(parse_event(b, p) is Ok);
        assert(at[i] >= first);
        law_event(b, p);
        bytes::law_byte_order(b, p + 1);
        bytes::law_byte_order(b, p + 3);
        bytes::law_byte_order(b, p + 5);
    }
}

proof fn lemma_offsets_grow(b: Seq<u8>, at: Seq<int>, events: Seq<FastPathInputEvent>)
    requires
        at.len() == events.len() + 1,
        forall|i: int|
            0 <= i < events.len() ==> parse_event(b, #[trigger] at[i]) == Ok::<
                (FastPathInputEvent, int),
                DecodeError,
            >((events[i], at[i + 1])),
    ensures
        forall|i: int| 0 <= i < at.len() ==> #[trigger] at[i] >= at[0],
    decreases events.len(),
{
    if events.len() > 0 {
        let n = events.len() as int;
        let head = at.drop_last();
        assert forall|i: int| 0 <= i < n - 1 implies parse_event(b, #[trigger] head[i]) == Ok::<
            (FastPathInputEvent, int),
            DecodeError,
        >((events.drop_last()[i], head[i + 1])) by {
            assert(head[i] == at[i] && head[i + 1] == at[i + 1]);
        }
        lemma_offsets_grow(b, head, events.drop_last());
        assert forall|i: int| 0 <= i < at.len() implies #[trigger] at[i] >= at[0] by {
            if i < n {
                assert(head[i] == at[i]);
            } else {
                assert(head[n - 1] == at[n - 1]);
                assert(parse_event(b, at[n - 1]) is Ok);
            }
        }
    }
}

/// A client's events are written with the same bytes: the kind and flags in one,
/// and what belongs to the kind, low byte first.
pub proof fn law_event_bytes(event: FastPathInputEvent)
    ensures
        event matches FastPathInputEvent::Scancode { flags, code } ==> event.wire() == seq![
            flags % 32,
            code,
        ],
        event matches FastPathInputEvent::Mouse { pointer_flags, x, y } ==> event.wire() == seq![
            32u8,
            (pointer_flags % 256) as u8,
            (pointer_flags / 256) as u8,
            (x % 256) as u8,
            (x / 256) as u8,
            (y % 256) as u8,
            (y / 256) as u8,
        ],
        event matches FastPathInputEvent::Sync { flags } ==> event.wire() == seq![
            (96 + flags % 32) as u8,
        ],
        event matches FastPathInputEvent::Unicode { flags, code } ==> event.wire() == seq![
            (128 + flags % 32) as u8,
            (code % 256) as u8,
            (code / 256) as u8,
        ],
{
    reveal(bytes::le16);
    match event {
        FastPathInputEvent::Scancode { flags, code } => {
            assert(event.wire() =~= seq![flags % 32, code]);
        },
        FastPathInputEvent::Mouse { pointer_flags, x, y } => {
            assert(event.wire() =~= seq![
                32u8,
                (pointer_flags % 256) as u8,
                (pointer_flags / 256) as u8,
                (x % 256) as u8,
                (x / 256) as u8,
                (y % 256) as u8,
                (y / 256) as u8,
            ]);
        },
        FastPathInputEvent::Sync { flags } => {},
        FastPathInputEvent::Unicode { flags, code } => {
            assert(event.wire() =~= seq![
                (128 + flags % 32) as u8,
                (code % 256) as u8,
                (code / 256) as u8,
            ]);
        },
    }
}

/// An update says in its first byte what it is, in the low four bits, and which
/// fragment, in the next two: the only one, the last, the first or one between.
/// The length of its data comes next, low byte first, and then the data.
pub proof fn law_update_bytes(update: FastPathUpdateView, b: Seq<u8>, p: int)
    requires
        0 <= p < b.len(),
    ensures
        update.fits() ==> {
            &&& update.wire().len() == 3 + update.data.len()
            &&& update.wire()[0] % 16 == update.update_code
            &&& update.wire()[0] / 16 == (match update.fragmentation {
                Fragmentation::Single => 0int,
                Fragmentation::Last => 1,
                Fragmentation::First => 2,
                Fragmentation::Next => 3,
            })
            &&& update.wire()[1] + 256 * update.wire()[2] == update.data.len()
            &&& update.wire().skip(3) == update.data
        },
        parse_update(b, p) matches Ok((v, q)) ==> {
            &&& b[p] < 128
            &&& v.update_code == b[p] % 16
            &&& v.fragmentation == (if b[p] / 16 % 4 == 0 {
                Fragmentation::Single
            } else if b[p] / 16 % 4 == 1 {
                Fragmentation::Last
            } else if b[p] / 16 % 4 == 2 {
                Fragmentation::First
            } else {
                Fragmentation::Next
            })
            &&& q == p + 3 + b[p + 1] + 256 * b[p + 2] <= b.len()
            &&& v.data == b.subrange(p + 3, q)
        },
{
    bytes::law_byte_order(b, p + 1);
    bytes::law_number_bytes(bytes::low16(update.data.len() as int), 0, 0);
    assert(update.wire().skip(3) =~= update.data);
}

/// A rectangle of a bitmap update gives its four edges, its size and depth, each in
/// two bytes, then whether it is compressed and how long its data is; compressed
/// data has a header of its own with its length, the width of a row and the size of
/// what it unpacks to.
pub proof fn law_rect_bytes(rect: BitmapRectView, b: Seq<u8>, p: int)
    requires
        0 <= p,
        p + 18 <= b.len(),
    ensures
        ({
            let w = rect.wire();
            &&& bytes::u16_le_at(w, 0) == rect.dest_left
            &&& bytes::u16_le_at(w, 2) == rect.dest_top
            &&& bytes::u16_le_at(w, 4) == rect.dest_right
            &&& bytes::u16_le_at(w, 6) == rect.dest_bottom
            &&& bytes::u16_le_at(w, 8) == rect.width
            &&& bytes::u16_le_at(w, 10) == rect.height
            &&& bytes::u16_le_at(w, 12) == rect.bits_per_pixel
            &&& rect.fits() ==> match rect.compressed_scan_width {
                None => {
                    &&& bytes::u16_le_at(w, 14) == 0
                    &&& bytes::u16_le_at(w, 16) == rect.data.len()
                    &&& w.skip(18) == rect.data
                },
                Some(scan_width) => {
                    &&& bytes::u16_le_at(w, 14) == 1
                    &&& bytes::u16_le_at(w, 16) == 8 + rect.data.len()
                    &&& bytes::u16_le_at(w, 18) == 0
                    &&& bytes::u16_le_at(w, 20) == rect.data.len()
                    &&& bytes::u16_le_at(w, 22) == scan_width
                    &&& bytes::u16_le_at(w, 24) == (rect.height * scan_width) % 65536
                    &&& w.skip(26) == rect.data
                },
            }
        }),
        parse_rect(b, p) matches Ok((v, q)) ==> {
            &&& v.dest_left == bytes::u16_le_at(b, p)
            &&& v.dest_top == bytes::u16_le_at(b, p + 2)
            &&& v.dest_right == bytes::u16_le_at(b, p + 4)
            &&& v.dest_bottom == bytes::u16_le_at(b, p + 6)
            &&& v.width == bytes::u16_le_at(b, p + 8)
            &&& v.height == bytes::u16_le_at(b, p + 10)
            &&& v.bits_per_pixel == bytes::u16_le_at(b, p + 12)
            &&& if bytes::u16_le_at(b, p + 14) % 2 == 0 {
                &&& v.compressed_scan_width is None
                &&& q == p + 18 + bytes::u16_le_at(b, p + 16)
                &&& v.data == b.subrange(p + 18, q)
            } else {
                &&& v.compressed_scan_width == Some(bytes::u16_le_at(b, p + 22))
                &&& q == p + 26 + bytes::u16_le_at(b, p + 20)
                &&& v.data == b.subrange(p + 26, q)
            }
        },
{
    let w = rect.wire();
    match rect.compressed_scan_width {
        None => {
            assert(w.skip(18) =~= rect.data);
        },
        Some(_) => {
            assert(w.skip(26) =~= rect.data);
        },
    }
}

/// An output message is one byte of zero, its own length, and its updates in
/// order. An input message counts its events in the first byte where they are fewer
/// than fifteen, and after its length where they are more.
pub proof fn law_message_bytes(
    message: &FastPathOutput,
    out: Vec<u8>,
    input: &FastPathInput,
    sent: Vec<u8>,
)
    requires
        call_ensures(FastPathOutput::encode, (message,), out),
        call_ensures(FastPathInput::encode, (input,), sent),
        out@.len() < 32768,
        sent@.len() < 32768,
        input.events@.len() < 256,
    ensures
        out@[0] == 0,
        ({
            let updates = model::joined(Seq::new(message@.len(), |i: int| message@[i].wire()));
            &&& out@.len() < 128 ==> out@[1] == out@.len() && out@.skip(2) == updates
            &&& out@.len() >= 128 ==> out@[1] == 128 + out@.len() / 256 && out@[2] == out@.len()
                % 256 && out@.skip(3) == updates
        }),
        ({
            let n = input.events@.len();
            let events = model::joined(Seq::new(n, |i: int| input.events@[i].wire()));
            let start: int = if sent@.len() < 128 {
                2
            } else {
                3
            };
            &&& sent@.len() < 128 ==> sent@[1] == sent@.len()
            &&& sent@.len() >= 128 ==> sent@[1] == 128 + sent@.len() / 256 && sent@[2]
                == sent@.len() % 256
            &&& n < 15 ==> sent@[0] == 4 * n && sent@.skip(start) == events
            &&& n >= 15 ==> sent@[0] == 0 && sent@[start] == n && sent@.skip(start + 1) == events
        }),
{
    lemma_updates_joined(message@);
    lemma_events_joined(input.events@);
    let total = output_length(message@);
    per::law_length_bytes(out@, 1, total as usize);
    let l = per::length_bytes(total as usize);
    let body = updates_wire(message@);
    assert(out@.len() == 1 + l.len() + body.len());
    if total < 128 {
        assert(out@.skip(2) =~= body);
    } else if total < 32768 {
        assert(out@.skip(3) =~= body);
    }
    let n = input.events@.len();
    let length = input_length(input@);
    per::law_length_bytes(sent@, 1, length as usize);
    let k = per::length_bytes(length as usize);
    let events = events_wire(input@);
    let c: int = if n < 15 {
        0
    } else {
        1
    };
    assert(sent@.len() == 1 + k.len() + c + events.len());
    if length < 128 {
        assert(sent@.skip(2 + c) =~= events);
    } else if length < 32768 {
        assert(sent@.skip(3 + c) =~= events);
    }
}

proof fn lemma_updates_joined(updates: Seq<FastPathUpdateView>)
    ensures
        updates_wire(updates) == model::joined(Seq::new(updates.len(), |i: int| updates[i].wire())),
    decreases updates.len(),
{
    let parts = Seq::new(updates.len(), |i: int| updates[i].wire());
    if updates.len() > 0 {
        let head = updates.drop_last();
        lemma_updates_joined(head);
        assert(parts.drop_last() =~= Seq::new(head.len(), |i: int| head[i].wire()));
    }
}

proof fn lemma_events_joined(events: Seq<FastPathInputEvent>)
    ensures
        events_wire(events) == model::joined(Seq::new(events.len(), |i: int| events[i].wire())),
    decreases events.len(),
{
    let parts = Seq::new(events.len(), |i: int| events[i].wire());
    if events.len() > 0 {
        let head = events.drop_last();
        lemma_events_joined(head);
        assert(parts.drop_last() =~= Seq::new(head.len(), |i: int| head[i].wire()));
    }
}

/// A bitmap update is marked as one, counts its rectangles, and holds them in
/// order.
pub proof fn law_bitmap_update_bytes(rects: Seq<BitmapRectView>)
    requires
        rects.len() <= 65535,
    ensures
        bytes::u16_le_at(bitmap_update_wire(rects), 0) == 1,
        bytes::u16_le_at(bitmap_update_wire(rects), 2) == rects.len(),
        bitmap_update_wire(rects).skip(4) == model::joined(
            Seq::new(rects.len(), |i: int| rects[i].wire()),
        ),
    decreases rects.len(),
{
    assert(bitmap_update_wire(rects).skip(4) =~= rects_wire(rects));
    lemma_rects_joined(rects);
}

proof fn lemma_rects_joined(rects: Seq<BitmapRectView>)
    ensures
        rects_wire(rects) == model::joined(Seq::new(rects.len(), |i: int| rects[i].wire())),
    decreases rects.len(),
{
    let parts = Seq::new(rects.len(), |i: int| rects[i].wire());
    if rects.len() > 0 {
        let head = rects.drop_last();
        lemma_rects_joined(head);
        assert(parts.drop_last() =~= Seq::new(head.len(), |i: int| head[i].wire()));
    }
}

} // verus!
