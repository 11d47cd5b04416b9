//! The multipoint layer: Connect-Initial and Connect-Response, which carry the
//! conference data of `gcc` as opaque bytes, and the domain messages that set a
//! domain up, join its channels and send data on them.

use vstd::prelude::*;
use vstd::slice::slice_to_vec;

use crate::ber;
use crate::bytes;
use crate::cursor;
use crate::cursor::{ReadCursor, WriteBuf};
use crate::per;
use crate::DecodeError;

verus! {

broadcast use bytes::group_bytes;

/// User ids are encoded as their distance from this one.
pub const BASE_CHANNEL_ID: u16 = 1001;

pub const MCS_TYPE_CONNECT_INITIAL: u8 = 0x65;

pub const MCS_TYPE_CONNECT_RESPONSE: u8 = 0x66;

#[derive(Debug, Clone, Copy, PartialEq, Eq)]
pub struct DomainParameters {
    pub max_channel_ids: u32,
    pub max_user_ids: u32,
    pub max_token_ids: u32,
    pub num_priorities: u32,
    pub min_throughput: u32,
    pub max_height: u32,
    pub max_mcs_pdu_size: u32,
    pub protocol_version: u32,
}

/// The encodings of integers, one after the other.
pub open spec fn integers_wire(s: Seq<u32>) -> Seq<u8>
    decreases s.len(),
{
    if s.len() == 0 {
        seq![]
    } else {
        integers_wire(s.drop_last()) + ber::integer_bytes(s.last())
    }
}

/// `n` integers read from offset `p` on.
pub open spec fn parse_integers(b: Seq<u8>, p: int, n: nat) -> Result<(Seq<u32>, int), DecodeError>
    decreases n,
{
    if n == 0 {
        Ok((seq![], p))
    } else {
        match parse_integers(b, p, (n - 1) as nat) {
            Err(e) => Err(e),
            Ok((s, q)) => match ber::parse_integer(b, q) {
                Err(e) => Err(e),
                Ok((v, next)) => Ok((s.push(v), next)),
            },
        }
    }
}

proof fn lemma_integers_error_stays(b: Seq<u8>, p: int, k: nat, n: nat)
    requires
        k <= n,
        parse_integers(b, p, k) is Err,
    ensures
        parse_integers(b, p, n) == parse_integers(b, p, k),
    decreases n,
{
    if k < n {
        lemma_integers_error_stays(b, p, k, (n - 1) as nat);
    }
}

fn read_integers(cursor: &mut ReadCursor<'_>, n: usize) -> (r: Result<Vec<u32>, DecodeError>)
    requires
        old(cursor).wf(),
    ensures
        final(cursor).wf(),
        final(cursor).data() == old(cursor).data(),
        cursor::reads_view(
            r,
            final(cursor).offset(),
            parse_integers(old(cursor).data(), old(cursor).offset(), n as nat),
        ),
{
    let ghost b = cursor.data();
    let ghost p = cursor.offset();
    let mut out: Vec<u32> = Vec::new();
    let mut i: usize = 0;
    assert(out@ =~= Seq::<u32>::empty());
    while i < n
        invariant
            i <= n,
            cursor.wf(),
            cursor.data() == b,
            old(cursor).data() == b,
            old(cursor).offset() == p,
            parse_integers(b, p, i as nat) == Ok::<(Seq<u32>, int), DecodeError>(
                (out@, cursor.offset()),
            ),
        decreases n - i,
    {
        match ber::read_integer(cursor) {
            Ok(v) => {
                out.push(v);
            },
            Err(e) => {
                proof {
                    lemma_integers_error_stays(b, p, (i + 1) as nat, n as nat);
                }
                return Err(e);
            },
        }
        i = i + 1;
    }
    Ok(out)
}

proof fn lemma_integers_round_trip(b: Seq<u8>, p: int, s: Seq<u32>)
    requires
        bytes::holds_at(b, p, integers_wire(s)),
    ensures
        parse_integers(b, p, s.len()) == Ok::<(Seq<u32>, int), DecodeError>(
            (s, p + integers_wire(s).len()),
        ),
    decreases s.len(),
{
    if s.len() > 0 {
        let init = s.drop_last();
        bytes::lemma_holds_add(b, p, integers_wire(init), ber::integer_bytes(s.last()));
        lemma_integers_round_trip(b, p, init);
        ber::law_integer(b, p + integers_wire(init).len(), s.last());
        assert(init.push(s.last()) =~= s);
    } else {
        assert(s =~= Seq::<u32>::empty());
    }
}

proof fn lemma_integers_wire_push(s: Seq<u32>, v: u32)
    ensures
        integers_wire(s.push(v)) == integers_wire(s) + ber::integer_bytes(v),
{
    assert(s.push(v).drop_last() =~= s);
}

proof fn lemma_integers_wire_len(s: Seq<u32>)
    ensures
        integers_wire(s).len() <= 6 * s.len(),
    decreases s.len(),
{
    if s.len() > 0 {
        lemma_integers_wire_len(s.drop_last());
    }
}

/// Domain parameters at offset `p`. The length of the sequence is read and not
/// used.
pub open spec fn parse_parameters(b: Seq<u8>, p: int) -> Result<
    (DomainParameters, int),
    DecodeError,
> {
    match ber::parse_tagged(b, p, ber::TAG_SEQUENCE, "ber.sequence") {
        Err(e) => Err(e),
        Ok((_, q)) => match parse_integers(b, q, 8) {
            Err(e) => Err(e),
            Ok((s, next)) => Ok((DomainParameters::of(s), next)),
        },
    }
}

impl DomainParameters {
    /// The fields in the order in which they are encoded.
    pub open spec fn fields(self) -> Seq<u32> {
        seq![
            self.max_channel_ids,
            self.max_user_ids,
            self.max_token_ids,
            self.num_priorities,
            self.min_throughput,
            self.max_height,
            self.max_mcs_pdu_size,
            self.protocol_version,
        ]
    }

    /// The parameters with the given fields.
    pub open spec fn of(s: Seq<u32>) -> Self {
        DomainParameters {
            max_channel_ids: s[0],
            max_user_ids: s[1],
            max_token_ids: s[2],
            num_priorities: s[3],
            min_throughput: s[4],
            max_height: s[5],
            max_mcs_pdu_size: s[6],
            protocol_version: s[7],
        }
    }

    pub open spec fn wire(self) -> Seq<u8> {
        ber::sequence_tag_bytes(integers_wire(self.fields()).len() as usize) + integers_wire(
            self.fields(),
        )
    }

    /// What a server answers, whatever the client asked for.
    #[verifier::allow_in_spec]
    pub fn target() -> Self
        returns
            (DomainParameters {
                max_channel_ids: 34,
                max_user_ids: 2,
                max_token_ids: 0,
                num_priorities: 1,
                min_throughput: 0,
                max_height: 1,
                max_mcs_pdu_size: 65535,
                protocol_version: 2,
            }),
    {
        DomainParameters {
            max_channel_ids: 34,
            max_user_ids: 2,
            max_token_ids: 0,
            num_priorities: 1,
            min_throughput: 0,
            max_height: 1,
            max_mcs_pdu_size: 65535,
            protocol_version: 2,
        }
    }

    /// The lower end of what a client asks for.
    #[verifier::allow_in_spec]
    pub fn min() -> Self
        returns
            (DomainParameters {
                max_channel_ids: 1,
                max_user_ids: 1,
                max_token_ids: 1,
                num_priorities: 1,
                min_throughput: 0,
                max_height: 1,
                max_mcs_pdu_size: 1056,
                protocol_version: 2,
            }),
    {
        DomainParameters {
            max_channel_ids: 1,
            max_user_ids: 1,
            max_token_ids: 1,
            num_priorities: 1,
            min_throughput: 0,
            max_height: 1,
            max_mcs_pdu_size: 1056,
            protocol_version: 2,
        }
    }

    /// The upper end of what a client asks for.
    #[verifier::allow_in_spec]
    pub fn max() -> Self
        returns
            (DomainParameters {
                max_channel_ids: 65535,
                max_user_ids: 64535,
                max_token_ids: 65535,
                num_priorities: 1,
                min_throughput: 0,
                max_height: 1,
                max_mcs_pdu_size: 65535,
                protocol_version: 2,
            }),
    {
        DomainParameters {
            max_channel_ids: 65535,
            max_user_ids: 64535,
            max_token_ids: 65535,
            num_priorities: 1,
            min_throughput: 0,
            max_height: 1,
            max_mcs_pdu_size: 65535,
            protocol_version: 2,
        }
    }

    pub fn write(&self, out: &mut Vec<u8>)
        ensures
            final(out)@ == old(out)@ + self.wire(),
    {
        let ghost before = out@;
        let values: [u32; 8] = [
            self.max_channel_ids,
            self.max_user_ids,
            self.max_token_ids,
            self.num_priorities,
            self.min_throughput,
            self.max_height,
            self.max_mcs_pdu_size,
            self.protocol_version,
        ];
        let mut body: Vec<u8> = Vec::new();
        let mut i: usize = 0;
        assert(values@ =~= self.fields());
        assert(values@.take(0) =~= Seq::<u32>::empty());
        while i < 8
            invariant
                i <= 8,
                values@ == self.fields(),
                body@ == integers_wire(values@.take(i as int)),
            decreases 8 - i,
        {
            ber::write_integer(&mut body, values[i]);
            proof {
                lemma_integers_wire_push(values@.take(i as int), values@[i as int]);
                assert(values@.take(i + 1) =~= values@.take(i as int).push(values@[i as int]));
            }
            i = i + 1;
        }
        assert(values@.take(8) =~= self.fields());
        ber::write_sequence_tag(out, body.len());
        out.write_slice(body.as_slice());
        assert(out@ =~= before + self.wire());
    }

    pub fn decode(cursor: &mut ReadCursor<'_>) -> (r: Result<Self, DecodeError>)
        requires
            old(cursor).wf(),
        ensures
            final(cursor).wf(),
            final(cursor).data() == old(cursor).data(),
            cursor::reads(
                r,
                final(cursor).offset(),
                parse_parameters(old(cursor).data(), old(cursor).offset()),
            ),
    {
        let _len: usize = ber::read_sequence_tag(cursor)?;
        let ghost q = cursor.offset();
        let v: Vec<u32> = read_integers(cursor, 8)?;
        proof {
            lemma_integers_count(old(cursor).data(), q, 8);
        }
        Ok(
            Self {
                max_channel_ids: v[0],
                max_user_ids: v[1],
                max_token_ids: v[2],
                num_priorities: v[3],
                min_throughput: v[4],
                max_height: v[5],
                max_mcs_pdu_size: v[6],
                protocol_version: v[7],
            },
        )
    }
}

proof fn lemma_integers_count(b: Seq<u8>, p: int, n: nat)
    ensures
        parse_integers(b, p, n) matches Ok((s, _)) ==> s.len() == n,
    decreases n,
{
    if n > 0 {
        lemma_integers_count(b, p, (n - 1) as nat);
    }
}

/// Domain parameters are read back as they were written.
pub proof fn law_parameters(b: Seq<u8>, p: int, d: DomainParameters)
    requires
        bytes::holds_at(b, p, d.wire()),
    ensures
        parse_parameters(b, p) == Ok::<(DomainParameters, int), DecodeError>(
            (d, p + d.wire().len()),
        ),
{
    let s = d.fields();
    let tag = ber::sequence_tag_bytes(integers_wire(s).len() as usize);
    lemma_integers_wire_len(s);
    bytes::lemma_holds_add(b, p, tag, integers_wire(s));
    ber::law_sequence_tag(b, p, integers_wire(s).len() as usize);
    lemma_integers_round_trip(b, p + tag.len(), s);
}

/// Client to server. `user_data` is an encoded conference request.
#[derive(Debug, Clone, PartialEq, Eq)]
pub struct ConnectInitial {
    pub target_parameters: DomainParameters,
    pub min_parameters: DomainParameters,
    pub max_parameters: DomainParameters,
    pub user_data: Vec<u8>,
}

/// What a [`ConnectInitial`] holds.
pub struct ConnectInitialView {
    pub target_parameters: DomainParameters,
    pub min_parameters: DomainParameters,
    pub max_parameters: DomainParameters,
    pub user_data: Seq<u8>,
}

impl View for ConnectInitial {
    type V = ConnectInitialView;

    open spec fn view(&self) -> ConnectInitialView {
        ConnectInitialView {
            target_parameters: self.target_parameters,
            min_parameters: self.min_parameters,
            max_parameters: self.max_parameters,
            user_data: self.user_data@,
        }
    }
}

/// What a Connect-Initial says. The domain selectors, the upward flag and the
/// outer length are read and not used.
pub open spec fn parse_connect_initial(b: Seq<u8>) -> Result<ConnectInitialView, DecodeError> {
    match ber::parse_application_tag(b, 0, MCS_TYPE_CONNECT_INITIAL) {
        Err(e) => Err(e),
        Ok((_, p0)) => match ber::parse_contents(b, p0, ber::TAG_OCTET_STRING, "ber.octet_string") {
            Err(e) => Err(e),
            Ok((_, p1)) => match ber::parse_contents(
                b,
                p1,
                ber::TAG_OCTET_STRING,
                "ber.octet_string",
            ) {
                Err(e) => Err(e),
                Ok((_, p2)) => match ber::parse_boolean(b, p2) {
                    Err(e) => Err(e),
                    Ok((_, p3)) => parse_initial_rest(b, p3),
                },
            },
        },
    }
}

pub open spec fn parse_initial_rest(b: Seq<u8>, p: int) -> Result<
    ConnectInitialView,
    DecodeError,
> {
    match parse_parameters(b, p) {
        Err(e) => Err(e),
        Ok((target_parameters, p1)) => match parse_parameters(b, p1) {
            Err(e) => Err(e),
            Ok((min_parameters, p2)) => match parse_parameters(b, p2) {
                Err(e) => Err(e),
                Ok((max_parameters, p3)) => match ber::parse_contents(
                    b,
                    p3,
                    ber::TAG_OCTET_STRING,
                    "ber.octet_string",
                ) {
                    Err(e) => Err(e),
                    Ok((user_data, _)) => Ok(
                        ConnectInitialView {
                            target_parameters,
                            min_parameters,
                            max_parameters,
                            user_data,
                        },
                    ),
                },
            },
        },
    }
}

impl ConnectInitialView {
    pub open spec fn body(self) -> Seq<u8> {
        ber::octet_string_bytes(seq![1u8]) + ber::octet_string_bytes(seq![1u8])
            + ber::boolean_bytes(true) + self.target_parameters.wire() + self.min_parameters.wire()
            + self.max_parameters.wire() + ber::octet_string_bytes(self.user_data)
    }

    pub open spec fn wire(self) -> Seq<u8> {
        ber::application_tag_bytes(MCS_TYPE_CONNECT_INITIAL, self.body().len() as usize)
            + self.body()
    }
}

impl ConnectInitial {
    pub fn encode(&self) -> (out: Vec<u8>)
        ensures
            out@ == self@.wire(),
    {
        let mut body: Vec<u8> = Vec::new();
        let selector: [u8; 1] = [1];
        assert(selector@ =~= seq![1u8]);
        ber::write_octet_string(&mut body, &selector);  // calling domain
        ber::write_octet_string(&mut body, &selector);  // called domain
        ber::write_boolean(&mut body, true);  // upward
        self.target_parameters.write(&mut body);
        self.min_parameters.write(&mut body);
        self.max_parameters.write(&mut body);
        ber::write_octet_string(&mut body, self.user_data.as_slice());
        assert(body@ =~= self@.body());
        let mut out: Vec<u8> = Vec::new();
        ber::write_application_tag(&mut out, MCS_TYPE_CONNECT_INITIAL, body.len());
        out.write_slice(body.as_slice());
        assert(out@ =~= self@.wire());
        out
    }

    pub fn decode(input: &[u8]) -> (r: Result<Self, DecodeError>)
        ensures
            cursor::decodes_view(r, parse_connect_initial(input@)),
    {
        let mut cursor = ReadCursor::new(input);
        let _len: usize = ber::read_application_tag(&mut cursor, MCS_TYPE_CONNECT_INITIAL)?;
        let _calling_domain_selector: &[u8] = ber::read_octet_string(&mut cursor)?;
        let _called_domain_selector: &[u8] = ber::read_octet_string(&mut cursor)?;
        let _upward_flag: bool = ber::read_boolean(&mut cursor)?;
        let target_parameters: DomainParameters = DomainParameters::decode(&mut cursor)?;
        let min_parameters: DomainParameters = DomainParameters::decode(&mut cursor)?;
        let max_parameters: DomainParameters = DomainParameters::decode(&mut cursor)?;
        let user_data: Vec<u8> = slice_to_vec(ber::read_octet_string(&mut cursor)?);
        Ok(Self { target_parameters, min_parameters, max_parameters, user_data })
    }
}

proof fn lemma_initial_rest(b: Seq<u8>, p: int, v: ConnectInitialView)
    requires
        v.user_data.len() <= 0xFFFF,
        bytes::holds_at(b, p, v.target_parameters.wire()),
        bytes::holds_at(b, p + v.target_parameters.wire().len(), v.min_parameters.wire()),
        bytes::holds_at(
            b,
            p + v.target_parameters.wire().len() + v.min_parameters.wire().len(),
            v.max_parameters.wire(),
        ),
        bytes::holds_at(
            b,
            p + v.target_parameters.wire().len() + v.min_parameters.wire().len()
                + v.max_parameters.wire().len(),
            ber::octet_string_bytes(v.user_data),
        ),
    ensures
        parse_initial_rest(b, p) == Ok::<ConnectInitialView, DecodeError>(v),
{
    let p1 = p + v.target_parameters.wire().len();
    let p2 = p1 + v.min_parameters.wire().len();
    let p3 = p2 + v.max_parameters.wire().len();
    law_parameters(b, p, v.target_parameters);
    law_parameters(b, p1, v.min_parameters);
    law_parameters(b, p2, v.max_parameters);
    ber::law_octet_string(b, p3, v.user_data);
}

/// Decoding gives back the Connect-Initial that was encoded, where its length
/// field can count it.
#[verifier::rlimit(40)]
pub proof fn law_connect_initial_round_trip(v: ConnectInitialView)
    requires
        v.body().len() <= 0xFFFF,
    ensures
        parse_connect_initial(v.wire()) == Ok::<ConnectInitialView, DecodeError>(v),
{
    let b = v.wire();
    let n = v.body().len() as usize;
    let tag = ber::application_tag_bytes(MCS_TYPE_CONNECT_INITIAL, n);
    let selector = ber::octet_string_bytes(seq![1u8]);
    let upward = ber::boolean_bytes(true);
    let (d1, d2, d3) = (
        v.target_parameters.wire(),
        v.min_parameters.wire(),
        v.max_parameters.wire(),
    );
    let data = ber::octet_string_bytes(v.user_data);
    bytes::lemma_holds_self(b);
    bytes::lemma_holds_add(b, 0, tag, v.body());
    ber::law_application_tag(b, 0, MCS_TYPE_CONNECT_INITIAL, n);
    let p0 = tag.len() as int;
    bytes::lemma_holds_add(b, p0, selector + selector + upward + d1 + d2 + d3, data);
    bytes::lemma_holds_add(b, p0, selector + selector + upward + d1 + d2, d3);
    bytes::lemma_holds_add(b, p0, selector + selector + upward + d1, d2);
    bytes::lemma_holds_add(b, p0, selector + selector + upward, d1);
    bytes::lemma_holds_add(b, p0, selector + selector, upward);
    bytes::lemma_holds_add(b, p0, selector, selector);
    ber::law_octet_string(b, p0, seq![1u8]);
    ber::law_octet_string(b, p0 + selector.len(), seq![1u8]);
    ber::law_boolean(b, p0 + (selector + selector).len(), true);
    lemma_initial_rest(b, p0 + (selector + selector + upward).len(), v);
}

/// Server to client. `user_data` is an encoded conference response.
#[derive(Debug, Clone, PartialEq, Eq)]
pub struct ConnectResponse {
    pub called_connect_id: u32,
    pub domain_parameters: DomainParameters,
    pub user_data: Vec<u8>,
}

/// What a [`ConnectResponse`] holds.
pub struct ConnectResponseView {
    pub called_connect_id: u32,
    pub domain_parameters: DomainParameters,
    pub user_data: Seq<u8>,
}

impl View for ConnectResponse {
    type V = ConnectResponseView;

    open spec fn view(&self) -> ConnectResponseView {
        ConnectResponseView {
            called_connect_id: self.called_connect_id,
            domain_parameters: self.domain_parameters,
            user_data: self.user_data@,
        }
    }
}

/// What a Connect-Response says. The result and the outer length are read and
/// not used.
pub open spec fn parse_connect_response(b: Seq<u8>) -> Result<ConnectResponseView, DecodeError> {
    match ber::parse_application_tag(b, 0, MCS_TYPE_CONNECT_RESPONSE) {
        Err(e) => Err(e),
        Ok((_, p0)) => match ber::parse_enumerated(b, p0) {
            Err(e) => Err(e),
            Ok((_, p1)) => match ber::parse_integer(b, p1) {
                Err(e) => Err(e),
                Ok((called_connect_id, p2)) => match parse_parameters(b, p2) {
                    Err(e) => Err(e),
                    Ok((domain_parameters, p3)) => match ber::parse_contents(
                        b,
                        p3,
                        ber::TAG_OCTET_STRING,
                        "ber.octet_string",
                    ) {
                        Err(e) => Err(e),
                        Ok((user_data, _)) => Ok(
                            ConnectResponseView { called_connect_id, domain_parameters, user_data },
                        ),
                    },
                },
            },
        },
    }
}

impl ConnectResponseView {
    pub open spec fn body(self) -> Seq<u8> {
        ber::enumerated_bytes(0) + ber::integer_bytes(self.called_connect_id)
            + self.domain_parameters.wire() + ber::octet_string_bytes(self.user_data)
    }

    pub open spec fn wire(self) -> Seq<u8> {
        ber::application_tag_bytes(MCS_TYPE_CONNECT_RESPONSE, self.body().len() as usize)
            + self.body()
    }
}

impl ConnectResponse {
    pub fn encode(&self) -> (out: Vec<u8>)
        ensures
            out@ == self@.wire(),
    {
        let mut body: Vec<u8> = Vec::new();
        ber::write_enumerated(&mut body, 0);  // successful
        ber::write_integer(&mut body, self.called_connect_id);
        self.domain_parameters.write(&mut body);
        ber::write_octet_string(&mut body, self.user_data.as_slice());
        assert(body@ =~= self@.body());
        let mut out: Vec<u8> = Vec::new();
        ber::write_application_tag(&mut out, MCS_TYPE_CONNECT_RESPONSE, body.len());
        out.write_slice(body.as_slice());
        assert(out@ =~= self@.wire());
        out
    }

    pub fn decode(input: &[u8]) -> (r: Result<Self, DecodeError>)
        ensures
            cursor::decodes_view(r, parse_connect_response(input@)),
    {
        let mut cursor = ReadCursor::new(input);
        let _len: usize = ber::read_application_tag(&mut cursor, MCS_TYPE_CONNECT_RESPONSE)?;
        let _result: u8 = ber::read_enumerated(&mut cursor)?;
        let called_connect_id: u32 = ber::read_integer(&mut cursor)?;
        let domain_parameters: DomainParameters = DomainParameters::decode(&mut cursor)?;
        let user_data: Vec<u8> = slice_to_vec(ber::read_octet_string(&mut cursor)?);
        Ok(Self { called_connect_id, domain_parameters, user_data })
    }
}

/// Decoding gives back the Connect-Response that was encoded, where its length
/// field can count it.
#[verifier::rlimit(40)]
pub proof fn law_connect_response_round_trip(v: ConnectResponseView)
    requires
        v.body().len() <= 0xFFFF,
    ensures
        parse_connect_response(v.wire()) == Ok::<ConnectResponseView, DecodeError>(v),
{
    let b = v.wire();
    let n = v.body().len() as usize;
    let tag = ber::application_tag_bytes(MCS_TYPE_CONNECT_RESPONSE, n);
    let result = ber::enumerated_bytes(0);
    let id = ber::integer_bytes(v.called_connect_id);
    let params = v.domain_parameters.wire();
    let data = ber::octet_string_bytes(v.user_data);
    bytes::lemma_holds_self(b);
    bytes::lemma_holds_add(b, 0, tag, v.body());
    ber::law_application_tag(b, 0, MCS_TYPE_CONNECT_RESPONSE, n);
    let p = tag.len() as int;
    bytes::lemma_holds_add(b, p, result + id + params, data);
    bytes::lemma_holds_add(b, p, result + id, params);
    bytes::lemma_holds_add(b, p, result, id);
    ber::law_enumerated(b, p, 0);
    ber::law_integer(b, p + result.len(), v.called_connect_id);
    law_parameters(b, p + result.len() + id.len(), v.domain_parameters);
    ber::law_octet_string(b, p + result.len() + id.len() + params.len(), v.user_data);
}

/// The domain messages of this protocol.
#[derive(Debug, Clone, Copy, PartialEq, Eq, Structural)]
pub enum DomainMcsPdu {
    ErectDomainRequest,
    DisconnectProviderUltimatum,
    AttachUserRequest,
    AttachUserConfirm,
    ChannelJoinRequest,
    ChannelJoinConfirm,
    SendDataRequest,
    SendDataIndication,
}

impl DomainMcsPdu {
    /// The number that stands for a message.
    pub open spec fn code(self) -> u8 {
        match self {
            Self::ErectDomainRequest => 1,
            Self::DisconnectProviderUltimatum => 8,
            Self::AttachUserRequest => 10,
            Self::AttachUserConfirm => 11,
            Self::ChannelJoinRequest => 14,
            Self::ChannelJoinConfirm => 15,
            Self::SendDataRequest => 25,
            Self::SendDataIndication => 26,
        }
    }

    fn as_u8(self) -> (v: u8)
        ensures
            v == self.code(),
            v <= 26,
    {
        match self {
            Self::ErectDomainRequest => 1,
            Self::DisconnectProviderUltimatum => 8,
            Self::AttachUserRequest => 10,
            Self::AttachUserConfirm => 11,
            Self::ChannelJoinRequest => 14,
            Self::ChannelJoinConfirm => 15,
            Self::SendDataRequest => 25,
            Self::SendDataIndication => 26,
        }
    }

    /// The message that a number stands for.
    pub fn from_u8(value: u8) -> (r: Option<Self>)
        ensures
            match r {
                Some(pdu) => pdu.code() == value,
                None => forall|pdu: DomainMcsPdu| pdu.code() != value,
            },
    {
        match value {
            1 => Some(Self::ErectDomainRequest),
            8 => Some(Self::DisconnectProviderUltimatum),
            10 => Some(Self::AttachUserRequest),
            11 => Some(Self::AttachUserConfirm),
            14 => Some(Self::ChannelJoinRequest),
            15 => Some(Self::ChannelJoinConfirm),
            25 => Some(Self::SendDataRequest),
            26 => Some(Self::SendDataIndication),
            _ => None,
        }
    }
}

/// The first byte of a domain message: which one it is, and two option bits.
pub open spec fn choice(pdu: DomainMcsPdu, options: u8) -> u8 {
    (pdu.code() * 4 + options) as u8
}

/// The option bits of the domain message at offset `p`, which must be `pdu`.
pub open spec fn parse_choice(b: Seq<u8>, p: int, pdu: DomainMcsPdu) -> Result<
    (u8, int),
    DecodeError,
> {
    if p + 1 > b.len() {
        Err(cursor::short(b, p, 1))
    } else if b[p] / 4 != pdu.code() {
        Err(cursor::invalid("mcs.domain_pdu.choice", "unexpected domain PDU choice byte"))
    } else {
        Ok((b[p] % 4, p + 1))
    }
}

fn write_choice_byte(out: &mut Vec<u8>, pdu: DomainMcsPdu, options: u8)
    requires
        options < 4,
    ensures
        final(out)@ == old(out)@ + seq![choice(pdu, options)],
{
    per::write_choice(out, pdu.as_u8() * 4 + options);
}

fn read_choice_byte(cursor: &mut ReadCursor<'_>, expected: DomainMcsPdu) -> (r: Result<
    u8,
    DecodeError,
>)
    requires
        old(cursor).wf(),
    ensures
        final(cursor).wf(),
        final(cursor).data() == old(cursor).data(),
        cursor::reads(
            r,
            final(cursor).offset(),
            parse_choice(old(cursor).data(), old(cursor).offset(), expected),
        ),
{
    let byte: u8 = per::read_choice(cursor)?;
    if byte / 4 != expected.as_u8() {
        return Err(
            DecodeError::InvalidValue {
                field: "mcs.domain_pdu.choice",
                reason: "unexpected domain PDU choice byte",
            },
        );
    }
    Ok(byte % 4)
}

/// Two bytes follow some messages where the higher option bit is set.
pub open spec fn parse_non_standard(b: Seq<u8>, p: int, options: u8) -> Result<
    ((), int),
    DecodeError,
> {
    if options < 2 {
        Ok(((), p))
    } else if p + 2 > b.len() {
        Err(cursor::short(b, p, 2))
    } else {
        Ok(((), p + 2))
    }
}

fn skip_optional_non_standard(cursor: &mut ReadCursor<'_>, options: u8) -> (r: Result<
    (),
    DecodeError,
>)
    requires
        old(cursor).wf(),
    ensures
        final(cursor).wf(),
        final(cursor).data() == old(cursor).data(),
        cursor::reads(
            r,
            final(cursor).offset(),
            parse_non_standard(old(cursor).data(), old(cursor).offset(), options),
        ),
{
    if options >= 2 {
        cursor.skip(2)?;
    }
    Ok(())
}

#[derive(Debug, Clone, Copy, PartialEq, Eq)]
pub struct ErectDomainRequest {
    pub sub_height: u32,
    pub sub_interval: u32,
}

pub open spec fn parse_erect_domain(b: Seq<u8>, p: int) -> Result<
    (ErectDomainRequest, int),
    DecodeError,
> {
    match parse_choice(b, p, DomainMcsPdu::ErectDomainRequest) {
        Err(e) => Err(e),
        Ok((options, p1)) => match per::parse_u32(b, p1) {
            Err(e) => Err(e),
            Ok((sub_height, p2)) => match per::parse_u32(b, p2) {
                Err(e) => Err(e),
                Ok((sub_interval, p3)) => match parse_non_standard(b, p3, options) {
                    Err(e) => Err(e),
                    Ok((_, p4)) => Ok((ErectDomainRequest { sub_height, sub_interval }, p4)),
                },
            },
        },
    }
}

/// Drops the offset of a read of a whole message.
pub open spec fn whole<T>(r: Result<(T, int), DecodeError>) -> Result<T, DecodeError> {
    match r {
        Err(e) => Err(e),
        Ok((v, _)) => Ok(v),
    }
}

impl ErectDomainRequest {
    pub open spec fn wire(self) -> Seq<u8> {
        seq![choice(DomainMcsPdu::ErectDomainRequest, 0)] + per::u32_bytes(self.sub_height)
            + per::u32_bytes(self.sub_interval)
    }

    pub fn encode(&self) -> (out: Vec<u8>)
        ensures
            out@ == self.wire(),
    {
        let mut out: Vec<u8> = Vec::new();
        write_choice_byte(&mut out, DomainMcsPdu::ErectDomainRequest, 0);
        per::write_u32(&mut out, self.sub_height);
        per::write_u32(&mut out, self.sub_interval);
        assert(out@ =~= self.wire());
        out
    }

    pub fn decode(input: &[u8]) -> (r: Result<Self, DecodeError>)
        ensures
            r == whole(parse_erect_domain(input@, 0)),
    {
        let mut cursor = ReadCursor::new(input);
        Self::decode_from_cursor(&mut cursor)
    }

    pub fn decode_from_cursor(cursor: &mut ReadCursor<'_>) -> (r: Result<Self, DecodeError>)
        requires
            old(cursor).wf(),
        ensures
            final(cursor).wf(),
            final(cursor).data() == old(cursor).data(),
            cursor::reads(
                r,
                final(cursor).offset(),
                parse_erect_domain(old(cursor).data(), old(cursor).offset()),
            ),
    {
        let options: u8 = read_choice_byte(cursor, DomainMcsPdu::ErectDomainRequest)?;
        let sub_height: u32 = per::read_u32(cursor)?;
        let sub_interval: u32 = per::read_u32(cursor)?;
        skip_optional_non_standard(cursor, options)?;
        Ok(Self { sub_height, sub_interval })
    }
}

/// An Erect Domain Request is read back as it was written.
pub proof fn law_erect_domain_round_trip(b: Seq<u8>, p: int, m: ErectDomainRequest)
    requires
        bytes::holds_at(b, p, m.wire()),
    ensures
        parse_erect_domain(b, p) == Ok::<(ErectDomainRequest, int), DecodeError>(
            (m, p + m.wire().len()),
        ),
{
    broadcast use bytes::group_holds;

    per::law_u32(b, p + 1, m.sub_height);
    per::law_u32(b, p + 1 + per::u32_bytes(m.sub_height).len(), m.sub_interval);
}

#[derive(Debug, Clone, Copy, PartialEq, Eq)]
pub struct AttachUserRequest;

pub open spec fn parse_attach_user(b: Seq<u8>, p: int) -> Result<
    (AttachUserRequest, int),
    DecodeError,
> {
    match parse_choice(b, p, DomainMcsPdu::AttachUserRequest) {
        Err(e) => Err(e),
        Ok((options, p1)) => match parse_non_standard(b, p1, options) {
            Err(e) => Err(e),
            Ok((_, p2)) => Ok((AttachUserRequest, p2)),
        },
    }
}

impl AttachUserRequest {
    pub open spec fn wire(self) -> Seq<u8> {
        seq![choice(DomainMcsPdu::AttachUserRequest, 0)]
    }

    pub fn encode(&self) -> (out: Vec<u8>)
        ensures
            out@ == self.wire(),
    {
        let mut out: Vec<u8> = Vec::new();
        write_choice_byte(&mut out, DomainMcsPdu::AttachUserRequest, 0);
        assert(out@ =~= self.wire());
        out
    }

    pub fn decode(input: &[u8]) -> (r: Result<Self, DecodeError>)
        ensures
            r == whole(parse_attach_user(input@, 0)),
    {
        let mut cursor = ReadCursor::new(input);
        Self::decode_from_cursor(&mut cursor)
    }

    pub fn decode_from_cursor(cursor: &mut ReadCursor<'_>) -> (r: Result<Self, DecodeError>)
        requires
            old(cursor).wf(),
        ensures
            final(cursor).wf(),
            final(cursor).data() == old(cursor).data(),
            cursor::reads(
                r,
                final(cursor).offset(),
                parse_attach_user(old(cursor).data(), old(cursor).offset()),
            ),
    {
        let options: u8 = read_choice_byte(cursor, DomainMcsPdu::AttachUserRequest)?;
        skip_optional_non_standard(cursor, options)?;
        Ok(Self)
    }
}

/// An Attach User Request is read back as it was written.
pub proof fn law_attach_user_round_trip(b: Seq<u8>, p: int, m: AttachUserRequest)
    requires
        bytes::holds_at(b, p, m.wire()),
    ensures
        parse_attach_user(b, p) == Ok::<(AttachUserRequest, int), DecodeError>((m, p + 1)),
{
    broadcast use bytes::group_holds;

}

#[derive(Debug, Clone, Copy, PartialEq, Eq)]
pub struct AttachUserConfirm {
    pub result: u8,
    pub initiator: u16,
}

pub open spec fn parse_attach_user_confirm(b: Seq<u8>) -> Result<AttachUserConfirm, DecodeError> {
    match parse_choice(b, 0, DomainMcsPdu::AttachUserConfirm) {
        Err(e) => Err(e),
        Ok((_, p1)) => match per::parse_u8(b, p1) {
            Err(e) => Err(e),
            Ok((result, p2)) => match per::parse_u16(b, p2, BASE_CHANNEL_ID) {
                Err(e) => Err(e),
                Ok((initiator, _)) => Ok(AttachUserConfirm { result, initiator }),
            },
        },
    }
}

impl AttachUserConfirm {
    pub open spec fn wire(self) -> Seq<u8> {
        seq![choice(DomainMcsPdu::AttachUserConfirm, 2)] + seq![self.result] + per::u16_bytes(
            self.initiator,
            BASE_CHANNEL_ID,
        )
    }

    pub fn encode(&self) -> (out: Vec<u8>)
        ensures
            out@ == self.wire(),
    {
        let mut out: Vec<u8> = Vec::new();
        write_choice_byte(&mut out, DomainMcsPdu::AttachUserConfirm, 2);
        per::write_enum(&mut out, self.result);
        per::write_u16(&mut out, self.initiator, BASE_CHANNEL_ID);
        assert(out@ =~= self.wire());
        out
    }

    pub fn decode(input: &[u8]) -> (r: Result<Self, DecodeError>)
        ensures
            r == parse_attach_user_confirm(input@),
    {
        let mut cursor = ReadCursor::new(input);
        let _options: u8 = read_choice_byte(&mut cursor, DomainMcsPdu::AttachUserConfirm)?;
        let result: u8 = per::read_enum(&mut cursor)?;
        let initiator: u16 = per::read_u16(&mut cursor, BASE_CHANNEL_ID)?;
        Ok(Self { result, initiator })
    }
}

/// Decoding gives back the Attach User Confirm that was encoded.
pub proof fn law_attach_user_confirm_round_trip(m: AttachUserConfirm)
    ensures
        parse_attach_user_confirm(m.wire()) == Ok::<AttachUserConfirm, DecodeError>(m),
{
    broadcast use bytes::group_holds;

    bytes::lemma_holds_self(m.wire());
    per::law_u16(m.wire(), 2, m.initiator, BASE_CHANNEL_ID);
}

#[derive(Debug, Clone, Copy, PartialEq, Eq)]
pub struct ChannelJoinRequest {
    pub initiator: u16,
    pub channel_id: u16,
}

pub open spec fn parse_channel_join(b: Seq<u8>, p: int) -> Result<
    (ChannelJoinRequest, int),
    DecodeError,
> {
    match parse_choice(b, p, DomainMcsPdu::ChannelJoinRequest) {
        Err(e) => Err(e),
        Ok((_, p1)) => match per::parse_u16(b, p1, BASE_CHANNEL_ID) {
            Err(e) => Err(e),
            Ok((initiator, p2)) => match per::parse_u16(b, p2, 0) {
                Err(e) => Err(e),
                Ok((channel_id, p3)) => Ok((ChannelJoinRequest { initiator, channel_id }, p3)),
            },
        },
    }
}

impl ChannelJoinRequest {
    pub open spec fn wire(self) -> Seq<u8> {
        seq![choice(DomainMcsPdu::ChannelJoinRequest, 0)] + per::u16_bytes(
            self.initiator,
            BASE_CHANNEL_ID,
        ) + per::u16_bytes(self.channel_id, 0)
    }

    pub fn encode(&self) -> (out: Vec<u8>)
        ensures
            out@ == self.wire(),
    {
        let mut out: Vec<u8> = Vec::new();
        write_choice_byte(&mut out, DomainMcsPdu::ChannelJoinRequest, 0);
        per::write_u16(&mut out, self.initiator, BASE_CHANNEL_ID);
        per::write_u16(&mut out, self.channel_id, 0);
        assert(out@ =~= self.wire());
        out
    }

    pub fn decode(input: &[u8]) -> (r: Result<Self, DecodeError>)
        ensures
            r == whole(parse_channel_join(input@, 0)),
    {
        let mut cursor = ReadCursor::new(input);
        Self::decode_from_cursor(&mut cursor)
    }

    pub fn decode_from_cursor(cursor: &mut ReadCursor<'_>) -> (r: Result<Self, DecodeError>)
        requires
            old(cursor).wf(),
        ensures
            final(cursor).wf(),
            final(cursor).data() == old(cursor).data(),
            cursor::reads(
                r,
                final(cursor).offset(),
                parse_channel_join(old(cursor).data(), old(cursor).offset()),
            ),
    {
        let _options: u8 = read_choice_byte(cursor, DomainMcsPdu::ChannelJoinRequest)?;
        let initiator: u16 = per::read_u16(cursor, BASE_CHANNEL_ID)?;
        let channel_id: u16 = per::read_u16(cursor, 0)?;
        Ok(Self { initiator, channel_id })
    }
}

/// A Channel Join Request is read back as it was written.
pub proof fn law_channel_join_round_trip(b: Seq<u8>, p: int, m: ChannelJoinRequest)
    requires
        bytes::holds_at(b, p, m.wire()),
    ensures
        parse_channel_join(b, p) == Ok::<(ChannelJoinRequest, int), DecodeError>((m, p + 5)),
{
    broadcast use bytes::group_holds;

    per::law_u16(b, p + 1, m.initiator, BASE_CHANNEL_ID);
    per::law_u16(b, p + 3, m.channel_id, 0);
}

#[derive(Debug, Clone, Copy, PartialEq, Eq)]
pub struct ChannelJoinConfirm {
    pub result: u8,
    pub initiator: u16,
    pub requested_channel_id: u16,
    pub channel_id: u16,
}

pub open spec fn parse_channel_join_confirm(b: Seq<u8>) -> Result<ChannelJoinConfirm, DecodeError> {
    match parse_choice(b, 0, DomainMcsPdu::ChannelJoinConfirm) {
        Err(e) => Err(e),
        Ok((_, p1)) => match per::parse_u8(b, p1) {
            Err(e) => Err(e),
            Ok((result, p2)) => match per::parse_u16(b, p2, BASE_CHANNEL_ID) {
                Err(e) => Err(e),
                Ok((initiator, p3)) => match per::parse_u16(b, p3, 0) {
                    Err(e) => Err(e),
                    Ok((requested_channel_id, p4)) => match per::parse_u16(b, p4, 0) {
                        Err(e) => Err(e),
                        Ok((channel_id, _)) => Ok(
                            ChannelJoinConfirm {
                                result,
                                initiator,
                                requested_channel_id,
                                channel_id,
                            },
                        ),
                    },
                },
            },
        },
    }
}

impl ChannelJoinConfirm {
    pub open spec fn wire(self) -> Seq<u8> {
        seq![choice(DomainMcsPdu::ChannelJoinConfirm, 2)] + seq![self.result] + per::u16_bytes(
            self.initiator,
            BASE_CHANNEL_ID,
        ) + per::u16_bytes(self.requested_channel_id, 0) + per::u16_bytes(self.channel_id, 0)
    }

    pub fn encode(&self) -> (out: Vec<u8>)
        ensures
            out@ == self.wire(),
    {
        let mut out: Vec<u8> = Vec::new();
        write_choice_byte(&mut out, DomainMcsPdu::ChannelJoinConfirm, 2);
        per::write_enum(&mut out, self.result);
        per::write_u16(&mut out, self.initiator, BASE_CHANNEL_ID);
        per::write_u16(&mut out, self.requested_channel_id, 0);
        per::write_u16(&mut out, self.channel_id, 0);
        assert(out@ =~= self.wire());
        out
    }

    pub fn decode(input: &[u8]) -> (r: Result<Self, DecodeError>)
        ensures
            r == parse_channel_join_confirm(input@),
    {
        let mut cursor = ReadCursor::new(input);
        let _options: u8 = read_choice_byte(&mut cursor, DomainMcsPdu::ChannelJoinConfirm)?;
        let result: u8 = per::read_enum(&mut cursor)?;
        let initiator: u16 = per::read_u16(&mut cursor, BASE_CHANNEL_ID)?;
        let requested_channel_id: u16 = per::read_u16(&mut cursor, 0)?;
        let channel_id: u16 = per::read_u16(&mut cursor, 0)?;
        Ok(Self { result, initiator, requested_channel_id, channel_id })
    }
}

/// Decoding gives back the Channel Join Confirm that was encoded.
pub proof fn law_channel_join_confirm_round_trip(m: ChannelJoinConfirm)
    ensures
        parse_channel_join_confirm(m.wire()) == Ok::<ChannelJoinConfirm, DecodeError>(m),
{
    broadcast use bytes::group_holds;

    bytes::lemma_holds_self(m.wire());
    per::law_u16(m.wire(), 2, m.initiator, BASE_CHANNEL_ID);
    per::law_u16(m.wire(), 4, m.requested_channel_id, 0);
    per::law_u16(m.wire(), 6, m.channel_id, 0);
}

/// High priority, first and last segment.
pub const SEND_DATA_PRIORITY_AND_SEGMENTATION: u8 = 0x70;

/// Data sent on a channel.
#[derive(Debug, Clone, PartialEq, Eq)]
pub struct SendData {
    pub initiator: u16,
    pub channel_id: u16,
    pub data: Vec<u8>,
    /// Whether this was the last segment. Where it was not, more messages
    /// continue the same data.
    pub complete: bool,
}

/// What a [`SendData`] holds.
pub struct SendDataView {
    pub initiator: u16,
    pub channel_id: u16,
    pub data: Seq<u8>,
    pub complete: bool,
}

impl View for SendData {
    type V = SendDataView;

    open spec fn view(&self) -> SendDataView {
        SendDataView {
            initiator: self.initiator,
            channel_id: self.channel_id,
            data: self.data@,
            complete: self.complete,
        }
    }
}

/// The data message at offset `p`.
pub open spec fn parse_send_data(b: Seq<u8>, p: int, pdu: DomainMcsPdu) -> Result<
    (SendDataView, int),
    DecodeError,
> {
    match parse_choice(b, p, pdu) {
        Err(e) => Err(e),
        Ok((_, p1)) => match per::parse_u16(b, p1, BASE_CHANNEL_ID) {
            Err(e) => Err(e),
            Ok((initiator, p2)) => match per::parse_u16(b, p2, 0) {
                Err(e) => Err(e),
                Ok((channel_id, p3)) => if p3 + 1 > b.len() {
                    Err(cursor::short(b, p3, 1))
                } else {
                    match per::parse_length(b, p3 + 1) {
                        Err(e) => Err(e),
                        Ok((n, p4)) => if p4 + n > b.len() {
                            Err(cursor::short(b, p4, n as int))
                        } else {
                            Ok(
                                (
                                    SendDataView {
                                        initiator,
                                        channel_id,
                                        data: b.subrange(p4, p4 + n),
                                        complete: (b[p3] / 0x10) % 2 == 1,
                                    },
                                    p4 + n,
                                ),
                            )
                        },
                    }
                },
            },
        },
    }
}

/// A data message, which always claims to be complete.
pub open spec fn send_data_wire(
    pdu: DomainMcsPdu,
    initiator: u16,
    channel_id: u16,
    data: Seq<u8>,
) -> Seq<u8> {
    seq![choice(pdu, 0)] + per::u16_bytes(initiator, BASE_CHANNEL_ID) + per::u16_bytes(
        channel_id,
        0,
    ) + seq![SEND_DATA_PRIORITY_AND_SEGMENTATION] + per::length_bytes(data.len() as usize) + data
}

impl SendData {
    fn encode(&self, pdu: DomainMcsPdu) -> (out: Vec<u8>)
        ensures
            out@ == send_data_wire(pdu, self.initiator, self.channel_id, self.data@),
    {
        let mut out: Vec<u8> = Vec::new();
        write_choice_byte(&mut out, pdu, 0);
        per::write_u16(&mut out, self.initiator, BASE_CHANNEL_ID);
        per::write_u16(&mut out, self.channel_id, 0);
        out.write_u8(SEND_DATA_PRIORITY_AND_SEGMENTATION);
        per::write_length(&mut out, self.data.len());
        out.write_slice(self.data.as_slice());
        assert(out@ =~= send_data_wire(pdu, self.initiator, self.channel_id, self.data@));
        out
    }

    fn decode_from(cursor: &mut ReadCursor<'_>, pdu: DomainMcsPdu) -> (r: Result<
        Self,
        DecodeError,
    >)
        requires
            old(cursor).wf(),
        ensures
            final(cursor).wf(),
            final(cursor).data() == old(cursor).data(),
            cursor::reads_view(
                r,
                final(cursor).offset(),
                parse_send_data(old(cursor).data(), old(cursor).offset(), pdu),
            ),
    {
        let _options: u8 = read_choice_byte(cursor, pdu)?;
        let initiator: u16 = per::read_u16(cursor, BASE_CHANNEL_ID)?;
        let channel_id: u16 = per::read_u16(cursor, 0)?;
        let priority_and_segmentation: u8 = cursor.take_u8()?;
        let length: usize = per::read_length(cursor)?;
        let data: Vec<u8> = slice_to_vec(cursor.take_slice(length)?);
        Ok(
            Self {
                initiator,
                channel_id,
                data,
                complete: (priority_and_segmentation / 0x10) % 2 == 1,
            },
        )
    }

    pub fn encode_request(&self) -> (out: Vec<u8>)
        ensures
            out@ == send_data_wire(
                DomainMcsPdu::SendDataRequest,
                self.initiator,
                self.channel_id,
                self.data@,
            ),
    {
        self.encode(DomainMcsPdu::SendDataRequest)
    }

    pub fn decode_request(input: &[u8]) -> (r: Result<Self, DecodeError>)
        ensures
            cursor::decodes_view(
                r,
                whole(parse_send_data(input@, 0, DomainMcsPdu::SendDataRequest)),
            ),
    {
        let mut cursor = ReadCursor::new(input);
        Self::decode_from(&mut cursor, DomainMcsPdu::SendDataRequest)
    }

    /// Reads one request and leaves the position at what follows it.
    pub fn decode_request_from_cursor(cursor: &mut ReadCursor<'_>) -> (r: Result<
        Self,
        DecodeError,
    >)
        requires
            old(cursor).wf(),
        ensures
            final(cursor).wf(),
            final(cursor).data() == old(cursor).data(),
            cursor::reads_view(
                r,
                final(cursor).offset(),
                parse_send_data(
                    old(cursor).data(),
                    old(cursor).offset(),
                    DomainMcsPdu::SendDataRequest,
                ),
            ),
    {
        Self::decode_from(cursor, DomainMcsPdu::SendDataRequest)
    }

    pub fn encode_indication(&self) -> (out: Vec<u8>)
        ensures
            out@ == send_data_wire(
                DomainMcsPdu::SendDataIndication,
                self.initiator,
                self.channel_id,
                self.data@,
            ),
    {
        self.encode(DomainMcsPdu::SendDataIndication)
    }

    pub fn decode_indication(input: &[u8]) -> (r: Result<Self, DecodeError>)
        ensures
            cursor::decodes_view(
                r,
                whole(parse_send_data(input@, 0, DomainMcsPdu::SendDataIndication)),
            ),
    {
        let mut cursor = ReadCursor::new(input);
        Self::decode_from(&mut cursor, DomainMcsPdu::SendDataIndication)
    }
}

/// A data message of at most 0x7FFF bytes is read back as it was written, and
/// as complete.
pub proof fn law_send_data_round_trip(
    b: Seq<u8>,
    p: int,
    pdu: DomainMcsPdu,
    initiator: u16,
    channel_id: u16,
    data: Seq<u8>,
)
    requires
        data.len() <= 0x7FFF,
        bytes::holds_at(b, p, send_data_wire(pdu, initiator, channel_id, data)),
    ensures
        parse_send_data(b, p, pdu) == Ok::<(SendDataView, int), DecodeError>(
            (
                SendDataView { initiator, channel_id, data, complete: true },
                p + send_data_wire(pdu, initiator, channel_id, data).len(),
            ),
        ),
{
    broadcast use bytes::group_holds;

    per::law_u16(b, p + 1, initiator, BASE_CHANNEL_ID);
    per::law_u16(b, p + 3, channel_id, 0);
    per::law_length(b, p + 6, data.len() as usize);
}

#[derive(Debug, Clone, Copy, PartialEq, Eq)]
pub struct DisconnectProviderUltimatum {
    pub reason: u8,
}

pub open spec fn parse_disconnect(b: Seq<u8>) -> Result<DisconnectProviderUltimatum, DecodeError> {
    if b.len() < 1 {
        Err(cursor::short(b, 0, 1))
    } else if b.len() < 2 {
        Err(cursor::short(b, 1, 1))
    } else if b[0] / 4 != DomainMcsPdu::DisconnectProviderUltimatum.code() {
        Err(
            cursor::invalid("mcs.disconnect_provider_ultimatum.choice", "unexpected choice byte"),
        )
    } else {
        Ok(DisconnectProviderUltimatum { reason: ((b[0] % 4) * 2 + b[1] / 0x80) as u8 })
    }
}

impl DisconnectProviderUltimatum {
    /// The low three bits of the reason follow the choice, and the rest is
    /// zero.
    pub open spec fn wire(self) -> Seq<u8> {
        seq![
            choice(DomainMcsPdu::DisconnectProviderUltimatum, (self.reason / 2) % 4),
            ((self.reason % 2) * 0x80) as u8,
        ]
    }

    pub fn encode(&self) -> (out: Vec<u8>)
        ensures
            out@ == self.wire(),
    {
        let mut out: Vec<u8> = Vec::new();
        out.push(DomainMcsPdu::DisconnectProviderUltimatum.as_u8() * 4 + (self.reason / 2) % 4);
        out.push((self.reason % 2) * 0x80);
        assert(out@ =~= self.wire());
        out
    }

    pub fn decode(input: &[u8]) -> (r: Result<Self, DecodeError>)
        ensures
            r == parse_disconnect(input@),
    {
        let mut cursor = ReadCursor::new(input);
        let byte1: u8 = cursor.take_u8()?;
        let byte2: u8 = cursor.take_u8()?;
        if byte1 / 4 != DomainMcsPdu::DisconnectProviderUltimatum.as_u8() {
            return Err(
                DecodeError::InvalidValue {
                    field: "mcs.disconnect_provider_ultimatum.choice",
                    reason: "unexpected choice byte",
                },
            );
        }
        Ok(Self { reason: (byte1 % 4) * 2 + byte2 / 0x80 })
    }
}

/// Decoding gives back a Disconnect Provider Ultimatum whose reason fits three
/// bits.
pub proof fn law_disconnect_round_trip(m: DisconnectProviderUltimatum)
    requires
        m.reason < 8,
    ensures
        parse_disconnect(m.wire()) == Ok::<DisconnectProviderUltimatum, DecodeError>(m),
{
}

/// Domain messages have fixed numbers.
pub proof fn law_message_numbers(value: u8, r: Option<DomainMcsPdu>)
    requires
        call_ensures(DomainMcsPdu::from_u8, (value,), r),
    ensures
        r == Some(DomainMcsPdu::ErectDomainRequest) <==> value == 1,
        r == Some(DomainMcsPdu::DisconnectProviderUltimatum) <==> value == 8,
        r == Some(DomainMcsPdu::AttachUserRequest) <==> value == 10,
        r == Some(DomainMcsPdu::AttachUserConfirm) <==> value == 11,
        r == Some(DomainMcsPdu::ChannelJoinRequest) <==> value == 14,
        r == Some(DomainMcsPdu::ChannelJoinConfirm) <==> value == 15,
        r == Some(DomainMcsPdu::SendDataRequest) <==> value == 25,
        r == Some(DomainMcsPdu::SendDataIndication) <==> value == 26,
{
    assert(DomainMcsPdu::ErectDomainRequest.code() == 1);
    assert(DomainMcsPdu::DisconnectProviderUltimatum.code() == 8);
    assert(DomainMcsPdu::AttachUserRequest.code() == 10);
    assert(DomainMcsPdu::AttachUserConfirm.code() == 11);
    assert(DomainMcsPdu::ChannelJoinRequest.code() == 14);
    assert(DomainMcsPdu::ChannelJoinConfirm.code() == 15);
    assert(DomainMcsPdu::SendDataRequest.code() == 25);
    assert(DomainMcsPdu::SendDataIndication.code() == 26);
}

/// Data on a channel is the number of the message in the top six bits of a byte,
/// who sends it, counted from 1001, and on which channel, high byte first, the
/// priority, the length, and the data.
#[verifier::rlimit(40)]
pub proof fn law_send_data_bytes(
    data: &SendData,
    request: Vec<u8>,
    indication: Vec<u8>,
)
    requires
        call_ensures(SendData::encode_request, (data,), request),
        call_ensures(SendData::encode_indication, (data,), indication),
        data.initiator >= 1001,
        data.data@.len() < 32768,
    ensures
        request@[0] == 100,
        indication@[0] == 104,
        request@.skip(1) == indication@.skip(1),
        256 * indication@[1] + indication@[2] == data.initiator - 1001,
        256 * indication@[3] + indication@[4] == data.channel_id,
        indication@[5] == 0x70,
        data.data@.len() < 128 ==> indication@[6] == data.data@.len() && indication@.skip(7)
            == data.data@,
        data.data@.len() >= 128 ==> 256 * (indication@[6] - 128) + indication@[7]
            == data.data@.len() && indication@.skip(8) == data.data@,
{
    let d = data.data@;
    let n = d.len() as usize;
    per::law_length_bytes(d, 0, n);
    reveal(bytes::be16);
    let u = per::u16_bytes(data.initiator, 1001);
    let c = per::u16_bytes(data.channel_id, 0);
    assert(u.len() == 2 && u[0] == (data.initiator - 1001) / 256 && u[1] == (data.initiator - 1001)
        % 256);
    assert(c.len() == 2 && c[0] == data.channel_id / 256 && c[1] == data.channel_id % 256);
    assert(request@.skip(1) =~= indication@.skip(1));
    if n < 128 {
        assert(indication@.skip(7) =~= d);
    } else {
        assert(indication@.skip(8) =~= d);
    }
}

/// Data on a channel is read from the same bytes, and is the last of its kind
/// where the fifth bit of the priority says so.
pub proof fn law_send_data_decoded(
    input: &[u8],
    request: Result<SendData, DecodeError>,
    indication: Result<SendData, DecodeError>,
)
    requires
        call_ensures(SendData::decode_request, (input,), request),
        call_ensures(SendData::decode_indication, (input,), indication),
    ensures
        request is Ok ==> input@[0] / 4 == 25,
        indication is Ok ==> input@[0] / 4 == 26,
        ({
            let start: int = if input@[6] < 128 {
                7
            } else {
                8
            };
            let n = if input@[6] < 128 {
                input@[6] as int
            } else {
                256 * (input@[6] - 128) + input@[7]
            };
            &&& request matches Ok(v) ==> {
                &&& input@.len() >= start + n
                &&& v.initiator == (1001 + 256 * input@[1] + input@[2]) % 65536
                &&& v.channel_id == 256 * input@[3] + input@[4]
                &&& v.complete == (input@[5] / 16 % 2 == 1)
                &&& v.data@ == input@.subrange(start, start + n)
            }
            &&& indication matches Ok(v) ==> {
                &&& input@.len() >= start + n
                &&& v.initiator == (1001 + 256 * input@[1] + input@[2]) % 65536
                &&& v.channel_id == 256 * input@[3] + input@[4]
                &&& v.complete == (input@[5] / 16 % 2 == 1)
                &&& v.data@ == input@.subrange(start, start + n)
            }
        }),
{
    let b = input@;
    per::law_length_bytes(b, 6, 0);
    bytes::law_byte_order(b, 1);
    bytes::law_byte_order(b, 3);
}

/// What sets a domain up: a number for each request, and its answer with a result,
/// the user counted from 1001, and the channel that was asked for and the one that
/// was given.
#[verifier::rlimit(40)]
pub proof fn law_domain_bytes(
    attach: &AttachUserRequest,
    attach_out: Vec<u8>,
    confirm: &AttachUserConfirm,
    confirm_out: Vec<u8>,
    join: &ChannelJoinRequest,
    join_out: Vec<u8>,
    joined: &ChannelJoinConfirm,
    joined_out: Vec<u8>,
    bye: &DisconnectProviderUltimatum,
    bye_out: Vec<u8>,
)
    requires
        call_ensures(AttachUserRequest::encode, (attach,), attach_out),
        call_ensures(AttachUserConfirm::encode, (confirm,), confirm_out),
        call_ensures(ChannelJoinRequest::encode, (join,), join_out),
        call_ensures(ChannelJoinConfirm::encode, (joined,), joined_out),
        call_ensures(DisconnectProviderUltimatum::encode, (bye,), bye_out),
        confirm.initiator >= 1001,
        join.initiator >= 1001,
        joined.initiator >= 1001,
        bye.reason < 8,
    ensures
        attach_out@ == seq![40u8],
        confirm_out@.len() == 4,
        confirm_out@[0] == 46,
        confirm_out@[1] == confirm.result,
        256 * confirm_out@[2] + confirm_out@[3] == confirm.initiator - 1001,
        join_out@.len() == 5,
        join_out@[0] == 56,
        256 * join_out@[1] + join_out@[2] == join.initiator - 1001,
        256 * join_out@[3] + join_out@[4] == join.channel_id,
        joined_out@.len() == 8,
        joined_out@[0] == 62,
        joined_out@[1] == joined.result,
        256 * joined_out@[2] + joined_out@[3] == joined.initiator - 1001,
        256 * joined_out@[4] + joined_out@[5] == joined.requested_channel_id,
        256 * joined_out@[6] + joined_out@[7] == joined.channel_id,
        bye_out@.len() == 2,
        bye_out@[0] == 32 + bye.reason / 2,
        bye_out@[1] == 128 * (bye.reason % 2),
{
    reveal(bytes::be16);
}

/// The same messages are read from the same bytes.
pub proof fn law_domain_decoded(
    input: &[u8],
    attach: Result<AttachUserRequest, DecodeError>,
    confirm: Result<AttachUserConfirm, DecodeError>,
    join: Result<ChannelJoinRequest, DecodeError>,
    joined: Result<ChannelJoinConfirm, DecodeError>,
    bye: Result<DisconnectProviderUltimatum, DecodeError>,
)
    requires
        call_ensures(AttachUserRequest::decode, (input,), attach),
        call_ensures(AttachUserConfirm::decode, (input,), confirm),
        call_ensures(ChannelJoinRequest::decode, (input,), join),
        call_ensures(ChannelJoinConfirm::decode, (input,), joined),
        call_ensures(DisconnectProviderUltimatum::decode, (input,), bye),
    ensures
        attach is Ok <==> input@.len() >= 1 && input@[0] / 4 == 10 && (input@[0] % 4 < 2
            || input@.len() >= 3),
        confirm is Ok <==> input@.len() >= 4 && input@[0] / 4 == 11,
        confirm matches Ok(v) ==> v.result == input@[1] && v.initiator == (1001 + 256 * input@[2]
            + input@[3]) % 65536,
        join is Ok <==> input@.len() >= 5 && input@[0] / 4 == 14,
        join matches Ok(v) ==> v.initiator == (1001 + 256 * input@[1] + input@[2]) % 65536
            && v.channel_id == 256 * input@[3] + input@[4],
        joined is Ok <==> input@.len() >= 8 && input@[0] / 4 == 15,
        joined matches Ok(v) ==> v.result == input@[1] && v.initiator == (1001 + 256 * input@[2]
            + input@[3]) % 65536 && v.requested_channel_id == 256 * input@[4] + input@[5]
            && v.channel_id == 256 * input@[6] + input@[7],
        bye is Ok <==> input@.len() >= 2 && input@[0] / 4 == 8,
        bye matches Ok(v) ==> v.reason == 2 * (input@[0] % 4) + input@[1] / 128,
{
    let b = input@;
    bytes::law_byte_order(b, 1);
    bytes::law_byte_order(b, 2);
    bytes::law_byte_order(b, 3);
    bytes::law_byte_order(b, 4);
    bytes::law_byte_order(b, 6);
}

/// An Erect Domain Request is its number, 4, and two numbers that give their own
/// sizes.
pub proof fn law_erect_domain_bytes(
    m: &ErectDomainRequest,
    out: Vec<u8>,
    input: &[u8],
    r: Result<ErectDomainRequest, DecodeError>,
)
    requires
        call_ensures(ErectDomainRequest::encode, (m,), out),
        call_ensures(ErectDomainRequest::decode, (input,), r),
    ensures
        m.sub_height < 256 && m.sub_interval < 256 ==> out@ == seq![
            4u8,
            1u8,
            m.sub_height as u8,
            1u8,
            m.sub_interval as u8,
        ],
        input@.len() == 5 && input@[0] == 4 && input@[1] == 1 && input@[3] == 1 ==> r is Ok
            && r->Ok_0.sub_height == input@[2] && r->Ok_0.sub_interval == input@[4],
        r is Ok ==> input@[0] / 4 == 1,
{
    per::law_u32_bytes(m.sub_height, input@, 1);
    per::law_u32_bytes(m.sub_interval, input@, 3);
    if m.sub_height < 256 && m.sub_interval < 256 {
        assert(out@ =~= seq![4u8, 1u8, m.sub_height as u8, 1u8, m.sub_interval as u8]);
    }
}

/// The limits of a domain go out in the order channels, users, tokens,
/// priorities, throughput, height, size and version, each as a number of its own;
/// a server answers with fixed ones.
pub proof fn law_parameters_order(d: DomainParameters, b: Seq<u8>, p: int)
    ensures
        d.wire() == ber::sequence_tag_bytes((d.wire().len() - 2) as usize) + (ber::integer_bytes(
            d.max_channel_ids,
        ) + ber::integer_bytes(d.max_user_ids) + ber::integer_bytes(d.max_token_ids)
            + ber::integer_bytes(d.num_priorities) + ber::integer_bytes(d.min_throughput)
            + ber::integer_bytes(d.max_height) + ber::integer_bytes(d.max_mcs_pdu_size)
            + ber::integer_bytes(d.protocol_version)),
        DomainParameters::target().max_channel_ids == 34,
        DomainParameters::target().max_user_ids == 2,
        DomainParameters::target().max_token_ids == 0,
        DomainParameters::target().num_priorities == 1,
        DomainParameters::target().min_throughput == 0,
        DomainParameters::target().max_height == 1,
        DomainParameters::target().max_mcs_pdu_size == 65535,
        DomainParameters::target().protocol_version == 2,
{
    let s = d.fields();
    reveal_with_fuel(integers_wire, 9);
    assert(s.drop_last() =~= s.take(7));
    assert(s.take(7).drop_last() =~= s.take(6));
    assert(s.take(6).drop_last() =~= s.take(5));
    assert(s.take(5).drop_last() =~= s.take(4));
    assert(s.take(4).drop_last() =~= s.take(3));
    assert(s.take(3).drop_last() =~= s.take(2));
    assert(s.take(2).drop_last() =~= s.take(1));
    assert(s.take(1).drop_last() =~= s.take(0));
    assert(integers_wire(s) =~= ber::integer_bytes(d.max_channel_ids) + ber::integer_bytes(
        d.max_user_ids,
    ) + ber::integer_bytes(d.max_token_ids) + ber::integer_bytes(d.num_priorities)
        + ber::integer_bytes(d.min_throughput) + ber::integer_bytes(d.max_height)
        + ber::integer_bytes(d.max_mcs_pdu_size) + ber::integer_bytes(d.protocol_version));
    lemma_integers_wire_len(s);
}

/// What opens a connection, part for part: the tag 101, the two domains 1 and 1, true, the
/// parameters that are wanted, the least and the most of them, and the user data; and what
/// answers it: the tag 102, the result 0, the number of the connection, the parameters,
/// and the user data.
pub proof fn law_connect_parts(
    initial: &ConnectInitial,
    out: Vec<u8>,
    response: &ConnectResponse,
    answer: Vec<u8>,
)
    requires
        call_ensures(ConnectInitial::encode, (initial,), out),
        call_ensures(ConnectResponse::encode, (response,), answer),
    ensures
        ({
            let body = seq![4u8, 1, 1, 4, 1, 1, 1, 1, 255] + initial@.target_parameters.wire()
                + initial@.min_parameters.wire() + initial@.max_parameters.wire()
                + ber::octet_string_bytes(initial@.user_data);
            out@ == ber::application_tag_bytes(101, body.len() as usize) + body
        }),
        ({
            let body = seq![10u8, 1, 0] + ber::integer_bytes(response@.called_connect_id)
                + response@.domain_parameters.wire() + ber::octet_string_bytes(
                response@.user_data,
            );
            answer@ == ber::application_tag_bytes(102, body.len() as usize) + body
        }),
{
    ber::law_value_bytes(0, true, 0, seq![1u8], 0);
    ber::law_length_bytes(out@, 0, 1);
    let one = ber::octet_string_bytes(seq![1u8]);
    assert(one =~= seq![4u8, 1, 1]);
    assert(ber::boolean_bytes(true) =~= seq![1u8, 1, 255]);
    assert(ber::enumerated_bytes(0) =~= seq![10u8, 1, 0]);
    assert(one + one + ber::boolean_bytes(true) =~= seq![4u8, 1, 1, 4, 1, 1, 1, 1, 255]);
}

} // verus!
