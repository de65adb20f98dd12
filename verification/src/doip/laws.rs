//! What the DoIP layer promises, in terms of the bytes that come in and go out.

use crate::doip::handler::{
    activation_payload, answer_of, buffer_after, connection_after, connection_over, frame_size,
    is_action_for, is_out_of_sync, is_read_response, is_write_response, kept,
    lemma_frame_comes_out, may_read, may_write, message_views, messages_in, messages_over,
    negative_response, remainder_of, replies_to, reply_bytes, stream_of, uds_plan, uds_response,
    Connection, DiagHandler, MessageAction, UdsMessage, UdsPlanView,
};
use crate::doip::message::{
    declared_len, diagnostic_payload, frame_bytes, frame_payload, frame_type, has_frame,
    lemma_diagnostic_payload_round_trip, lemma_frame_round_trip,
    DiagnosticMessage, DoIpMessage, PayloadType, RoutingActivationRequest,
};
use crate::doip::server::{live_after, live_over, ServerEvent};
use crate::doip::wire::{be16, be16_bytes, be32, be32_bytes};
use crate::error::{Nrc, Result};
use vstd::prelude::*;

verus! {

/// The bytes of a 16-bit number: the first one counts 256 times as much as the
/// second, whether they are read or written.
pub proof fn law_16_bit_numbers_are_big_endian(value: u16, hi: u8, lo: u8)
    ensures
        be16_bytes(value).len() == 2,
        be16_bytes(value)[0] as int * 256 + be16_bytes(value)[1] as int == value,
        be16(seq![hi, lo]) as int == hi as int * 256 + lo as int,
{
}

/// The bytes of a 32-bit number: each one counts 256 times as much as the next,
/// whether they are read or written.
pub proof fn law_32_bit_numbers_are_big_endian(value: u32, a: u8, b: u8, c: u8, d: u8)
    ensures
        be32_bytes(value).len() == 4,
        ((be32_bytes(value)[0] as int * 256 + be32_bytes(value)[1]) * 256 + be32_bytes(value)[2])
            * 256 + be32_bytes(value)[3] == value,
        be32(seq![a, b, c, d]) as int == ((a as int * 256 + b) * 256 + c) * 256 + d,
{
}

/// Every byte of a serialised message: version, inverted version, type and
/// length, most significant byte first, and then the whole payload.
pub proof fn law_frame_layout(version: u8, payload_type: u16, payload: Seq<u8>)
    requires
        payload.len() <= u32::MAX,
    ensures
        ({
            let bytes = frame_bytes(version, payload_type, payload);
            &&& bytes.len() == 8 + payload.len()
            &&& bytes[0] == version
            &&& bytes[1] == 255 - version
            &&& bytes[2] as int * 256 + bytes[3] as int == payload_type
            &&& ((bytes[4] as int * 256 + bytes[5]) * 256 + bytes[6]) * 256 + bytes[7]
                == payload.len()
            &&& forall|k: int| 0 <= k < payload.len() ==> bytes[8 + k] == #[trigger] payload[k]
        }),
{
    assert(!version == 255 - version) by (bit_vector);
    let bytes = frame_bytes(version, payload_type, payload);
    assert forall|k: int| 0 <= k < payload.len() implies bytes[8 + k] == #[trigger] payload[k] by {}
}

/// A buffer starts with a message exactly if it starts with the serialised form
/// of some message, and then it is read as that message.
pub proof fn law_frames_are_serialised_messages(data: Seq<u8>)
    ensures
        has_frame(data) ==> {
            let bytes = frame_bytes(2, frame_type(data), frame_payload(data));
            &&& frame_payload(data).len() <= u32::MAX
            &&& bytes.is_prefix_of(data)
        },
        forall|payload_type: u16, payload: Seq<u8>|
            payload.len() <= u32::MAX && #[trigger] frame_bytes(
                2,
                payload_type,
                payload,
            ).is_prefix_of(data) ==> has_frame(data) && frame_type(data) == payload_type
                && frame_payload(data) == payload,
{
    if has_frame(data) {
        let payload = frame_payload(data);
        let bytes = frame_bytes(2, frame_type(data), payload);
        let len = declared_len(data);
        assert(payload.len() == len);
        let field = data.subrange(4, 8);
        assert(be32_bytes(len as u32) =~= field) by {
            law_32_bit_numbers_are_big_endian(len as u32, field[0], field[1], field[2], field[3]);
            assert(field =~= seq![field[0], field[1], field[2], field[3]]);
        }
        let kind = data.subrange(2, 4);
        assert(be16_bytes(frame_type(data)) =~= kind) by {
            law_16_bit_numbers_are_big_endian(frame_type(data), kind[0], kind[1]);
            assert(kind =~= seq![kind[0], kind[1]]);
        }
        assert(bytes =~= data.subrange(0, bytes.len() as int)) by {
            assert forall|k: int| 0 <= k < bytes.len() implies bytes[k] == data[k] by {
                if 2 <= k < 4 {
                    assert(kind[k - 2] == data[k]);
                } else if 4 <= k < 8 {
                    assert(field[k - 4] == data[k]);
                }
            }
        }
    }
    assert forall|payload_type: u16, payload: Seq<u8>|
        payload.len() <= u32::MAX && #[trigger] frame_bytes(
            2,
            payload_type,
            payload,
        ).is_prefix_of(data) implies has_frame(data) && frame_type(data) == payload_type
        && frame_payload(data) == payload by {
        let bytes = frame_bytes(2, payload_type, payload);
        let rest = data.skip(bytes.len() as int);
        assert(bytes + rest =~= data);
        lemma_frame_round_trip(payload_type, payload, rest);
    }
}

/// A part of a message gives nothing, and all of it is kept until the rest
/// comes in.
pub proof fn law_part_of_a_frame_waits(payload_type: u16, payload: Seq<u8>, cut: int, cap: nat)
    requires
        payload.len() <= u32::MAX,
        0 <= cut < 8 + payload.len(),
    ensures
        ({
            let part = frame_bytes(2, payload_type, payload).take(cut);
            &&& messages_in(part, cap) == Seq::<(u16, Seq<u8>)>::empty()
            &&& remainder_of(part, cap) == part
        }),
{
    let bytes = frame_bytes(2, payload_type, payload);
    let part = bytes.take(cut);
    lemma_frame_round_trip(payload_type, payload, Seq::empty());
    assert(bytes + Seq::<u8>::empty() =~= bytes);
    if cut >= 8 {
        assert(part.subrange(4, 8) =~= bytes.subrange(4, 8));
    }
}

/// Bytes that no message starts with are dropped one by one: with a full header
/// in sight that does not start with the version and its inverse, only the
/// first byte goes.
pub proof fn law_one_byte_is_dropped_to_resync(buffer: Seq<u8>, cap: nat)
    requires
        buffer.len() >= 8,
        buffer[0] != 0x02 || buffer[1] != 0xFD,
        cap > 0,
    ensures
        messages_in(buffer, cap) == messages_in(buffer.skip(1), cap),
        remainder_of(buffer, cap) == remainder_of(buffer.skip(1), cap),
{
    assert(!0x02u8 == 0xFDu8) by (bit_vector);
}

/// One read gives at most as many messages as the cap allows, and with no
/// message allowed the buffer stays as it is.
pub proof fn law_cap_bounds_messages(buffer: Seq<u8>, cap: nat)
    ensures
        messages_in(buffer, cap).len() <= cap,
        remainder_of(buffer, 0) == buffer,
    decreases buffer.len(),
{
    if cap > 0 {
        if has_frame(buffer) {
            law_cap_bounds_messages(
                buffer.skip(frame_size(buffer)),
                (cap - 1) as nat,
            );
        } else if is_out_of_sync(buffer) {
            law_cap_bounds_messages(buffer.skip(1), cap);
        }
    }
}

/// Up to 65536 bytes are kept as they are, and of more nothing is kept.
pub proof fn law_buffer_limit(buffer: Seq<u8>)
    ensures
        buffer.len() <= 65536 ==> kept(buffer) == buffer,
        buffer.len() > 65536 ==> kept(buffer).len() == 0,
{
}

/// A negative response has three bytes: 0x7F, the service and the code.
pub proof fn law_negative_response_bytes(service_id: u8, nrc: Nrc)
    ensures
        negative_response(service_id, nrc) == seq![0x7Fu8, service_id, nrc.code()],
{
}

/// A request of fewer than three bytes is refused with `7F 00 13`.
pub proof fn law_short_requests_are_refused(data: Seq<u8>)
    requires
        data.len() < 3,
    ensures
        uds_plan(data) == UdsPlanView::Respond(seq![0x7Fu8, 0x00, 0x13]),
{
}

/// Every request that starts with 0x22 and has at least three bytes, however
/// long, is a read of the DID in its second and third byte, with the full
/// request.
pub proof fn law_reads_are_planned(data: Seq<u8>)
    requires
        data.len() >= 3,
        data[0] == 0x22,
    ensures
        uds_plan(data) matches UdsPlanView::Read(did, request) && did as int == data[1] as int * 256
            + data[2] as int && request == data,
{
    assert(data.subrange(1, 3) =~= seq![data[1], data[2]]);
}

/// Every request that starts with 0x2E and has at least four bytes, however
/// long, is a write of the DID in its second and third byte, with the full
/// request. One with three bytes has no data and is refused.
pub proof fn law_writes_are_planned(data: Seq<u8>)
    requires
        data.len() >= 3,
        data[0] == 0x2E,
    ensures
        data.len() >= 4 ==> (uds_plan(data) matches UdsPlanView::Write(did, request) && did as int
            == data[1] as int * 256 + data[2] as int && request == data),
        data.len() == 3 ==> uds_plan(data) == UdsPlanView::Respond(seq![0x7Fu8, 0x2E, 0x13]),
{
    assert(data.subrange(1, 3) =~= seq![data[1], data[2]]);
}

/// Every other service is refused as not supported, by its own identifier.
pub proof fn law_other_services_are_refused(data: Seq<u8>)
    requires
        data.len() >= 3,
        data[0] != 0x22,
        data[0] != 0x2E,
    ensures
        uds_plan(data) == UdsPlanView::Respond(seq![0x7Fu8, data[0], 0x11]),
{
}

/// What the backend answers is the response, byte for byte. Where it fails, a
/// read is refused as out of range and a write as a programming failure. A
/// refusal does not depend on the backend.
pub proof fn law_backend_answers_are_passed_on(
    did: u16,
    request: Seq<u8>,
    bytes: Seq<u8>,
    answer: Option<Seq<u8>>,
)
    ensures
        uds_response(UdsPlanView::Read(did, request), Some(bytes)) == bytes,
        uds_response(UdsPlanView::Write(did, request), Some(bytes)) == bytes,
        uds_response(UdsPlanView::Read(did, request), None) == seq![0x7Fu8, 0x22, 0x31],
        uds_response(UdsPlanView::Write(did, request), None) == seq![0x7Fu8, 0x2E, 0x72],
        uds_response(UdsPlanView::Respond(bytes), answer) == bytes,
{
}

/// The payload of the response to a routing activation has five bytes: the
/// tester, the logical address, and 0x10 for success.
pub proof fn law_activation_payload(tester: u16, logical_address: u16)
    ensures
        ({
            let payload = activation_payload(tester, logical_address);
            &&& payload.len() == 5
            &&& payload[0] as int * 256 + payload[1] as int == tester
            &&& payload[2] as int * 256 + payload[3] as int == logical_address
            &&& payload[4] == 0x10
        }),
{
}

/// Every routing activation request with at least seven bytes activates the
/// tester whose address it starts with, and is answered with a message of type
/// 0x0006 that names this tester, the ECU and success.
pub proof fn law_activation_is_answered(
    action: MessageAction,
    connection: Connection,
    payload: Seq<u8>,
    answer: Option<Seq<u8>>,
)
    requires
        payload.len() >= 7,
        is_action_for(action, connection, 0x0005, payload),
    ensures
        ({
            let tester = payload[0] as int * 256 + payload[1] as int;
            let after = connection_after(connection, 0x0005, payload);
            &&& after.tester matches Some(t) && t as int == tester
            &&& after.logical_address == connection.logical_address
            &&& after.source_address == connection.source_address
            &&& after.buffer == connection.buffer
            &&& action matches MessageAction::Reply(m)
            &&& m.protocol_version == 2
            &&& m.payload_type == 0x0006
            &&& m.payload@.len() == 5
            &&& m.payload@[0] == payload[0]
            &&& m.payload@[1] == payload[1]
            &&& m.payload@[2] as int * 256 + m.payload@[3] as int == connection.logical_address
            &&& m.payload@[4] == 0x10
            &&& reply_bytes(connection, 0x0005, payload, answer) == frame_bytes(
                2,
                0x0006,
                m.payload@,
            )
        }),
{
    assert(payload.subrange(0, 2) =~= seq![payload[0], payload[1]]);
}

/// Nothing but a routing activation request of at least seven bytes changes a
/// connection, and a shorter one is not answered.
pub proof fn law_only_activation_changes_connection(
    action: MessageAction,
    connection: Connection,
    payload_type: u16,
    payload: Seq<u8>,
)
    requires
        payload_type != 0x0005 || payload.len() < 7,
        is_action_for(action, connection, payload_type, payload),
    ensures
        connection_after(connection, payload_type, payload) == connection,
        payload_type == 0x0005 ==> action is Ignore,
        payload_type != 0x8001 ==> action is Ignore,
{
}

/// A diagnostic message is carried out exactly if its source is the activated
/// tester and its target is the ECU, whatever UDS data it carries, and then for
/// that data.
pub proof fn law_diagnostic_message_is_served_iff_authorised(
    action: MessageAction,
    connection: Connection,
    source: u16,
    target: u16,
    user_data: Seq<u8>,
)
    requires
        is_action_for(
            action,
            connection,
            0x8001,
            be16_bytes(source) + be16_bytes(target) + user_data,
        ),
    ensures
        connection.tester == Some(source) && connection.logical_address == target ==> (
        action matches MessageAction::Request { tester, plan } && tester == source && plan@
            == uds_plan(user_data)),
        connection.tester != Some(source) || connection.logical_address != target
            ==> action is Ignore,
{
    let payload = be16_bytes(source) + be16_bytes(target) + user_data;
    assert(payload =~= diagnostic_payload(source, target, user_data));
    lemma_diagnostic_payload_round_trip(source, target, user_data);
}

/// A diagnostic message of fewer than four bytes has no addresses and is
/// ignored.
pub proof fn law_short_diagnostic_message_is_ignored(
    action: MessageAction,
    connection: Connection,
    payload: Seq<u8>,
)
    requires
        payload.len() < 4,
        is_action_for(action, connection, 0x8001, payload),
    ensures
        action is Ignore,
{
}

/// The payload of a diagnostic message: source address, target address, and
/// then all of the UDS data.
pub proof fn law_diagnostic_payload_layout(source: u16, target: u16, user_data: Seq<u8>)
    ensures
        ({
            let payload = diagnostic_payload(source, target, user_data);
            &&& payload.len() == 4 + user_data.len()
            &&& payload[0] as int * 256 + payload[1] as int == source
            &&& payload[2] as int * 256 + payload[3] as int == target
            &&& forall|k: int| 0 <= k < user_data.len() ==> payload[4 + k] == #[trigger] user_data[k]
        }),
{
    let payload = diagnostic_payload(source, target, user_data);
    assert forall|k: int| 0 <= k < user_data.len() implies payload[4 + k]
        == #[trigger] user_data[k] by {}
}

/// A response to the tester goes out as one diagnostic message from the proxy's
/// address to the tester's, with all bytes of the UDS response. An empty one
/// does not go out.
pub proof fn law_response_reaches_tester(
    connection: Connection,
    tester: u16,
    user_data: Seq<u8>,
    answer: Option<Seq<u8>>,
)
    requires
        connection.tester == Some(tester),
        uds_response(uds_plan(user_data), answer).len() <= 0xFFFF_0000,
    ensures
        ({
            let request = diagnostic_payload(tester, connection.logical_address, user_data);
            let response = uds_response(uds_plan(user_data), answer);
            let written = reply_bytes(connection, 0x8001, request, answer);
            if response.len() == 0 {
                written.len() == 0
            } else {
                &&& has_frame(written)
                &&& written.len() == 12 + response.len()
                &&& frame_type(written) == 0x8001
                &&& frame_payload(written) == diagnostic_payload(
                    connection.source_address,
                    tester,
                    response,
                )
            }
        }),
{
    let request = diagnostic_payload(tester, connection.logical_address, user_data);
    let response = uds_response(uds_plan(user_data), answer);
    lemma_diagnostic_payload_round_trip(tester, connection.logical_address, user_data);
    if response.len() > 0 {
        let payload = diagnostic_payload(connection.source_address, tester, response);
        lemma_frame_round_trip(0x8001, payload, Seq::empty());
        let bytes = frame_bytes(2, 0x8001, payload);
        assert(bytes + Seq::<u8>::empty() =~= bytes);
    }
}

/// As long as none ends, connections are accepted until the limit is reached:
/// `count` arrivals leave `live + count` open, or as many as the limit allows.
pub proof fn law_connections_fill_up_to_limit(limit: nat, live: nat, count: nat)
    requires
        live <= limit,
    ensures
        live_over(limit, live, Seq::new(count, |i: int| ServerEvent::Arrival)) == (if live + count
            <= limit {
            live + count
        } else {
            limit
        }),
    decreases count,
{
    let events = Seq::new(count, |i: int| ServerEvent::Arrival);
    if count > 0 {
        let before = (count - 1) as nat;
        law_connections_fill_up_to_limit(limit, live, before);
        assert(events.drop_last() =~= Seq::new(before, |i: int| ServerEvent::Arrival));
        assert(events.last() == ServerEvent::Arrival);
    }
}

/// An end takes back what an arrival took: after both, in this order, there are
/// as many connections open as before, where there was a place.
pub proof fn law_end_frees_one_place(limit: nat, live: nat, events: Seq<ServerEvent>)
    requires
        live_over(limit, live, events) < limit,
    ensures
        live_over(limit, live, events.push(ServerEvent::Arrival)) == live_over(limit, live, events)
            + 1,
        live_over(
            limit,
            live,
            events.push(ServerEvent::Arrival).push(ServerEvent::End),
        ) == live_over(limit, live, events),
{
    let arrived = events.push(ServerEvent::Arrival);
    let ended = arrived.push(ServerEvent::End);
    assert(arrived.drop_last() =~= events);
    assert(ended.drop_last() =~= arrived);
    assert(arrived.last() == ServerEvent::Arrival);
    assert(ended.last() == ServerEvent::End);
    assert(live_over(limit, live, arrived) == live_over(limit, live, events) + 1);
    assert(live_over(limit, live, ended) == live_after(
        limit,
        live_over(limit, live, arrived),
        ServerEvent::End,
    ));
}

/// The payload types by their numbers on the wire. No other number is one.
pub proof fn law_payload_types(t: PayloadType)
    ensures
        t.wire_code() <= 0x0008 || 0x8001 <= t.wire_code() <= 0x8003,
        PayloadType::GenericHeaderNack.wire_code() == 0x0000,
        PayloadType::VehicleIdentificationRequest.wire_code() == 0x0001,
        PayloadType::VehicleIdentificationRequestWithEid.wire_code() == 0x0002,
        PayloadType::VehicleIdentificationRequestWithVin.wire_code() == 0x0003,
        PayloadType::VehicleAnnouncementIdentificationResponse.wire_code() == 0x0004,
        PayloadType::RoutingActivationRequest.wire_code() == 0x0005,
        PayloadType::RoutingActivationResponse.wire_code() == 0x0006,
        PayloadType::AliveCheckRequest.wire_code() == 0x0007,
        PayloadType::AliveCheckResponse.wire_code() == 0x0008,
        PayloadType::DiagnosticMessage.wire_code() == 0x8001,
        PayloadType::DiagnosticMessagePositiveAck.wire_code() == 0x8002,
        PayloadType::DiagnosticMessageNegativeAck.wire_code() == 0x8003,
{
}

/// A message that is sent is received as it was, whatever follows it on the
/// wire.
pub proof fn law_messages_survive_the_wire(
    message: DoIpMessage,
    bytes: Vec<u8>,
    received: &[u8],
    rest: Seq<u8>,
    parsed: Option<DoIpMessage>,
)
    requires
        message.protocol_version == 2,
        message.payload@.len() <= u32::MAX,
        call_ensures(DoIpMessage::to_bytes, (&message,), bytes),
        received@ == bytes@ + rest,
        call_ensures(DoIpMessage::from_bytes, (received,), parsed),
    ensures
        parsed matches Some(m) && m.protocol_version == 2 && m.payload_type == message.payload_type
            && m.payload@ == message.payload@,
{
    lemma_frame_round_trip(message.payload_type, message.payload@, rest);
}

/// A routing activation request is read from its first seven bytes: the address
/// of the tester, the kind of activation, and four reserved bytes.
pub proof fn law_activation_request_fields(
    payload: &[u8],
    request: Option<RoutingActivationRequest>,
)
    requires
        call_ensures(RoutingActivationRequest::from_payload, (payload,), request),
    ensures
        payload@.len() < 7 <==> request is None,
        request matches Some(r) ==> {
            &&& r.source_address as int == payload@[0] as int * 256 + payload@[1] as int
            &&& r.activation_type == payload@[2]
            &&& r.reserved as int == ((payload@[3] as int * 256 + payload@[4]) * 256 + payload@[5])
                * 256 + payload@[6]
        },
{
    if payload@.len() >= 7 {
        assert(payload@.subrange(0, 2) =~= seq![payload@[0], payload@[1]]);
        assert(payload@.subrange(3, 7) =~= seq![
            payload@[3],
            payload@[4],
            payload@[5],
            payload@[6],
        ]);
    }
}

/// A diagnostic message that is built is read back with both addresses and all
/// of its data.
pub proof fn law_diagnostic_messages_survive(
    source: u16,
    target: u16,
    user_data: &[u8],
    payload: Vec<u8>,
    received: &[u8],
    message: Option<DiagnosticMessage>,
)
    requires
        call_ensures(DiagnosticMessage::build_payload, (source, target, user_data), payload),
        received@ == payload@,
        call_ensures(DiagnosticMessage::from_payload, (received,), message),
    ensures
        message matches Some(m) && m.source_address == source && m.target_address == target
            && m.user_data@ == user_data@,
{
    lemma_diagnostic_payload_round_trip(source, target, user_data@);
}

/// A UDS message is its service identifier and the rest, and its DID is the
/// big-endian number in the first two bytes of the rest.
pub proof fn law_uds_messages(
    bytes: &[u8],
    message: Result<UdsMessage>,
    did: Option<u16>,
)
    requires
        call_ensures(UdsMessage::from_bytes, (bytes,), message),
        message matches Ok(m) ==> call_ensures(UdsMessage::extract_did, (&m,), did),
    ensures
        message is Ok <==> bytes@.len() > 0,
        message matches Ok(m) ==> seq![m.service_id] + m.data@ == bytes@,
        message is Ok && bytes@.len() < 3 ==> did is None,
        message is Ok && bytes@.len() >= 3 ==> (did matches Some(d) && d as int == bytes@[1] as int
            * 256 + bytes@[2] as int),
{
    if let Ok(m) = message {
        assert(seq![m.service_id] + m.data@ =~= bytes@);
        if bytes@.len() >= 3 {
            assert(m.data@.take(2) =~= seq![bytes@[1], bytes@[2]]);
        }
    }
}

/// The limits: what is kept between reads, and how many messages one read gives.
pub proof fn law_limits(buffer: Seq<u8>, chunk: Seq<u8>)
    ensures
        buffer_after(buffer, chunk).len() <= 65536,
        buffer_after(buffer, chunk) == kept(remainder_of(buffer + chunk, 128)),
        messages_over(buffer, seq![chunk]) == messages_in(buffer + chunk, 128),
{
    reveal_with_fuel(messages_over, 2);
    assert(seq![chunk].skip(1) =~= Seq::<Seq<u8>>::empty());
    let first = messages_in(buffer + chunk, 128);
    assert(first + Seq::<(u16, Seq<u8>)>::empty() =~= first);
}

/// Of messages that come in one after the other, the first ones come out, as
/// many as the cap allows, and the others stay in the buffer.
pub proof fn law_first_messages_come_out(messages: Seq<(u16, Seq<u8>)>, cap: nat)
    requires
        cap <= messages.len(),
        forall|i: int| 0 <= i < messages.len() ==> (#[trigger] messages[i]).1.len() <= u32::MAX,
    ensures
        messages_in(stream_of(messages), cap) == messages.take(cap as int),
        remainder_of(stream_of(messages), cap) == stream_of(messages.skip(cap as int)),
    decreases messages.len(),
{
    if cap == 0 {
        assert(messages.take(0) =~= Seq::<(u16, Seq<u8>)>::empty());
        assert(messages.skip(0) =~= messages);
    } else {
        let (first, rest) = (messages[0], messages.skip(1));
        let fewer = (cap - 1) as nat;
        assert forall|i: int| 0 <= i < rest.len() implies (#[trigger] rest[i]).1.len()
            <= u32::MAX by {
            assert(messages[i + 1].1.len() <= u32::MAX);
        }
        law_first_messages_come_out(rest, fewer);
        lemma_frame_comes_out(first.0, first.1, stream_of(rest), cap);
        assert(seq![first] + rest.take(fewer as int) =~= messages.take(cap as int));
        assert(rest.skip(fewer as int) =~= messages.skip(cap as int));
    }
}

/// Messages are answered one by one, each on the connection that those before
/// it left.
pub proof fn law_replies_one_by_one(
    connection: Connection,
    a: Seq<(u16, Seq<u8>)>,
    b: Seq<(u16, Seq<u8>)>,
    number: nat,
    answers: spec_fn(nat) -> Option<Seq<u8>>,
)
    ensures
        replies_to(connection, a + b, number, answers) == replies_to(connection, a, number, answers)
            + replies_to(connection_over(connection, a), b, number + a.len(), answers),
        connection_over(connection, a + b) == connection_over(connection_over(connection, a), b),
    decreases a.len(),
{
    if a.len() == 0 {
        assert(a + b =~= b);
        let all = replies_to(connection, b, number, answers);
        assert(Seq::<u8>::empty() + all =~= all);
    } else {
        assert((a + b).skip(1) =~= a.skip(1) + b);
        assert((a + b)[0] == a[0]);
        let after = connection_after(connection, a[0].0, a[0].1);
        law_replies_one_by_one(after, a.skip(1), b, number + 1, answers);
        let first = reply_bytes(connection, a[0].0, a[0].1, answers(number));
        let x = replies_to(after, a.skip(1), number + 1, answers);
        let y = replies_to(connection_over(connection, a), b, number + a.len(), answers);
        assert(first + (x + y) =~= (first + x) + y);
    }
}

/// What the backend answers to one message is the reply to that message alone.
pub proof fn law_reply_to_one_message(
    connection: Connection,
    payload_type: u16,
    payload: Seq<u8>,
    number: nat,
    answers: spec_fn(nat) -> Option<Seq<u8>>,
)
    ensures
        replies_to(connection, seq![(payload_type, payload)], number, answers) == reply_bytes(
            connection,
            payload_type,
            payload,
            answers(number),
        ),
        connection_over(connection, seq![(payload_type, payload)]) == connection_after(
            connection,
            payload_type,
            payload,
        ),
{
    reveal_with_fuel(replies_to, 2);
    reveal_with_fuel(connection_over, 2);
    let one = seq![(payload_type, payload)];
    assert(one.skip(1) =~= Seq::<(u16, Seq<u8>)>::empty());
    let reply = reply_bytes(connection, payload_type, payload, answers(number));
    assert(reply + Seq::<u8>::empty() =~= reply);
}

/// A message that is no routing activation and no diagnostic message for the
/// ECU from the activated tester is not answered.
pub proof fn law_other_messages_are_not_answered(
    connection: Connection,
    payload_type: u16,
    payload: Seq<u8>,
    answer: Option<Seq<u8>>,
)
    requires
        payload_type != 0x0005 || payload.len() < 7,
        payload_type != 0x8001 || payload.len() < 4 || connection.tester is None || payload[0] as int
            * 256 + payload[1] as int != connection.tester->0 || payload[2] as int * 256
            + payload[3] as int != connection.logical_address,
    ensures
        reply_bytes(connection, payload_type, payload, answer).len() == 0,
{
    if payload.len() >= 4 {
        assert(payload.subrange(0, 2) =~= seq![payload[0], payload[1]]);
        assert(payload.subrange(2, 4) =~= seq![payload[2], payload[3]]);
    }
}

/// The response to a read is what the backend answered to the whole request, or
/// `7F 22 31` where it failed.
pub proof fn law_read_goes_to_backend<H: DiagHandler>(
    backend: &H,
    did: u16,
    request: Seq<u8>,
    response: Seq<u8>,
)
    requires
        is_read_response(response, backend, did, request),
    ensures
        exists|asked: &[u8], outcome: Result<Vec<u8>>|
            #[trigger] may_read(backend, did, asked, outcome) && asked@ == request && match outcome {
                Ok(bytes) => response == bytes@,
                Err(_) => response == seq![0x7Fu8, 0x22, 0x31],
            },
{
    let (asked, outcome) = choose|asked: &[u8], outcome: Result<Vec<u8>>|
        #[trigger] may_read(backend, did, asked, outcome) && asked@ == request && response
            == uds_response(UdsPlanView::Read(did, request), answer_of(outcome));
    assert(may_read(backend, did, asked, outcome));
}

/// The response to a write is what the backend answered to the whole request,
/// or `7F 2E 72` where it failed.
pub proof fn law_write_goes_to_backend<H: DiagHandler>(
    backend: &H,
    did: u16,
    request: Seq<u8>,
    response: Seq<u8>,
)
    requires
        is_write_response(response, backend, did, request),
    ensures
        exists|asked: &[u8], outcome: Result<Vec<u8>>|
            #[trigger] may_write(backend, did, asked, outcome) && asked@ == request
                && match outcome {
                Ok(bytes) => response == bytes@,
                Err(_) => response == seq![0x7Fu8, 0x2E, 0x72],
            },
{
    let (asked, outcome) = choose|asked: &[u8], outcome: Result<Vec<u8>>|
        #[trigger] may_write(backend, did, asked, outcome) && asked@ == request && response
            == uds_response(UdsPlanView::Write(did, request), answer_of(outcome));
    assert(may_write(backend, did, asked, outcome));
}

/// The messages of a read are listed by type and payload, one for one.
pub proof fn law_message_views(messages: Seq<DoIpMessage>, i: int)
    requires
        0 <= i < messages.len(),
    ensures
        message_views(messages).len() == messages.len(),
        message_views(messages)[i].0 == messages[i].payload_type,
        message_views(messages)[i].1 == messages[i].payload@,
{
}

} // verus!
