//! One DoIP connection: from received bytes to answered frames.
//!
//! The connection itself is read and written from outside. What was read goes
//! into [`ConnectionHandler::receive`], each message that it gives back into
//! [`ConnectionHandler::process_message`], which says what to do about it.

use crate::config::Config;
use crate::doip::message::{
    declared_len, diagnostic_payload, frame_bytes, frame_payload, frame_type, has_frame,
    has_header, has_version_bytes, lemma_frame_round_trip, DiagnosticMessage, DoIpMessage,
    PayloadType, RoutingActivationRequest, DIAGNOSTIC_MESSAGE_HEADER_SIZE, DOIP_HEADER_SIZE,
    DOIP_PROTOCOL_VERSION, ROUTING_ACTIVATION_REQUEST_MIN_LEN,
};
use crate::doip::session::Session;
use crate::doip::wire::{be16, be16_bytes, copy_bytes, high_byte, join_be16, low_byte};
use crate::error::{lemma_nrc_round_trip, nrc_of, Nrc, ProxyError, Result, UdsError};
use crate::service_resolver::is_negative;
use crate::service_resolver::uds_service_ids::{
    NEGATIVE_RESPONSE, READ_DATA_BY_IDENTIFIER, WRITE_DATA_BY_IDENTIFIER,
};
use vstd::prelude::*;

verus! {

/// ISO 13400 routing activation response code: success.
pub const ROUTING_ACTIVATION_SUCCESS: u8 = 0x10;

/// Socket read chunk size used for each `read` call.
pub const READ_BUFFER_SIZE: usize = 4096;

/// Maximum buffered bytes retained while waiting for complete DoIP frames.
pub const MAX_STAGED_BUFFER_BYTES: usize = 65_536;

/// Maximum parsed frames per read cycle to keep scheduling fair.
pub const MAX_FRAMES_PER_READ: usize = 128;

/// Read service minimum length: SID (1 byte) + DID (2 bytes) = 3 bytes.
pub const MIN_READ_SERVICE_LENGTH: usize = 3;

/// Minimum data bytes for a `WriteDataByIdentifier` request (DID hi + DID lo + 1 data byte).
pub const MIN_WDBI_DATA_LENGTH: usize = 3;

/// Minimum data bytes for a `ReadDataByIdentifier` request: DID high byte + DID low byte.
pub const MIN_RDBI_DATA_LENGTH: usize = 2;

/// Placeholder service ID used in a negative response when UDS message parsing fails.
pub const UNKNOWN_SERVICE_ID: u8 = 0x00;

/// A UDS negative response: `[0x7F, SID, NRC]`.
pub open spec fn negative_response(service_id: u8, nrc: Nrc) -> Seq<u8> {
    seq![NEGATIVE_RESPONSE, service_id, nrc.code()]
}

/// Parsed UDS message consisting of a service identifier and data bytes.
#[derive(Debug, Clone)]
pub struct UdsMessage {
    /// UDS Service Identifier (SID), e.g. 0x22 for `ReadDataByIdentifier`.
    pub service_id: u8,
    /// Remaining bytes after the SID (sub-function, DID, data, etc.).
    pub data: Vec<u8>,
}

impl UdsMessage {
    /// Parse a UDS message from raw bytes.
    ///
    /// The first byte is interpreted as the SID; the rest becomes `data`.
    ///
    /// # Errors
    /// Returns an error if the byte slice is empty.
    pub fn from_bytes(bytes: &[u8]) -> (message: Result<Self>)
        ensures
            match message {
                Ok(m) => bytes@.len() > 0 && m.service_id == bytes@[0] && m.data@ == bytes@.skip(1),
                Err(e) => bytes@.len() == 0 && e == ProxyError::Uds(
                    UdsError::InvalidLength { expected: 1, actual: 0 },
                ),
            },
    {
        if bytes.len() == 0 {
            return Err(ProxyError::from(UdsError::InvalidLength { expected: 1, actual: 0 }));
        }
        Ok(UdsMessage { service_id: bytes[0], data: copy_bytes(bytes, 1, bytes.len()) })
    }

    /// Build a UDS negative response: `[0x7F, SID, NRC]`.
    pub fn build_negative_response(&self, nrc: Nrc) -> (response: Vec<u8>)
        ensures
            response@ == negative_response(self.service_id, nrc),
    {
        build_negative(self.service_id, nrc)
    }

    /// Extract a 16-bit DID from the first two data bytes.
    pub fn extract_did(&self) -> (did: Option<u16>)
        ensures
            did == (if self.data@.len() >= 2 {
                Some(be16(self.data@.take(2)))
            } else {
                None
            }),
    {
        if self.data.len() < 2 {
            return None;
        }
        assert(self.data@.take(2) =~= seq![self.data@[0], self.data@[1]]);
        Some(join_be16(self.data[0], self.data[1]))
    }
}

fn build_negative(service_id: u8, nrc: Nrc) -> (response: Vec<u8>)
    ensures
        response@ == negative_response(service_id, nrc),
{
    let mut response: Vec<u8> = Vec::new();
    response.push(NEGATIVE_RESPONSE);
    response.push(service_id);
    response.push(nrc.to_u8());
    response
}

/// A full header is there, but its protocol bytes are wrong.
pub open spec fn is_out_of_sync(buffer: Seq<u8>) -> bool {
    has_header(buffer) && !has_version_bytes(buffer)
}

/// Returns `true` when a full header is present but protocol bytes are invalid.
pub fn has_invalid_doip_header(buffer: &[u8]) -> (invalid: bool)
    ensures
        invalid == is_out_of_sync(buffer@),
{
    if buffer.len() < DOIP_HEADER_SIZE {
        return false;
    }
    let version = buffer[0];
    version != DOIP_PROTOCOL_VERSION || buffer[1] != !version
}

/// The size of the frame that a buffer starts with.
pub open spec fn frame_size(buffer: Seq<u8>) -> int {
    DOIP_HEADER_SIZE + declared_len(buffer)
}

/// The type and payload of the messages in a buffer, at most `cap` of them.
///
/// Frames are taken off the front. Where the header is wrong, one byte is
/// dropped, until a header is right or too few bytes are left.
pub open spec fn messages_in(buffer: Seq<u8>, cap: nat) -> Seq<(u16, Seq<u8>)>
    decreases buffer.len(),
{
    if cap == 0 {
        Seq::empty()
    } else if has_frame(buffer) {
        seq![(frame_type(buffer), frame_payload(buffer))] + messages_in(
            buffer.skip(frame_size(buffer)),
            (cap - 1) as nat,
        )
    } else if is_out_of_sync(buffer) {
        messages_in(buffer.skip(1), cap)
    } else {
        Seq::empty()
    }
}

/// What is left of a buffer after its messages were taken off.
pub open spec fn remainder_of(buffer: Seq<u8>, cap: nat) -> Seq<u8>
    decreases buffer.len(),
{
    if cap == 0 {
        buffer
    } else if has_frame(buffer) {
        remainder_of(buffer.skip(frame_size(buffer)), (cap - 1) as nat)
    } else if is_out_of_sync(buffer) {
        remainder_of(buffer.skip(1), cap)
    } else {
        buffer
    }
}

/// What is kept of a buffer: nothing if it has grown too large.
pub open spec fn kept(buffer: Seq<u8>) -> Seq<u8> {
    if buffer.len() > MAX_STAGED_BUFFER_BYTES {
        Seq::empty()
    } else {
        buffer
    }
}

/// Type and payload of messages of the protocol version.
pub open spec fn message_views(messages: Seq<DoIpMessage>) -> Seq<(u16, Seq<u8>)> {
    messages.map_values(|m: DoIpMessage| (m.payload_type, m.payload@))
}

/// A frame at the front of a stream comes out as it was serialised, and what
/// follows it comes out as if it had come alone.
pub proof fn lemma_frame_comes_out(
    payload_type: u16,
    payload: Seq<u8>,
    rest: Seq<u8>,
    cap: nat,
)
    requires
        payload.len() <= u32::MAX,
        cap > 0,
    ensures
        ({
            let stream = frame_bytes(DOIP_PROTOCOL_VERSION, payload_type, payload) + rest;
            &&& messages_in(stream, cap) == seq![(payload_type, payload)] + messages_in(
                rest,
                (cap - 1) as nat,
            )
            &&& remainder_of(stream, cap) == remainder_of(rest, (cap - 1) as nat)
        }),
{
    lemma_frame_round_trip(payload_type, payload, rest);
}

/// The wire form of messages, one after the other.
pub open spec fn stream_of(messages: Seq<(u16, Seq<u8>)>) -> Seq<u8>
    decreases messages.len(),
{
    if messages.len() == 0 {
        Seq::empty()
    } else {
        frame_bytes(DOIP_PROTOCOL_VERSION, messages[0].0, messages[0].1) + stream_of(
            messages.skip(1),
        )
    }
}

/// Messages that were serialised one after the other come out one after the
/// other, and leave nothing behind.
pub proof fn lemma_stream_comes_out(messages: Seq<(u16, Seq<u8>)>, cap: nat)
    requires
        messages.len() <= cap,
        forall|i: int| 0 <= i < messages.len() ==> (#[trigger] messages[i]).1.len() <= u32::MAX,
    ensures
        messages_in(stream_of(messages), cap) == messages,
        remainder_of(stream_of(messages), cap) == Seq::<u8>::empty(),
    decreases messages.len(),
{
    if messages.len() > 0 {
        let later = messages.skip(1);
        assert forall|i: int| 0 <= i < later.len() implies (#[trigger] later[i]).1.len()
            <= u32::MAX by {
            assert(messages[i + 1].1.len() <= u32::MAX);
        }
        lemma_stream_comes_out(later, (cap - 1) as nat);
        lemma_frame_comes_out(messages[0].0, messages[0].1, stream_of(later), cap);
        assert(seq![messages[0]] + later =~= messages);
    }
}

/// It does not matter how a stream is cut into reads: what comes in later goes
/// on where the earlier part left off. This holds as long as the earlier part
/// did not reach the cap.
pub proof fn lemma_reads_can_be_cut(first: Seq<u8>, second: Seq<u8>, cap: nat, more: nat)
    requires
        messages_in(first, cap).len() < cap,
        more > 0,
    ensures
        ({
            let early = messages_in(first, cap);
            let left = remainder_of(first, cap);
            &&& messages_in(first + second, early.len() + more) == early + messages_in(
                left + second,
                more,
            )
            &&& remainder_of(first + second, early.len() + more) == remainder_of(
                left + second,
                more,
            )
        }),
    decreases first.len(),
{
    let all = first + second;
    let early = messages_in(first, cap);
    let left = remainder_of(first, cap);
    if has_frame(first) {
        let size = frame_size(first);
        assert(all.subrange(4, 8) =~= first.subrange(4, 8));
        assert(all.subrange(2, 4) =~= first.subrange(2, 4));
        assert(has_frame(all));
        assert(frame_payload(all) =~= frame_payload(first));
        let rest = first.skip(size);
        assert(all.skip(size) =~= rest + second);
        let early_rest = messages_in(rest, (cap - 1) as nat);
        lemma_reads_can_be_cut(rest, second, (cap - 1) as nat, more);
        assert((early.len() + more - 1) as nat == early_rest.len() + more);
        assert(messages_in(all, early.len() + more) =~= early + messages_in(left + second, more));
    } else if is_out_of_sync(first) {
        assert(is_out_of_sync(all));
        assert(!has_frame(all));
        assert(all.skip(1) =~= first.skip(1) + second);
        lemma_reads_can_be_cut(first.skip(1), second, cap, more);
    } else {
        assert(messages_in(all, more) =~= early + messages_in(all, more));
    }
}

/// A cap that is not reached makes no difference.
pub proof fn lemma_cap_not_reached(buffer: Seq<u8>, cap: nat, larger: nat)
    requires
        messages_in(buffer, cap).len() < cap || messages_in(buffer, larger).len() < cap,
        cap <= larger,
    ensures
        messages_in(buffer, larger) == messages_in(buffer, cap),
        remainder_of(buffer, larger) == remainder_of(buffer, cap),
    decreases buffer.len(),
{
    if has_frame(buffer) {
        lemma_cap_not_reached(
            buffer.skip(frame_size(buffer)),
            (cap - 1) as nat,
            (larger - 1) as nat,
        );
    } else if is_out_of_sync(buffer) {
        lemma_cap_not_reached(buffer.skip(1), cap, larger);
    }
}

/// Two reads give the same messages as one read of all their bytes, and leave
/// the same behind, as long as they stay within the limits of one read.
pub proof fn lemma_two_reads_like_one(buffer: Seq<u8>, first: Seq<u8>, second: Seq<u8>)
    requires
        ({
            let cap = MAX_FRAMES_PER_READ as nat;
            let left = remainder_of(buffer + first, cap);
            &&& messages_in(buffer + first, cap).len() + messages_in(left + second, cap).len() < cap
            &&& left.len() <= MAX_STAGED_BUFFER_BYTES
        }),
    ensures
        ({
            let cap = MAX_FRAMES_PER_READ as nat;
            let between = kept(remainder_of(buffer + first, cap));
            &&& messages_in(buffer + first, cap) + messages_in(between + second, cap)
                == messages_in(buffer + (first + second), cap)
            &&& remainder_of(between + second, cap) == remainder_of(
                buffer + (first + second),
                cap,
            )
        }),
{
    let cap = MAX_FRAMES_PER_READ as nat;
    let early = messages_in(buffer + first, cap);
    let left = remainder_of(buffer + first, cap);
    let room = (cap - early.len()) as nat;
    assert(buffer + (first + second) =~= (buffer + first) + second);
    lemma_reads_can_be_cut(buffer + first, second, cap, room);
    lemma_cap_not_reached(left + second, room, cap);
}

/// All bytes of some reads, in order.
pub open spec fn joined(chunks: Seq<Seq<u8>>) -> Seq<u8>
    decreases chunks.len(),
{
    if chunks.len() == 0 {
        Seq::empty()
    } else {
        chunks[0] + joined(chunks.skip(1))
    }
}

/// What is kept after a read.
pub open spec fn buffer_after(buffer: Seq<u8>, chunk: Seq<u8>) -> Seq<u8> {
    kept(remainder_of(buffer + chunk, MAX_FRAMES_PER_READ as nat))
}

/// The messages that come out of some reads, one read after the other.
pub open spec fn messages_over(buffer: Seq<u8>, chunks: Seq<Seq<u8>>) -> Seq<(u16, Seq<u8>)>
    decreases chunks.len(),
{
    if chunks.len() == 0 {
        Seq::empty()
    } else {
        messages_in(buffer + chunks[0], MAX_FRAMES_PER_READ as nat) + messages_over(
            buffer_after(buffer, chunks[0]),
            chunks.skip(1),
        )
    }
}

/// What is kept after some reads.
pub open spec fn buffer_over(buffer: Seq<u8>, chunks: Seq<Seq<u8>>) -> Seq<u8>
    decreases chunks.len(),
{
    if chunks.len() == 0 {
        buffer
    } else {
        buffer_over(buffer_after(buffer, chunks[0]), chunks.skip(1))
    }
}

/// Nothing more can be taken off the buffer before further bytes come in. An
/// empty buffer is settled.
pub open spec fn is_settled(buffer: Seq<u8>) -> bool {
    !has_frame(buffer) && !is_out_of_sync(buffer)
}

/// What is left below the cap is settled and no longer than the buffer was,
/// and no more messages come out than the cap allows.
proof fn lemma_remainder(buffer: Seq<u8>, cap: nat)
    ensures
        messages_in(buffer, cap).len() <= cap,
        remainder_of(buffer, cap).len() <= buffer.len(),
        messages_in(buffer, cap).len() < cap ==> is_settled(remainder_of(buffer, cap)),
    decreases buffer.len(),
{
    if cap > 0 {
        if has_frame(buffer) {
            lemma_remainder(buffer.skip(frame_size(buffer)), (cap - 1) as nat);
        } else if is_out_of_sync(buffer) {
            lemma_remainder(buffer.skip(1), cap);
        }
    }
}

/// Bytes that come in later take away no message.
proof fn lemma_messages_stay(first: Seq<u8>, second: Seq<u8>, cap: nat)
    ensures
        messages_in(first, cap).len() <= messages_in(first + second, cap).len(),
    decreases first.len(),
{
    let all = first + second;
    if cap > 0 {
        if has_frame(first) {
            let size = frame_size(first);
            assert(all.subrange(4, 8) =~= first.subrange(4, 8));
            assert(has_frame(all));
            assert(all.skip(size) =~= first.skip(size) + second);
            lemma_messages_stay(first.skip(size), second, (cap - 1) as nat);
        } else if is_out_of_sync(first) {
            assert(is_out_of_sync(all));
            assert(!has_frame(all));
            assert(all.skip(1) =~= first.skip(1) + second);
            lemma_messages_stay(first.skip(1), second, cap);
        }
    }
}

/// One read of a longer stream, as long as all of it stays within the limits of
/// one read: what comes out, what is kept, and that the rest can go on from
/// there.
proof fn lemma_first_read(buffer: Seq<u8>, first: Seq<u8>, rest: Seq<u8>)
    requires
        buffer.len() + first.len() + rest.len() <= MAX_STAGED_BUFFER_BYTES,
        messages_in(buffer + first + rest, MAX_FRAMES_PER_READ as nat).len() < MAX_FRAMES_PER_READ,
    ensures
        ({
            let cap = MAX_FRAMES_PER_READ as nat;
            let left = buffer_after(buffer, first);
            &&& is_settled(left)
            &&& left.len() <= buffer.len() + first.len()
            &&& messages_in(buffer + first + rest, cap) == messages_in(buffer + first, cap)
                + messages_in(left + rest, cap)
            &&& remainder_of(buffer + first + rest, cap) == remainder_of(left + rest, cap)
        }),
{
    let cap = MAX_FRAMES_PER_READ as nat;
    let x = buffer + first;
    lemma_messages_stay(x, rest, cap);
    lemma_remainder(x, cap);
    let room = (cap - messages_in(x, cap).len()) as nat;
    let left = remainder_of(x, cap);
    lemma_reads_can_be_cut(x, rest, cap, room);
    lemma_cap_not_reached(left + rest, room, cap);
}

/// It does not matter how a stream is cut into reads, however many there are:
/// the messages are those of one read of all its bytes, in the same order, and
/// the same bytes are kept. A frame that is split over reads is neither lost
/// nor taken twice. This holds for streams within the limits of one read.
pub proof fn lemma_any_reads_like_one(buffer: Seq<u8>, chunks: Seq<Seq<u8>>)
    requires
        is_settled(buffer),
        (buffer + joined(chunks)).len() <= MAX_STAGED_BUFFER_BYTES,
        messages_in(buffer + joined(chunks), MAX_FRAMES_PER_READ as nat).len()
            < MAX_FRAMES_PER_READ,
    ensures
        messages_over(buffer, chunks) == messages_in(
            buffer + joined(chunks),
            MAX_FRAMES_PER_READ as nat,
        ),
        buffer_over(buffer, chunks) == remainder_of(
            buffer + joined(chunks),
            MAX_FRAMES_PER_READ as nat,
        ),
    decreases chunks.len(),
{
    let all = buffer + joined(chunks);
    if chunks.len() == 0 {
        assert(all =~= buffer);
    } else {
        let (first, rest) = (chunks[0], joined(chunks.skip(1)));
        assert(all =~= buffer + first + rest);
        lemma_first_read(buffer, first, rest);
        let left = buffer_after(buffer, first);
        let later = messages_in(left + rest, MAX_FRAMES_PER_READ as nat);
        assert(messages_in(all, MAX_FRAMES_PER_READ as nat) == messages_in(
            buffer + first,
            MAX_FRAMES_PER_READ as nat,
        ) + later);
        lemma_any_reads_like_one(left, chunks.skip(1));
    }
}

/// What a connection knows.
pub struct Connection {
    /// Address that responses come from.
    pub source_address: u16,
    /// Address that requests go to.
    pub logical_address: u16,
    /// Tester that activated routing.
    pub tester: Option<u16>,
    /// Bytes that are no complete message yet.
    pub buffer: Seq<u8>,
}

/// What is to be done about a UDS request.
#[derive(Debug)]
pub enum UdsPlan {
    /// Answer with these bytes.
    Respond(Vec<u8>),
    /// Read a DID with this request.
    Read { did: u16, request: Vec<u8> },
    /// Write a DID with this request.
    Write { did: u16, request: Vec<u8> },
}

/// What a [`UdsPlan`] holds.
pub enum UdsPlanView {
    Respond(Seq<u8>),
    Read(u16, Seq<u8>),
    Write(u16, Seq<u8>),
}

impl View for UdsPlan {
    type V = UdsPlanView;

    open spec fn view(&self) -> UdsPlanView {
        match self {
            UdsPlan::Respond(bytes) => UdsPlanView::Respond(bytes@),
            UdsPlan::Read { did, request } => UdsPlanView::Read(*did, request@),
            UdsPlan::Write { did, request } => UdsPlanView::Write(*did, request@),
        }
    }
}

/// What is to be done about a UDS request: reads and writes of a DID go on with
/// the full request, and everything else is refused.
pub open spec fn uds_plan(data: Seq<u8>) -> UdsPlanView {
    if data.len() < MIN_READ_SERVICE_LENGTH {
        UdsPlanView::Respond(
            negative_response(UNKNOWN_SERVICE_ID, Nrc::IncorrectMessageLengthOrInvalidFormat),
        )
    } else if data[0] == READ_DATA_BY_IDENTIFIER {
        UdsPlanView::Read(be16(data.subrange(1, 3)), data)
    } else if data[0] == WRITE_DATA_BY_IDENTIFIER {
        if data.len() - 1 < MIN_WDBI_DATA_LENGTH {
            UdsPlanView::Respond(
                negative_response(data[0], Nrc::IncorrectMessageLengthOrInvalidFormat),
            )
        } else {
            UdsPlanView::Write(be16(data.subrange(1, 3)), data)
        }
    } else {
        UdsPlanView::Respond(negative_response(data[0], Nrc::ServiceNotSupported))
    }
}

/// The UDS response to a plan, with the backend's answer where it was asked. A
/// backend error becomes a negative response.
pub open spec fn uds_response(plan: UdsPlanView, answer: Option<Seq<u8>>) -> Seq<u8> {
    match plan {
        UdsPlanView::Respond(bytes) => bytes,
        UdsPlanView::Read(_, _) => match answer {
            Some(bytes) => bytes,
            None => negative_response(READ_DATA_BY_IDENTIFIER, Nrc::RequestOutOfRange),
        },
        UdsPlanView::Write(_, _) => match answer {
            Some(bytes) => bytes,
            None => negative_response(WRITE_DATA_BY_IDENTIFIER, Nrc::GeneralProgrammingFailure),
        },
    }
}

/// What the backend answered, if it did not fail.
pub open spec fn answer_of(outcome: Result<Vec<u8>>) -> Option<Seq<u8>> {
    match outcome {
        Ok(bytes) => Some(bytes@),
        Err(_) => None,
    }
}

/// Whatever is refused or fails is answered with a negative response that
/// carries the reason.
pub proof fn lemma_refusals_are_negative(data: Seq<u8>)
    ensures
        uds_plan(data) matches UdsPlanView::Respond(bytes) ==> is_negative(bytes) && (bytes[2]
            == Nrc::IncorrectMessageLengthOrInvalidFormat.code() || bytes[2]
            == Nrc::ServiceNotSupported.code()),
        data.len() < MIN_READ_SERVICE_LENGTH ==> uds_response(uds_plan(data), None)[2]
            == Nrc::IncorrectMessageLengthOrInvalidFormat.code(),
        uds_plan(data) is Read ==> is_negative(uds_response(uds_plan(data), None)) && uds_response(
            uds_plan(data),
            None,
        )[2] == Nrc::RequestOutOfRange.code(),
        uds_plan(data) is Write ==> is_negative(uds_response(uds_plan(data), None))
            && uds_response(uds_plan(data), None)[2] == Nrc::GeneralProgrammingFailure.code(),
        data.len() >= MIN_READ_SERVICE_LENGTH ==> {
            let refused = uds_response(uds_plan(data), None);
            refused.len() == 3 && refused[1] == data[0]
        },
{
}

/// A negative response can be read back: it is one, and names its code.
pub proof fn lemma_negative_response_reads_back(service_id: u8, nrc: Nrc)
    ensures
        is_negative(negative_response(service_id, nrc)),
        nrc_of(negative_response(service_id, nrc)[2]) == Some(nrc),
{
    lemma_nrc_round_trip(nrc, nrc.code());
}

/// What is to be done about a DoIP message.
#[derive(Debug)]
pub enum MessageAction {
    /// Nothing.
    Ignore,
    /// Send this message.
    Reply(DoIpMessage),
    /// Carry out a UDS request of this tester.
    Request { tester: u16, plan: UdsPlan },
}

/// The diagnostic message in a payload may be carried out: it is whole, goes
/// to the ECU, and comes from the tester that activated routing.
pub open spec fn is_authorised(connection: Connection, payload: Seq<u8>) -> bool {
    &&& connection.tester is Some
    &&& payload.len() >= DIAGNOSTIC_MESSAGE_HEADER_SIZE
    &&& be16(payload.subrange(2, 4)) == connection.logical_address
    &&& connection.tester == Some(be16(payload.subrange(0, 2)))
}

/// The payload of the response to a routing activation.
pub open spec fn activation_payload(tester: u16, logical_address: u16) -> Seq<u8> {
    be16_bytes(tester) + be16_bytes(logical_address) + seq![ROUTING_ACTIVATION_SUCCESS]
}

/// What a message makes of a connection: only a routing activation changes it,
/// and only whom it is activated for.
pub open spec fn connection_after(
    connection: Connection,
    payload_type: u16,
    payload: Seq<u8>,
) -> Connection {
    if payload_type == PayloadType::RoutingActivationRequest.wire_code() && payload.len()
        >= ROUTING_ACTIVATION_REQUEST_MIN_LEN {
        Connection { tester: Some(be16(payload.subrange(0, 2))), ..connection }
    } else {
        connection
    }
}

/// `action` is what a message on a connection calls for.
pub open spec fn is_action_for(
    action: MessageAction,
    connection: Connection,
    payload_type: u16,
    payload: Seq<u8>,
) -> bool {
    if payload_type == PayloadType::RoutingActivationRequest.wire_code() && payload.len()
        >= ROUTING_ACTIVATION_REQUEST_MIN_LEN {
        action matches MessageAction::Reply(m) && m.carries(
            PayloadType::RoutingActivationResponse.wire_code(),
            activation_payload(be16(payload.subrange(0, 2)), connection.logical_address),
        )
    } else if payload_type == PayloadType::DiagnosticMessage.wire_code() && is_authorised(
        connection,
        payload,
    ) {
        action matches MessageAction::Request { tester, plan } && connection.tester == Some(tester)
            && plan@ == uds_plan(payload.skip(DIAGNOSTIC_MESSAGE_HEADER_SIZE as int))
    } else {
        action is Ignore
    }
}

/// The bytes that are written in reply to a message, with the backend's answer
/// where it was asked. An empty UDS response is not sent.
pub open spec fn reply_bytes(
    connection: Connection,
    payload_type: u16,
    payload: Seq<u8>,
    answer: Option<Seq<u8>>,
) -> Seq<u8> {
    if payload_type == PayloadType::RoutingActivationRequest.wire_code() && payload.len()
        >= ROUTING_ACTIVATION_REQUEST_MIN_LEN {
        frame_bytes(
            DOIP_PROTOCOL_VERSION,
            PayloadType::RoutingActivationResponse.wire_code(),
            activation_payload(be16(payload.subrange(0, 2)), connection.logical_address),
        )
    } else if payload_type == PayloadType::DiagnosticMessage.wire_code() && is_authorised(
        connection,
        payload,
    ) {
        let response = uds_response(
            uds_plan(payload.skip(DIAGNOSTIC_MESSAGE_HEADER_SIZE as int)),
            answer,
        );
        if response.len() == 0 {
            Seq::empty()
        } else {
            frame_bytes(
                DOIP_PROTOCOL_VERSION,
                PayloadType::DiagnosticMessage.wire_code(),
                diagnostic_payload(connection.source_address, connection.tester->0, response),
            )
        }
    } else {
        Seq::empty()
    }
}

/// The reply bytes are those of the message that the action for a message
/// calls for, and none if it calls for none.
pub proof fn lemma_action_gives_reply(
    action: MessageAction,
    connection: Connection,
    payload_type: u16,
    payload: Seq<u8>,
    answer: Option<Seq<u8>>,
)
    requires
        is_action_for(action, connection, payload_type, payload),
    ensures
        ({
            let written = reply_bytes(connection, payload_type, payload, answer);
            match action {
                MessageAction::Ignore => written.len() == 0,
                MessageAction::Reply(m) => written == frame_bytes(
                    m.protocol_version,
                    m.payload_type,
                    m.payload@,
                ),
                MessageAction::Request { tester, plan } => {
                    let response = uds_response(plan@, answer);
                    if response.len() == 0 {
                        written.len() == 0
                    } else {
                        written == frame_bytes(
                            DOIP_PROTOCOL_VERSION,
                            PayloadType::DiagnosticMessage.wire_code(),
                            diagnostic_payload(connection.source_address, tester, response),
                        )
                    }
                },
            }
        }),
{
}

/// What some messages make of a connection.
pub open spec fn connection_over(
    connection: Connection,
    messages: Seq<(u16, Seq<u8>)>,
) -> Connection
    decreases messages.len(),
{
    if messages.len() == 0 {
        connection
    } else {
        connection_over(
            connection_after(connection, messages[0].0, messages[0].1),
            messages.skip(1),
        )
    }
}

/// The bytes that are written in reply to some messages. The answer to message
/// number `n` of the connection, where the backend is asked, is `answers(n)`;
/// `number` is that of the first message.
pub open spec fn replies_to(
    connection: Connection,
    messages: Seq<(u16, Seq<u8>)>,
    number: nat,
    answers: spec_fn(nat) -> Option<Seq<u8>>,
) -> Seq<u8>
    decreases messages.len(),
{
    if messages.len() == 0 {
        Seq::empty()
    } else {
        reply_bytes(connection, messages[0].0, messages[0].1, answers(number)) + replies_to(
            connection_after(connection, messages[0].0, messages[0].1),
            messages.skip(1),
            number + 1,
            answers,
        )
    }
}

/// The bytes that are written over some reads: after each read the messages
/// that came out are answered one after the other.
pub open spec fn replies_over(
    connection: Connection,
    chunks: Seq<Seq<u8>>,
    number: nat,
    answers: spec_fn(nat) -> Option<Seq<u8>>,
) -> Seq<u8>
    decreases chunks.len(),
{
    if chunks.len() == 0 {
        Seq::empty()
    } else {
        let messages = messages_in(
            connection.buffer + chunks[0],
            MAX_FRAMES_PER_READ as nat,
        );
        let received = Connection {
            buffer: buffer_after(connection.buffer, chunks[0]),
            ..connection
        };
        replies_to(received, messages, number, answers) + replies_over(
            connection_over(received, messages),
            chunks.skip(1),
            number + messages.len(),
            answers,
        )
    }
}

/// Replies do not depend on what is buffered.
proof fn lemma_replies_ignore_buffer(
    connection: Connection,
    buffer: Seq<u8>,
    messages: Seq<(u16, Seq<u8>)>,
    number: nat,
    answers: spec_fn(nat) -> Option<Seq<u8>>,
)
    ensures
        replies_to(Connection { buffer, ..connection }, messages, number, answers) == replies_to(
            connection,
            messages,
            number,
            answers,
        ),
        connection_over(Connection { buffer, ..connection }, messages) == (Connection {
            buffer,
            ..connection_over(connection, messages)
        }),
    decreases messages.len(),
{
    if messages.len() > 0 {
        let other = Connection { buffer, ..connection };
        let (kind, payload) = messages[0];
        let after = connection_after(connection, kind, payload);
        assert(connection_after(other, kind, payload) == (Connection { buffer, ..after }));
        lemma_replies_ignore_buffer(after, buffer, messages.skip(1), number + 1, answers);
    }
}

/// Replies to messages that are cut in two.
proof fn lemma_replies_split(
    connection: Connection,
    first: Seq<(u16, Seq<u8>)>,
    second: Seq<(u16, Seq<u8>)>,
    number: nat,
    answers: spec_fn(nat) -> Option<Seq<u8>>,
)
    ensures
        replies_to(connection, first + second, number, answers) == replies_to(
            connection,
            first,
            number,
            answers,
        ) + replies_to(
            connection_over(connection, first),
            second,
            number + first.len(),
            answers,
        ),
    decreases first.len(),
{
    let all = first + second;
    if first.len() == 0 {
        assert(all =~= second);
        assert(replies_to(connection, all, number, answers) =~= Seq::<u8>::empty() + replies_to(
            connection,
            all,
            number,
            answers,
        ));
    } else {
        assert(all.skip(1) =~= first.skip(1) + second);
        assert(all[0] == first[0]);
        let after = connection_after(connection, first[0].0, first[0].1);
        lemma_replies_split(after, first.skip(1), second, number + 1, answers);
        assert(number + 1 + first.skip(1).len() == number + first.len());
        assert(replies_to(connection, all, number, answers) =~= replies_to(
            connection,
            first,
            number,
            answers,
        ) + replies_to(
            connection_over(connection, first),
            second,
            number + first.len(),
            answers,
        ));
    }
}

/// However a stream is cut into reads, the same bytes are written in reply as
/// for one read of all of it, for streams within the limits of one read and a
/// backend that answers alike.
pub proof fn lemma_any_reads_reply_like_one(
    connection: Connection,
    chunks: Seq<Seq<u8>>,
    number: nat,
    answers: spec_fn(nat) -> Option<Seq<u8>>,
)
    requires
        is_settled(connection.buffer),
        (connection.buffer + joined(chunks)).len() <= MAX_STAGED_BUFFER_BYTES,
        messages_in(connection.buffer + joined(chunks), MAX_FRAMES_PER_READ as nat).len()
            < MAX_FRAMES_PER_READ,
    ensures
        replies_over(connection, chunks, number, answers) == replies_to(
            connection,
            messages_in(connection.buffer + joined(chunks), MAX_FRAMES_PER_READ as nat),
            number,
            answers,
        ),
    decreases chunks.len(),
{
    let cap = MAX_FRAMES_PER_READ as nat;
    let buffer = connection.buffer;
    let all = buffer + joined(chunks);
    if chunks.len() == 0 {
        assert(all =~= buffer);
    } else {
        let (first, rest) = (chunks[0], joined(chunks.skip(1)));
        assert(all =~= buffer + first + rest);
        lemma_first_read(buffer, first, rest);
        let left = buffer_after(buffer, first);
        let early = messages_in(buffer + first, cap);
        let later = messages_in(left + rest, cap);
        let received = Connection { buffer: left, ..connection };
        let next = connection_over(received, early);
        lemma_replies_ignore_buffer(connection, left, early, number, answers);
        assert(next.buffer == left);
        lemma_any_reads_reply_like_one(next, chunks.skip(1), number + early.len(), answers);
        lemma_replies_ignore_buffer(
            connection_over(connection, early),
            left,
            later,
            number + early.len(),
            answers,
        );
        lemma_replies_split(connection, early, later, number, answers);
    }
}

/// Two ways to cut a stream into reads come to the same: the same messages in
/// the same order, the same bytes kept, and the same bytes written in reply,
/// for streams within the limits of one read and a backend that answers alike.
pub proof fn lemma_cuts_do_not_matter(
    connection: Connection,
    chunks: Seq<Seq<u8>>,
    others: Seq<Seq<u8>>,
    number: nat,
    answers: spec_fn(nat) -> Option<Seq<u8>>,
)
    requires
        joined(chunks) == joined(others),
        is_settled(connection.buffer),
        (connection.buffer + joined(chunks)).len() <= MAX_STAGED_BUFFER_BYTES,
        messages_in(connection.buffer + joined(chunks), MAX_FRAMES_PER_READ as nat).len()
            < MAX_FRAMES_PER_READ,
    ensures
        messages_over(connection.buffer, chunks) == messages_over(connection.buffer, others),
        buffer_over(connection.buffer, chunks) == buffer_over(connection.buffer, others),
        replies_over(connection, chunks, number, answers) == replies_over(
            connection,
            others,
            number,
            answers,
        ),
{
    lemma_any_reads_like_one(connection.buffer, chunks);
    lemma_any_reads_like_one(connection.buffer, others);
    lemma_any_reads_reply_like_one(connection, chunks, number, answers);
    lemma_any_reads_reply_like_one(connection, others, number, answers);
}

/// Before routing is activated nothing is answered but a routing activation,
/// and afterwards only the tester that activated it is served.
pub proof fn lemma_only_activated_tester_is_served(
    action: MessageAction,
    connection: Connection,
    payload_type: u16,
    payload: Seq<u8>,
)
    requires
        is_action_for(action, connection, payload_type, payload),
    ensures
        action matches MessageAction::Request { tester, .. } ==> {
            &&& connection.tester == Some(tester)
            &&& tester == be16(payload.subrange(0, 2))
            &&& connection.logical_address == be16(payload.subrange(2, 4))
        },
        connection.tester is None && payload_type
            != PayloadType::RoutingActivationRequest.wire_code() ==> action is Ignore,
{
}

/// After a routing activation the tester that asked for it is served: each of
/// its diagnostic messages to the ECU is carried out.
pub proof fn lemma_activation_serves_tester(
    connection: Connection,
    activation: Seq<u8>,
    user_data: Seq<u8>,
)
    requires
        activation.len() >= ROUTING_ACTIVATION_REQUEST_MIN_LEN,
    ensures
        ({
            let after = connection_after(
                connection,
                PayloadType::RoutingActivationRequest.wire_code(),
                activation,
            );
            let tester = be16(activation.subrange(0, 2));
            let payload = diagnostic_payload(tester, connection.logical_address, user_data);
            is_authorised(after, payload) && payload.skip(DIAGNOSTIC_MESSAGE_HEADER_SIZE as int)
                == user_data
        }),
{
    let tester = be16(activation.subrange(0, 2));
    crate::doip::message::lemma_diagnostic_payload_round_trip(
        tester,
        connection.logical_address,
        user_data,
    );
}

/// Decide on a UDS request.
pub fn plan_uds_request(uds_data: &[u8]) -> (plan: UdsPlan)
    ensures
        plan@ == uds_plan(uds_data@),
{
    // All supported services require at least SID (1) + DID high (1) + DID low (1).
    if uds_data.len() < MIN_READ_SERVICE_LENGTH {
        return UdsPlan::Respond(
            build_negative(UNKNOWN_SERVICE_ID, Nrc::IncorrectMessageLengthOrInvalidFormat),
        );
    }
    let uds_msg = match UdsMessage::from_bytes(uds_data) {
        Ok(message) => message,
        Err(_) => {
            return UdsPlan::Respond(
                build_negative(UNKNOWN_SERVICE_ID, Nrc::IncorrectMessageLengthOrInvalidFormat),
            );
        },
    };
    assert(seq![uds_msg.service_id] + uds_msg.data@ =~= uds_data@);
    if uds_msg.service_id == READ_DATA_BY_IDENTIFIER {
        plan_read_data_by_identifier(&uds_msg)
    } else if uds_msg.service_id == WRITE_DATA_BY_IDENTIFIER {
        plan_write_data_by_identifier(&uds_msg)
    } else {
        UdsPlan::Respond(uds_msg.build_negative_response(Nrc::ServiceNotSupported))
    }
}

fn plan_write_data_by_identifier(uds_msg: &UdsMessage) -> (plan: UdsPlan)
    requires
        uds_msg.service_id == WRITE_DATA_BY_IDENTIFIER,
        uds_msg.data@.len() >= 2,
    ensures
        plan@ == uds_plan(seq![uds_msg.service_id] + uds_msg.data@),
{
    let ghost whole = seq![uds_msg.service_id] + uds_msg.data@;
    assert(whole.subrange(1, 3) =~= uds_msg.data@.take(2));
    if uds_msg.data.len() < MIN_WDBI_DATA_LENGTH {
        return UdsPlan::Respond(
            uds_msg.build_negative_response(Nrc::IncorrectMessageLengthOrInvalidFormat),
        );
    }
    match uds_msg.extract_did() {
        Some(did) => {
            let mut request: Vec<u8> = Vec::new();
            request.push(WRITE_DATA_BY_IDENTIFIER);
            request.extend_from_slice(uds_msg.data.as_slice());
            assert(request@ =~= whole);
            UdsPlan::Write { did, request }
        },
        None => UdsPlan::Respond(
            uds_msg.build_negative_response(Nrc::IncorrectMessageLengthOrInvalidFormat),
        ),
    }
}

fn plan_read_data_by_identifier(uds_msg: &UdsMessage) -> (plan: UdsPlan)
    requires
        uds_msg.service_id == READ_DATA_BY_IDENTIFIER,
        uds_msg.data@.len() >= MIN_RDBI_DATA_LENGTH,
    ensures
        plan@ == uds_plan(seq![uds_msg.service_id] + uds_msg.data@),
{
    let ghost whole = seq![uds_msg.service_id] + uds_msg.data@;
    assert(whole.subrange(1, 3) =~= uds_msg.data@.take(2));
    match uds_msg.extract_did() {
        Some(did) => {
            let mut request: Vec<u8> = Vec::new();
            request.push(READ_DATA_BY_IDENTIFIER);
            request.extend_from_slice(uds_msg.data.as_slice());
            assert(request@ =~= whole);
            UdsPlan::Read { did, request }
        },
        None => UdsPlan::Respond(
            uds_msg.build_negative_response(Nrc::IncorrectMessageLengthOrInvalidFormat),
        ),
    }
}

impl UdsPlan {
    /// The UDS response, with what the backend answered where it was asked.
    pub fn complete(self, outcome: Result<Vec<u8>>) -> (response: Vec<u8>)
        ensures
            response@ == uds_response(self@, answer_of(outcome)),
    {
        match self {
            UdsPlan::Respond(bytes) => bytes,
            UdsPlan::Read { .. } => match outcome {
                Ok(bytes) => bytes,
                Err(_) => build_negative(READ_DATA_BY_IDENTIFIER, Nrc::RequestOutOfRange),
            },
            UdsPlan::Write { .. } => match outcome {
                Ok(bytes) => bytes,
                Err(_) => build_negative(WRITE_DATA_BY_IDENTIFIER, Nrc::GeneralProgrammingFailure),
            },
        }
    }
}

/// A backend that processes UDS diagnostic requests at once.
pub trait DiagHandler {
    /// Process a `ReadDataByIdentifier` (0x22) request.
    ///
    /// `did` is the extracted 16-bit Data Identifier.
    /// `uds_request` is the full UDS request bytes including the SID byte.
    ///
    /// Returns the complete UDS response bytes (positive or negative).
    fn handle_read_did(&self, did: u16, uds_request: &[u8]) -> Result<Vec<u8>>;

    /// Process a `WriteDataByIdentifier` (0x2E) request.
    ///
    /// `did` is the extracted 16-bit Data Identifier.
    /// `uds_request` is the full UDS request bytes including the SID byte.
    ///
    /// Returns the complete UDS response bytes (positive or negative).
    fn handle_write_did(&self, did: u16, uds_request: &[u8]) -> Result<Vec<u8>>;
}

/// The backend can answer a read request with this outcome.
pub open spec fn may_read<H: DiagHandler>(
    backend: &H,
    did: u16,
    request: &[u8],
    outcome: Result<Vec<u8>>,
) -> bool {
    call_ensures(H::handle_read_did, (backend, did, request), outcome)
}

/// The backend can answer a write request with this outcome.
pub open spec fn may_write<H: DiagHandler>(
    backend: &H,
    did: u16,
    request: &[u8],
    outcome: Result<Vec<u8>>,
) -> bool {
    call_ensures(H::handle_write_did, (backend, did, request), outcome)
}

/// `response` is the UDS response to a read request that the backend was asked
/// to carry out.
pub open spec fn is_read_response<H: DiagHandler>(
    response: Seq<u8>,
    backend: &H,
    did: u16,
    request: Seq<u8>,
) -> bool {
    exists|asked: &[u8], outcome: Result<Vec<u8>>|
        #[trigger] may_read(backend, did, asked, outcome) && asked@ == request && response
            == uds_response(UdsPlanView::Read(did, request), answer_of(outcome))
}

/// `response` is the UDS response to a write request that the backend was
/// asked to carry out.
pub open spec fn is_write_response<H: DiagHandler>(
    response: Seq<u8>,
    backend: &H,
    did: u16,
    request: Seq<u8>,
) -> bool {
    exists|asked: &[u8], outcome: Result<Vec<u8>>|
        #[trigger] may_write(backend, did, asked, outcome) && asked@ == request && response
            == uds_response(UdsPlanView::Write(did, request), answer_of(outcome))
}

/// Handles a single DoIP TCP connection.
pub struct ConnectionHandler {
    source_address: u16,
    logical_address: u16,
    session: Session,
    buffer: Vec<u8>,
}

impl View for ConnectionHandler {
    type V = Connection;

    closed spec fn view(&self) -> Connection {
        Connection {
            source_address: self.source_address,
            logical_address: self.logical_address,
            tester: self.session@,
            buffer: self.buffer@,
        }
    }
}

impl ConnectionHandler {
    /// Create a new connection handler.
    pub fn new(config: &Config) -> (handler: Self)
        ensures
            handler@ == (Connection {
                source_address: config@.server.source_address,
                logical_address: config@.ecu.logical_address,
                tester: None,
                buffer: Seq::empty(),
            }),
    {
        ConnectionHandler {
            source_address: config.server.source_address,
            logical_address: config.ecu.logical_address,
            session: Session::new(),
            buffer: Vec::new(),
        }
    }

    /// Take in the bytes of one read and give back the messages that are now
    /// complete, up to the cap for one read.
    ///
    /// Bytes of incomplete messages are kept, unless they grow too many. Bytes
    /// in front of a valid header are dropped.
    pub fn receive(&mut self, chunk: &[u8]) -> (messages: Vec<DoIpMessage>)
        ensures
            message_views(messages@) == messages_in(
                old(self)@.buffer + chunk@,
                MAX_FRAMES_PER_READ as nat,
            ),
            forall|i: int|
                0 <= i < messages@.len() ==> (#[trigger] messages@[i]).protocol_version
                    == DOIP_PROTOCOL_VERSION,
            final(self)@ == (Connection {
                buffer: kept(
                    remainder_of(old(self)@.buffer + chunk@, MAX_FRAMES_PER_READ as nat),
                ),
                ..old(self)@
            }),
    {
        self.buffer.extend_from_slice(chunk);
        let ghost all = old(self)@.buffer + chunk@;
        let mut messages: Vec<DoIpMessage> = Vec::new();
        let mut start: usize = 0;
        assert(all.skip(0) =~= all);
        assert(message_views(messages@) =~= Seq::empty());
        assert(messages_in(all, MAX_FRAMES_PER_READ as nat) =~= message_views(messages@)
            + messages_in(all, MAX_FRAMES_PER_READ as nat));
        let mut done = false;
        while !done && messages.len() < MAX_FRAMES_PER_READ
            invariant
                start <= all.len(),
                self.buffer@ == all,
                messages@.len() <= MAX_FRAMES_PER_READ,
                forall|i: int|
                    0 <= i < messages@.len() ==> (#[trigger] messages@[i]).protocol_version
                        == DOIP_PROTOCOL_VERSION,
                ({
                    let rest = all.skip(start as int);
                    let room = (MAX_FRAMES_PER_READ - messages@.len()) as nat;
                    &&& messages_in(all, MAX_FRAMES_PER_READ as nat) == message_views(messages@)
                        + messages_in(rest, room)
                    &&& remainder_of(all, MAX_FRAMES_PER_READ as nat) == remainder_of(rest, room)
                    &&& done ==> !has_frame(rest) && !is_out_of_sync(rest)
                }),
                self.session@ == old(self).session@,
                self.source_address == old(self).source_address,
                self.logical_address == old(self).logical_address,
            decreases (all.len() - start) + (if done {
                0int
            } else {
                1int
            }),
        {
            let ghost rest = all.skip(start as int);
            let ghost room = (MAX_FRAMES_PER_READ - messages@.len()) as nat;
            let ghost before = message_views(messages@);
            let view = vstd::slice::slice_subrange(
                self.buffer.as_slice(),
                start,
                self.buffer.len(),
            );
            assert(view@ =~= rest);
            match DoIpMessage::from_bytes(view) {
                Some(message) => {
                    let size: usize = DOIP_HEADER_SIZE + message.payload.len();
                    proof {
                        assert(size == frame_size(rest));
                        assert(rest.skip(size as int) =~= all.skip(start + size));
                    }
                    let ghost item = (message.payload_type, message.payload@);
                    start = start + size;
                    messages.push(message);
                    proof {
                        assert(message_views(messages@) =~= before.push(item));
                        assert(before + (seq![item] + messages_in(
                            all.skip(start as int),
                            (room - 1) as nat,
                        )) =~= before.push(item) + messages_in(
                            all.skip(start as int),
                            (room - 1) as nat,
                        ));
                    }
                },
                None => if has_invalid_doip_header(view) {
                    assert(rest.skip(1) =~= all.skip(start + 1));
                    start = start + 1;
                } else {
                    done = true;
                },
            }
        }
        let ghost rest = all.skip(start as int);
        proof {
            let room = (MAX_FRAMES_PER_READ - messages@.len()) as nat;
            assert(messages_in(rest, room) =~= Seq::empty());
            assert(message_views(messages@) + Seq::empty() =~= message_views(messages@));
            assert(remainder_of(rest, room) == rest);
        }
        if self.buffer.len() - start > MAX_STAGED_BUFFER_BYTES {
            self.buffer = Vec::new();
        } else {
            self.buffer = copy_bytes(self.buffer.as_slice(), start, self.buffer.len());
            assert(self.buffer@ =~= rest);
        }
        messages
    }

    /// Decide on a message.
    pub fn process_message(&mut self, msg: &DoIpMessage) -> (action: MessageAction)
        ensures
            is_action_for(action, old(self)@, msg.payload_type, msg.payload@),
            final(self)@ == connection_after(old(self)@, msg.payload_type, msg.payload@),
    {
        match msg.payload_type_enum() {
            Some(PayloadType::RoutingActivationRequest) => self.handle_routing_activation(msg),
            Some(PayloadType::DiagnosticMessage) => self.handle_diagnostic_message(msg),
            Some(_) => MessageAction::Ignore,
            None => {
                assert(msg.payload_type != PayloadType::RoutingActivationRequest.wire_code());
                assert(msg.payload_type != PayloadType::DiagnosticMessage.wire_code());
                MessageAction::Ignore
            },
        }
    }

    fn handle_routing_activation(&mut self, msg: &DoIpMessage) -> (action: MessageAction)
        requires
            msg.payload_type == PayloadType::RoutingActivationRequest.wire_code(),
        ensures
            is_action_for(action, old(self)@, msg.payload_type, msg.payload@),
            final(self)@ == connection_after(old(self)@, msg.payload_type, msg.payload@),
    {
        let request = match RoutingActivationRequest::from_payload(msg.payload.as_slice()) {
            Some(request) => request,
            None => {
                return MessageAction::Ignore;
            },
        };
        self.session.activate(request.source_address);
        let mut payload: Vec<u8> = Vec::new();
        payload.push(high_byte(request.source_address));
        payload.push(low_byte(request.source_address));
        payload.push(high_byte(self.logical_address));
        payload.push(low_byte(self.logical_address));
        payload.push(ROUTING_ACTIVATION_SUCCESS);
        assert(payload@ =~= activation_payload(request.source_address, self.logical_address));
        MessageAction::Reply(DoIpMessage::new(PayloadType::RoutingActivationResponse, payload))
    }

    fn handle_diagnostic_message(&self, msg: &DoIpMessage) -> (action: MessageAction)
        requires
            msg.payload_type == PayloadType::DiagnosticMessage.wire_code(),
        ensures
            is_action_for(action, self@, msg.payload_type, msg.payload@),
    {
        if !self.session.is_activated() {
            return MessageAction::Ignore;
        }
        let diag_msg = match DiagnosticMessage::from_payload(msg.payload.as_slice()) {
            Some(message) => message,
            None => {
                return MessageAction::Ignore;
            },
        };
        if diag_msg.target_address != self.logical_address {
            return MessageAction::Ignore;
        }
        if !self.session.is_activated_for(diag_msg.source_address) {
            return MessageAction::Ignore;
        }
        MessageAction::Request {
            tester: diag_msg.source_address,
            plan: plan_uds_request(diag_msg.user_data.as_slice()),
        }
    }

    /// The message that brings a UDS response to a tester. An empty response is
    /// suppressed.
    pub fn response_message(&self, tester: u16, uds_response: &[u8]) -> (message: Option<
        DoIpMessage,
    >)
        ensures
            match message {
                Some(m) => uds_response@.len() > 0 && m.carries(
                    PayloadType::DiagnosticMessage.wire_code(),
                    diagnostic_payload(self@.source_address, tester, uds_response@),
                ),
                None => uds_response@.len() == 0,
            },
    {
        if uds_response.len() == 0 {
            return None;
        }
        let payload = DiagnosticMessage::build_payload(self.source_address, tester, uds_response);
        Some(DoIpMessage::new(PayloadType::DiagnosticMessage, payload))
    }

    /// Carry out a UDS request with a backend that answers at once.
    ///
    /// Where the plan is to read or write, the response comes from what the
    /// backend answers to the planned request.
    pub fn process_uds_request<H: DiagHandler>(&self, backend: &H, uds_data: &[u8]) -> (response:
        Vec<u8>)
        ensures
            match uds_plan(uds_data@) {
                UdsPlanView::Respond(bytes) => response@ == bytes,
                UdsPlanView::Read(did, request) => is_read_response(
                    response@,
                    backend,
                    did,
                    request,
                ),
                UdsPlanView::Write(did, request) => is_write_response(
                    response@,
                    backend,
                    did,
                    request,
                ),
            },
    {
        match plan_uds_request(uds_data) {
            UdsPlan::Respond(bytes) => bytes,
            UdsPlan::Read { did, request } => read_through(backend, did, request.as_slice()),
            UdsPlan::Write { did, request } => write_through(backend, did, request.as_slice()),
        }
    }
}

fn read_through<H: DiagHandler>(backend: &H, did: u16, request: &[u8]) -> (response: Vec<u8>)
    ensures
        is_read_response(response@, backend, did, request@),
{
    let outcome = backend.handle_read_did(did, request);
    assert(may_read(backend, did, request, outcome));
    match outcome {
        Ok(bytes) => bytes,
        Err(_) => build_negative(READ_DATA_BY_IDENTIFIER, Nrc::RequestOutOfRange),
    }
}

fn write_through<H: DiagHandler>(backend: &H, did: u16, request: &[u8]) -> (response: Vec<u8>)
    ensures
        is_write_response(response@, backend, did, request@),
{
    let outcome = backend.handle_write_did(did, request);
    assert(may_write(backend, did, request, outcome));
    match outcome {
        Ok(bytes) => bytes,
        Err(_) => build_negative(WRITE_DATA_BY_IDENTIFIER, Nrc::GeneralProgrammingFailure),
    }
}

} // verus!
